//! The statement executor: the happy path, poisoned and cancelled blocks,
//! `USE` permissions, timeouts, options, and parameter binding.

use surreal_core::ctx::Context;
use surreal_core::err::Error;
use surreal_core::executor::Executor;
use surreal_core::kvs::Store;
use surreal_core::options::{Auth, Options};
use surreal_core::parser::parse;
use surreal_core::statement::{DataKind, DataStmt, Query, Statement};
use surreal_core::value::Value;

fn run(sql: &str, auth: Auth) -> (Executor, Vec<surreal_core::response::Response>) {
    let q = parse(sql).unwrap();
    let mut ex = Executor::new(Store::new());
    let out = ex.execute(Context::default(), Options::new(auth), q).unwrap();
    (ex, out)
}

#[test]
fn happy_path() {
    let q = parse("SELECT * FROM test;").unwrap();
    assert_eq!(q.len(), 1);
    let mut ex = Executor::new(Store::new());
    let out = ex.execute(Context::default(), Options::new(Auth::Kv), q).unwrap();
    assert_eq!(out.len(), 1);
    assert_eq!(out[0].result.as_ref().unwrap(), &Value::Array(vec![]));
    assert!(out[0].time > 0);
}

#[test]
fn poisoned_block() {
    // The CREATE names no record id, so it fails at compute time; the
    // failure poisons the block, and COMMIT rewrites the buffer so every
    // response carries an error.
    let (_ex, out) = run(
        "BEGIN; CREATE bad_syntax_that_errs; SELECT * FROM t; COMMIT;",
        Auth::Kv,
    );
    assert_eq!(out.len(), 2);
    assert!(matches!(out[0].result, Err(Error::IdMissing { .. })));
    assert!(matches!(out[1].result, Err(Error::QueryNotExecuted { .. })));
}

#[test]
fn cancel_wipes_block() {
    let (ex, out) = run("BEGIN; CREATE a:1; CREATE a:2; CANCEL;", Auth::Kv);
    assert_eq!(out.len(), 2);
    assert!(matches!(out[0].result, Err(Error::QueryCancelled)));
    assert!(matches!(out[1].result, Err(Error::QueryCancelled)));
    assert!(ex.store().records.is_empty());
}

#[test]
fn commit_keeps_block() {
    let (ex, out) = run("BEGIN; CREATE a:1; CREATE a:2; COMMIT;", Auth::Kv);
    assert_eq!(out.len(), 2);
    assert!(out[0].result.is_ok());
    assert!(out[1].result.is_ok());
    assert_eq!(ex.store().records.len(), 2);
}

#[test]
fn unclosed_block_is_dropped() {
    let (ex, out) = run("BEGIN; CREATE a:1; CREATE a:2;", Auth::Kv);
    assert_eq!(out.len(), 0);
    assert!(ex.store().records.is_empty());
}

#[test]
fn use_permission() {
    let q = parse("USE NS prod DB d;").unwrap();
    let mut ex = Executor::new(Store::new());
    let out = ex
        .execute(Context::default(), Options::new(Auth::Ns("prod".to_string())), q)
        .unwrap();
    assert_eq!(out.len(), 1);
    assert!(out[0].result.is_ok());

    let q = parse("USE NS staging;").unwrap();
    let r = ex.execute(Context::default(), Options::new(Auth::Ns("prod".to_string())), q);
    match r {
        Err(Error::NsNotAllowed { ns }) => assert_eq!(ns, "staging"),
        other => panic!("expected NsNotAllowed, got {:?}", other),
    }
}

#[test]
fn db_permission() {
    let q = parse("USE DB other;").unwrap();
    let mut ex = Executor::new(Store::new());
    let r = ex.execute(
        Context::default(),
        Options::new(Auth::Db("prod".to_string(), "d".to_string())),
        q,
    );
    assert!(matches!(r, Err(Error::DbNotAllowed { .. })));
}

#[test]
fn statement_timeout() {
    // A zero timeout has already passed by the time the statement's compute
    // returns, so the result is overridden and the implicit transaction is
    // cancelled: the write does not persist.
    let q = Query {
        stmts: vec![
            Statement::Other(
                DataStmt {
                    kind: DataKind::Create { tb: "t".to_string(), id: Some("1".to_string()) },
                    timeout: Some(0),
                },
            ),
        ],
    };
    let mut ex = Executor::new(Store::new());
    let out = ex.execute(Context::default(), Options::new(Auth::Kv), q).unwrap();
    assert_eq!(out.len(), 1);
    assert!(matches!(out[0].result, Err(Error::QueryTimedout)));
    assert!(ex.store().records.is_empty());
}

#[test]
fn unknown_option_ends_query() {
    let (_ex, out) = run(
        "USE NS n DB d; OPTION WHATEVER; SELECT * FROM t;",
        Auth::Kv,
    );
    // the unknown option name ends the query quietly: only USE answered
    assert_eq!(out.len(), 1);
}

#[test]
fn option_requires_selected_db() {
    let q = parse("OPTION IMPORT;").unwrap();
    let mut ex = Executor::new(Store::new());
    let r = ex.execute(Context::default(), Options::new(Auth::Kv), q);
    assert!(matches!(r, Err(Error::NsEmpty)));
}

#[test]
fn known_option_is_silent() {
    let (_ex, out) = run(
        "USE NS n DB d; OPTION IMPORT = false; SELECT * FROM t;",
        Auth::Kv,
    );
    assert_eq!(out.len(), 2);
    assert!(out[1].result.is_ok());
}

#[test]
fn let_binds_parameters() {
    let (_ex, out) = run("LET $x = 'v'; RETURN $x;", Auth::Kv);
    assert_eq!(out.len(), 2);
    assert_eq!(out[0].result.as_ref().unwrap(), &Value::Nil);
    assert_eq!(out[1].result.as_ref().unwrap(), &Value::Strand("v".to_string()));
}

#[test]
fn let_refuses_protected_parameters() {
    let (_ex, out) = run("LET $session = 'v';", Auth::Kv);
    assert_eq!(out.len(), 1);
    match &out[0].result {
        Err(Error::InvalidParam { name }) => assert_eq!(name, "session"),
        other => panic!("expected InvalidParam, got {:?}", other),
    }
}

#[test]
fn output_clears_the_buffer() {
    let (_ex, out) = run("BEGIN; CREATE a:1; RETURN 'x'; COMMIT;", Auth::Kv);
    assert_eq!(out.len(), 1);
    assert_eq!(out[0].result.as_ref().unwrap(), &Value::Strand("x".to_string()));
}

#[test]
fn duplicate_record_is_refused() {
    let (ex, out) = run("CREATE a:1; CREATE a:1;", Auth::Kv);
    assert_eq!(out.len(), 2);
    assert!(out[0].result.is_ok());
    assert!(matches!(out[1].result, Err(Error::RecordExists { .. })));
    assert_eq!(ex.store().records.len(), 1);
}

#[test]
fn select_reads_committed_records() {
    let (_ex, out) = run("CREATE t:1; CREATE t:2; SELECT * FROM t;", Auth::Kv);
    assert_eq!(out.len(), 3);
    match out[2].result.as_ref().unwrap() {
        Value::Array(items) => assert_eq!(items.len(), 2),
        other => panic!("expected an array, got {:?}", other),
    }
}

#[test]
fn implicit_transactions_start_clean() {
    // The first statement fails, but outside an explicit block the error is
    // not sticky: the next statement computes normally.
    let (_ex, out) = run("CREATE nope; SELECT * FROM t;", Auth::Kv);
    assert_eq!(out.len(), 2);
    assert!(out[0].result.is_err());
    assert!(out[1].result.is_ok());
}
