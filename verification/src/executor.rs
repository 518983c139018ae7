//! The statement executor: transaction lifecycle, error poisoning, and
//! response buffering.
//!
//! `execute` drives a statement sequence in source order. Control statements
//! steer the transaction; every other statement computes inside an implicit
//! single-statement transaction, or inside the enclosing explicit block,
//! whose buffered responses are rewritten when the block closes.
//!
//! The whole behaviour is pinned by the functional model [`spec_exec`]: the
//! executor returns exactly what the model returns, for some sequence of
//! timeout observations (timeouts are the one place the wall clock decides).

use vstd::prelude::*;
use crate::ctx::{spec_lookup, Context, SpecCtx};
use crate::err::{spec_message, Error, SpecError};
use crate::kvs::{Store, SpecRecord, Txn};
use crate::options::{Level, Options, SpecAuth, SpecOptions};
use crate::response::{responses_view, Response};
use crate::statement::{
    eval_expr, res_view, spec_compute_data, spec_eval, spec_timeout, spec_writeable, Query,
    SpecStatement, Statement,
};
use crate::value::{spec_put, SpecValue, Value};

verus! {

broadcast use vstd::std_specs::vec::group_vec_axioms, vstd::seq::group_seq_axioms;

/// The names a `LET` statement must not rebind.
pub open spec fn spec_protected(name: Seq<char>) -> bool {
    name == "auth"@ || name == "scope"@ || name == "token"@ || name == "session"@
}

/// Whether `LET` refuses this parameter name.
pub fn is_protected(name: &str) -> (r: bool)
    ensures
        r == spec_protected(name@),
{
    crate::strutil::str_eq(name, "auth") || crate::strutil::str_eq(name, "scope")
        || crate::strutil::str_eq(name, "token") || crate::strutil::str_eq(name, "session")
}

/// The executor's own state, abstracted: committed store, sticky error, and
/// the open transaction's snapshot and write flag.
#[verifier::ext_equal]
pub struct SpecExecutor {
    pub store: Seq<SpecRecord>,
    pub err: Option<SpecError>,
    pub txn: Option<(Seq<SpecRecord>, bool)>,
}

/// The full abstract state the model steps over.
#[verifier::ext_equal]
pub struct ExecState {
    pub store: Seq<SpecRecord>,
    pub err: Option<SpecError>,
    pub txn: Option<(Seq<SpecRecord>, bool)>,
    pub ctx: SpecCtx,
    pub opt: SpecOptions,
    pub buf: Seq<Result<SpecValue, SpecError>>,
    pub out: Seq<Result<SpecValue, SpecError>>,
}

/// What one step of the model can decide.
#[verifier::ext_equal]
pub enum StepOut {
    /// Go on with the next statement.
    Next(ExecState),
    /// End the loop quietly (unknown `OPTION` name): return the output so
    /// far, dropping the buffer.
    Stop(ExecState),
    /// Abort the whole query with an error.
    Fail(ExecState, SpecError),
}

/// The `CANCEL` rewrite: every buffered result becomes `QueryCancelled`.
pub open spec fn cancel_rewrite(
    buf: Seq<Result<SpecValue, SpecError>>,
) -> Seq<Result<SpecValue, SpecError>> {
    buf.map_values(|r: Result<SpecValue, SpecError>| Err::<SpecValue, SpecError>(
        SpecError::QueryCancelled,
    ))
}

/// The `COMMIT` rewrite of one buffered result under a sticky error:
/// successes become `QueryNotExecuted` carrying the sticky error's message,
/// failures pass through.
pub open spec fn commit_rewrite_one(
    r: Result<SpecValue, SpecError>,
    e: SpecError,
) -> Result<SpecValue, SpecError> {
    match r {
        Ok(_) => Err(SpecError::QueryNotExecuted { message: spec_message(e) }),
        Err(e0) => Err(e0),
    }
}

/// The `COMMIT` rewrite of the whole buffer: the identity when no sticky
/// error is set.
pub open spec fn commit_rewrite(
    buf: Seq<Result<SpecValue, SpecError>>,
    err: Option<SpecError>,
) -> Seq<Result<SpecValue, SpecError>> {
    match err {
        None => buf,
        Some(e) => buf.map_values(|r: Result<SpecValue, SpecError>| commit_rewrite_one(r, e)),
    }
}

/// The session value currently in the context, or `Nil`.
pub open spec fn spec_session_of(values: Seq<(Seq<char>, SpecValue)>) -> SpecValue {
    match spec_lookup(values, "session"@) {
        Some(v) => v,
        None => SpecValue::Nil,
    }
}

/// What a successful `USE` write does to the context: rebinds `session`
/// with the chosen name written under `key` (`"ns"` or `"db"`).
pub open spec fn spec_session_update(
    values: Seq<(Seq<char>, SpecValue)>,
    key: Seq<char>,
    name: Seq<char>,
) -> Seq<(Seq<char>, SpecValue)> {
    values.push(
        ("session"@, spec_put(spec_session_of(values), key, SpecValue::Strand(name))),
    )
}

/// Whether this principal may select namespace `n`.
pub open spec fn spec_ns_allowed(auth: SpecAuth, n: Seq<char>) -> bool {
    match auth {
        SpecAuth::No => true,
        SpecAuth::Kv => true,
        SpecAuth::Ns(v) => v == n,
        SpecAuth::Db(v, _) => v == n,
    }
}

/// Whether this principal may select database `d`.
pub open spec fn spec_db_allowed(auth: SpecAuth, d: Seq<char>) -> bool {
    match auth {
        SpecAuth::No => true,
        SpecAuth::Kv => true,
        SpecAuth::Ns(_) => true,
        SpecAuth::Db(_, v) => v == d,
    }
}

/// Appends a response to the right place: the buffer while a transaction is
/// open (clearing it first for `RETURN`), the output otherwise.
pub open spec fn step_wrap(st: ExecState, res: Result<SpecValue, SpecError>, clr: bool) -> ExecState {
    if st.txn is Some {
        ExecState { buf: (if clr { Seq::empty() } else { st.buf }).push(res), ..st }
    } else {
        ExecState { out: st.out.push(res), ..st }
    }
}

/// Sets the sticky error from a failed result, unless one is already set.
pub open spec fn step_stick(st: ExecState, res: Result<SpecValue, SpecError>) -> ExecState {
    match res {
        Err(e) => if st.err is None {
            ExecState { err: Some(e), ..st }
        } else {
            st
        },
        Ok(_) => st,
    }
}

/// One `OPTION` statement: requires a selected namespace and database, then
/// flips the named toggle; an unknown name ends the query quietly.
pub open spec fn spec_step_opt(st: ExecState, name: Seq<char>, what: bool) -> StepOut {
    if st.opt.ns is None {
        StepOut::Fail(st, SpecError::NsEmpty)
    } else if st.opt.db is None {
        StepOut::Fail(st, SpecError::DbEmpty)
    } else {
        let un = crate::strutil::spec_ascii_upper_seq(name);
        if un == "FIELDS"@ {
            StepOut::Next(ExecState { opt: SpecOptions { fields: what, ..st.opt }, ..st })
        } else if un == "EVENTS"@ {
            StepOut::Next(ExecState { opt: SpecOptions { events: what, ..st.opt }, ..st })
        } else if un == "TABLES"@ {
            StepOut::Next(ExecState { opt: SpecOptions { tables: what, ..st.opt }, ..st })
        } else if un == "IMPORT"@ {
            StepOut::Next(ExecState { opt: SpecOptions { import: what, ..st.opt }, ..st })
        } else if un == "FORCE"@ {
            StepOut::Next(ExecState { opt: SpecOptions { force: what, ..st.opt }, ..st })
        } else {
            StepOut::Stop(st)
        }
    }
}

/// One `USE` statement: each present part is permitted by the principal and
/// written into the options and the session, or the query aborts.
pub open spec fn spec_step_use(
    st: ExecState,
    ns: Option<Seq<char>>,
    db: Option<Seq<char>>,
) -> StepOut {
    let st1 = match ns {
        Some(n) => if spec_ns_allowed(st.opt.auth, n) {
            ExecState {
                ctx: SpecCtx {
                    values: spec_session_update(st.ctx.values, "ns"@, n),
                    ..st.ctx
                },
                opt: SpecOptions { ns: Some(n), ..st.opt },
                ..st
            }
        } else {
            st
        },
        None => st,
    };
    if ns is Some && !spec_ns_allowed(st.opt.auth, ns->0) {
        StepOut::Fail(
            ExecState { opt: SpecOptions { ns: None, ..st.opt }, ..st },
            SpecError::NsNotAllowed { ns: ns->0 },
        )
    } else {
        match db {
            Some(d) => if spec_db_allowed(st1.opt.auth, d) {
                StepOut::Next(step_wrap(
                    ExecState {
                        ctx: SpecCtx {
                            values: spec_session_update(st1.ctx.values, "db"@, d),
                            ..st1.ctx
                        },
                        opt: SpecOptions { db: Some(d), ..st1.opt },
                        ..st1
                    },
                    Ok(SpecValue::Nil),
                    false,
                ))
            } else {
                StepOut::Fail(
                    ExecState { opt: SpecOptions { db: None, ..st1.opt }, ..st1 },
                    SpecError::DbNotAllowed { db: d },
                )
            },
            None => StepOut::Next(step_wrap(st1, Ok(SpecValue::Nil), false)),
        }
    }
}

/// One `LET` statement: under a pre-set sticky error it fails as a
/// transaction failure; a protected name is refused; otherwise the
/// expression's value is bound and the implicit transaction, if one was
/// opened here, is cancelled (expressions do not write).
pub open spec fn spec_step_let(st: ExecState, name: Seq<char>, what: crate::statement::SpecExpr) -> StepOut {
    let loc = st.txn is None;
    let st1 = if loc {
        ExecState { txn: Some((st.store, false)), ..st }
    } else {
        st
    };
    if st1.err is Some {
        StepOut::Next(step_wrap(st1, Err(SpecError::TxFailure), false))
    } else {
        let (res, st2) = if spec_protected(name) {
            (Err(SpecError::InvalidParam { name: name }), st1)
        } else {
            (
                Ok(SpecValue::Nil),
                ExecState {
                    ctx: SpecCtx {
                        values: st1.ctx.values.push(
                            (name, spec_eval(what, st1.ctx.values)),
                        ),
                        ..st1.ctx
                    },
                    ..st1
                },
            )
        };
        let st3 = if loc {
            ExecState { txn: None, ..st2 }
        } else {
            st2
        };
        StepOut::Next(step_wrap(step_stick(st3, res), res, false))
    }
}

/// One data or `RETURN` statement: short-circuits under a sticky error;
/// otherwise computes inside the open (or a fresh implicit) transaction,
/// lets an observed timeout override the result, finalizes the implicit
/// transaction, and sets the sticky error on failure.
pub open spec fn spec_step_other(st: ExecState, stm: SpecStatement, tout: bool) -> StepOut {
    let clr = stm is Output;
    if st.err is Some {
        StepOut::Next(step_wrap(
            st,
            Err(SpecError::QueryNotExecuted { message: spec_message(st.err->0) }),
            clr,
        ))
    } else {
        let w = spec_writeable(stm);
        let loc = st.txn is None;
        let st1 = if loc {
            ExecState { txn: Some((st.store, w)), ..st }
        } else {
            st
        };
        let recs = (st1.txn->0).0;
        let wflag = (st1.txn->0).1;
        let (res0, recs2) = match stm {
            SpecStatement::Output(e) => (Ok(spec_eval(e, st1.ctx.values)), recs),
            SpecStatement::Other(d) => spec_compute_data(d.kind, recs),
            _ => (Ok(SpecValue::Nil), recs),
        };
        let st2 = ExecState { txn: Some((recs2, wflag)), ..st1 };
        let res = if spec_timeout(stm) is Some && tout {
            Err(SpecError::QueryTimedout)
        } else {
            res0
        };
        let st3 = if res is Ok && w {
            if loc {
                ExecState { store: recs2, txn: None, ..st2 }
            } else {
                st2
            }
        } else {
            if loc {
                ExecState { txn: None, ..st2 }
            } else {
                st2
            }
        };
        StepOut::Next(step_wrap(step_stick(st3, res), res, clr))
    }
}

/// One step of the executor model on one statement. The sticky error is
/// cleared first whenever no transaction is open: implicit transactions
/// start clean.
pub open spec fn spec_step(st: ExecState, stm: SpecStatement, tout: bool) -> StepOut {
    let st = if st.txn is None {
        ExecState { err: None, ..st }
    } else {
        st
    };
    match stm {
        SpecStatement::Begin => if st.txn is None {
            StepOut::Next(ExecState { txn: Some((st.store, true)), ..st })
        } else {
            StepOut::Next(st)
        },
        SpecStatement::Cancel => StepOut::Next(ExecState {
            txn: None,
            buf: Seq::empty(),
            out: st.out + cancel_rewrite(st.buf),
            ..st
        }),
        SpecStatement::Commit => StepOut::Next(ExecState {
            store: if st.txn is Some && st.err is None {
                (st.txn->0).0
            } else {
                st.store
            },
            txn: None,
            buf: Seq::empty(),
            out: st.out + commit_rewrite(st.buf, st.err),
            ..st
        }),
        SpecStatement::Opt { name, what } => spec_step_opt(st, name, what),
        SpecStatement::Use { ns, db } => spec_step_use(st, ns, db),
        SpecStatement::Let { name, what } => spec_step_let(st, name, what),
        SpecStatement::Output(_) => spec_step_other(st, stm, tout),
        SpecStatement::Other(_) => spec_step_other(st, stm, tout),
    }
}

/// The executor model over a statement sequence: the result of `execute`
/// and the final state, given the per-statement timeout observations.
pub open spec fn spec_exec(
    stms: Seq<SpecStatement>,
    st: ExecState,
    touts: Seq<bool>,
) -> (Result<Seq<Result<SpecValue, SpecError>>, SpecError>, ExecState)
    decreases stms.len(),
{
    if stms.len() == 0 {
        (Ok(st.out), st)
    } else {
        let tout = if touts.len() > 0 {
            touts[0]
        } else {
            false
        };
        match spec_step(st, stms[0], tout) {
            StepOut::Next(st2) => spec_exec(stms.skip(1), st2, touts.skip(1)),
            StepOut::Stop(st2) => (Ok(st2.out), st2),
            StepOut::Fail(st2, e) => (Err(e), st2),
        }
    }
}

/// The initial model state for one `execute` call.
pub open spec fn init_state(ex: SpecExecutor, ctx: SpecCtx, opt: SpecOptions) -> ExecState {
    ExecState {
        store: ex.store,
        err: ex.err,
        txn: ex.txn,
        ctx: ctx,
        opt: opt,
        buf: Seq::empty(),
        out: Seq::empty(),
    }
}

/// The statement executor. It owns the store, the sticky error slot, and
/// the current transaction, if one is open.
#[derive(Debug)]
pub struct Executor {
    kvs: Store,
    err: Option<Error>,
    txn: Option<Txn>,
}

impl DeepView for Executor {
    type V = SpecExecutor;

    closed spec fn deep_view(&self) -> SpecExecutor {
        SpecExecutor {
            store: self.kvs.deep_view(),
            err: self.err.deep_view(),
            txn: match self.txn {
                Some(t) => Some((t.deep_view(), t.write)),
                None => None,
            },
        }
    }
}

impl Executor {
    /// An executor over this store, with no open transaction and no sticky
    /// error.
    pub fn new(kvs: Store) -> (r: Executor)
        ensures
            r.deep_view() == (SpecExecutor { store: kvs.deep_view(), err: None, txn: None }),
    {
        Executor { kvs, txn: None, err: None }
    }

    /// The store, as committed so far.
    pub fn store(&self) -> (r: &Store)
        ensures
            r.deep_view() == self.deep_view().store,
    {
        &self.kvs
    }

    /// Opens a transaction if none is open; returns whether one was opened
    /// here. This store never fails to open one.
    fn begin(&mut self, write: bool) -> (started: bool)
        ensures
            old(self).deep_view().txn is Some ==> final(self).deep_view() == old(self).deep_view()
                && !started,
            old(self).deep_view().txn is None ==> final(self).deep_view() == (SpecExecutor {
                txn: Some((old(self).deep_view().store, write)),
                ..old(self).deep_view()
            }) && started,
    {
        match &self.txn {
            Some(_) => false,
            None => {
                match self.kvs.transaction(write, false) {
                    Ok(t) => {
                        self.txn = Some(t);
                        true
                    },
                    Err(_) => vstd::pervasive::unreached(),
                }
            },
        }
    }

    /// Finalizes a local transaction: cancels it under a sticky error,
    /// commits it otherwise. Does nothing when `local` is false or no
    /// transaction is open.
    fn commit(&mut self, local: bool)
        ensures
            ({
                let o = old(self).deep_view();
                if local && o.txn is Some {
                    final(self).deep_view() == (SpecExecutor {
                        store: if o.err is None { (o.txn->0).0 } else { o.store },
                        txn: None,
                        ..o
                    })
                } else {
                    final(self).deep_view() == o
                }
            }),
    {
        if local {
            let txn = self.txn.take();
            if let Some(t) = txn {
                if self.err.is_some() {
                    match t.cancel() {
                        Ok(_) => (),
                        Err(_) => vstd::pervasive::unreached(),
                    }
                } else {
                    match t.commit(&mut self.kvs) {
                        Ok(_) => (),
                        Err(_) => vstd::pervasive::unreached(),
                    }
                }
            }
        }
    }

    /// Discards a local transaction. Does nothing when `local` is false or
    /// no transaction is open.
    fn cancel(&mut self, local: bool)
        ensures
            ({
                let o = old(self).deep_view();
                if local && o.txn is Some {
                    final(self).deep_view() == (SpecExecutor { txn: None, ..o })
                } else {
                    final(self).deep_view() == o
                }
            }),
    {
        if local {
            let txn = self.txn.take();
            if let Some(t) = txn {
                match t.cancel() {
                    Ok(_) => (),
                    Err(_) => vstd::pervasive::unreached(),
                }
            }
        }
    }

    /// The `CANCEL` rewrite of one buffered response, keeping its time.
    pub fn buf_cancel(&self, v: Response) -> (r: Response)
        ensures
            r.time == v.time,
            res_view(r.result) == Err::<SpecValue, SpecError>(SpecError::QueryCancelled),
    {
        Response { time: v.time, result: Err(Error::QueryCancelled) }
    }

    /// The `COMMIT` rewrite of one buffered response under the sticky
    /// error, keeping its time: the identity when no sticky error is set.
    pub fn buf_commit(&self, v: Response) -> (r: Response)
        ensures
            r.time == v.time,
            res_view(r.result) == match self.deep_view().err {
                Some(e) => commit_rewrite_one(res_view(v.result), e),
                None => res_view(v.result),
            },
    {
        match &self.err {
            Some(e) => Response {
                time: v.time,
                result: match v.result {
                    Ok(_) => Err(Error::QueryNotExecuted { message: e.message() }),
                    Err(e0) => Err(e0),
                },
            },
            None => v,
        }
    }

    /// Writes the chosen namespace into the session and the options.
    fn set_ns(&self, ctx: &mut Context, opt: &mut Options, ns: &str)
        ensures
            final(ctx).deep_view().values == spec_session_update(
                old(ctx).deep_view().values,
                "ns"@,
                ns@,
            ),
            final(ctx).deep_view().deadline == old(ctx).deep_view().deadline,
            final(opt).deep_view() == (SpecOptions {
                ns: Some(ns@),
                ..old(opt).deep_view()
            }),
    {
        let session0 = match ctx.value("session") {
            Some(v) => v.dup(),
            None => Value::Nil,
        };
        let session = session0.with_field("ns", Value::Strand(String::from_str(ns)));
        ctx.add_value(String::from_str("session"), session);
        opt.ns = Some(String::from_str(ns));
    }

    /// Writes the chosen database into the session and the options.
    fn set_db(&self, ctx: &mut Context, opt: &mut Options, db: &str)
        ensures
            final(ctx).deep_view().values == spec_session_update(
                old(ctx).deep_view().values,
                "db"@,
                db@,
            ),
            final(ctx).deep_view().deadline == old(ctx).deep_view().deadline,
            final(opt).deep_view() == (SpecOptions {
                db: Some(db@),
                ..old(opt).deep_view()
            }),
    {
        let session0 = match ctx.value("session") {
            Some(v) => v.dup(),
            None => Value::Nil,
        };
        let session = session0.with_field("db", Value::Strand(String::from_str(db)));
        ctx.add_value(String::from_str("session"), session);
        opt.db = Some(String::from_str(db));
    }
}

/// The abstract state assembled from the executor's parts.
pub open spec fn cur_state(
    ex: SpecExecutor,
    ctx: SpecCtx,
    opt: SpecOptions,
    buf: Seq<Result<SpecValue, SpecError>>,
    out: Seq<Result<SpecValue, SpecError>>,
) -> ExecState {
    ExecState { store: ex.store, err: ex.err, txn: ex.txn, ctx: ctx, opt: opt, buf: buf, out: out }
}

impl Executor {
    /// Runs the statements of `qry` in source order against this executor's
    /// store, under the given context and options, and returns one response
    /// per non-control statement — exactly what the model [`spec_exec`]
    /// returns, for some sequence of per-statement timeout observations.
    #[verifier::loop_isolation(false)]
    #[verifier::rlimit(100)]
    pub fn execute(&mut self, ctx: Context, opt: Options, qry: Query) -> (r: Result<
        Vec<Response>,
        Error,
    >)
        ensures
            exists|touts: Seq<bool>|
                #![trigger spec_exec(qry.deep_view(), init_state(old(self).deep_view(), ctx.deep_view(), opt.deep_view()), touts)]
                {
                    let m = spec_exec(
                        qry.deep_view(),
                        init_state(old(self).deep_view(), ctx.deep_view(), opt.deep_view()),
                        touts,
                    );
                    &&& (r is Ok <==> m.0 is Ok)
                    &&& (r is Ok ==> responses_view(r->Ok_0@) == m.0->Ok_0)
                    &&& (r is Err ==> r->Err_0.deep_view() == m.0->Err_0)
                    &&& final(self).deep_view().store == m.1.store
                    &&& final(self).deep_view().err == m.1.err
                    &&& final(self).deep_view().txn == m.1.txn
                },
    {
        let ghost full = qry.deep_view();
        let ghost init = init_state(self.deep_view(), ctx.deep_view(), opt.deep_view());
        let mut ctx = ctx;
        let mut opt = opt;
        let mut buf: Vec<Response> = Vec::new();
        let mut out: Vec<Response> = Vec::new();
        let ghost mut touts: Seq<bool> = Seq::empty();
        let n = qry.stmts.len();
        let mut i: usize = 0;
        proof {
            assert(responses_view(buf@) =~= Seq::<Result<SpecValue, SpecError>>::empty());
            assert(responses_view(out@) =~= Seq::<Result<SpecValue, SpecError>>::empty());
            assert(full.skip(0) =~= full);
        }
        while i < n
            invariant
                i <= n,
                n == qry.stmts@.len(),
                touts.len() == i,
                forall|rest: Seq<bool>|
                    #[trigger] spec_exec(full, init, touts + rest) == spec_exec(
                        full.skip(i as int),
                        cur_state(
                            self.deep_view(),
                            ctx.deep_view(),
                            opt.deep_view(),
                            responses_view(buf@),
                            responses_view(out@),
                        ),
                        rest,
                    ),
            decreases n - i,
        {
            let ghost pre = cur_state(
                self.deep_view(),
                ctx.deep_view(),
                opt.deep_view(),
                responses_view(buf@),
                responses_view(out@),
            );
            let stm = &qry.stmts[i];
            proof {
                assert(stm.deep_view() == full[i as int]);
            }
            // Each implicit transaction starts clean.
            if self.txn.is_none() {
                self.err = None;
            }
            let ghost st0 = cur_state(
                self.deep_view(),
                ctx.deep_view(),
                opt.deep_view(),
                responses_view(buf@),
                responses_view(out@),
            );
            let now1 = crate::clock::now_ns();
            let clr = matches!(stm, Statement::Output(_));
            let ghost mut b: bool = false;
            let res_opt: Option<Result<Value, Error>> = match stm {
                Statement::Opt { name, what } => {
                    match opt.needs(Level::Db) {
                        Err(e) => {
                            proof {
                                lemma_finish(full, init, touts, i as int, pre, st0);
                                assert(spec_step(pre, full[i as int], false) =~~= StepOut::Fail(
                                    st0,
                                    e.deep_view(),
                                ));
                            }
                            return Err(e);
                        },
                        Ok(_) => {},
                    }
                    match opt.check(Level::Db) {
                        Ok(_) => {},
                        Err(_) => {
                            return vstd::pervasive::unreached();
                        },
                    }
                    let un = crate::strutil::ascii_uppercase(name.as_str());
                    if crate::strutil::str_eq(un.as_str(), "FIELDS") {
                        opt.fields = *what;
                        None
                    } else if crate::strutil::str_eq(un.as_str(), "EVENTS") {
                        opt.events = *what;
                        None
                    } else if crate::strutil::str_eq(un.as_str(), "TABLES") {
                        opt.tables = *what;
                        None
                    } else if crate::strutil::str_eq(un.as_str(), "IMPORT") {
                        opt.import = *what;
                        None
                    } else if crate::strutil::str_eq(un.as_str(), "FORCE") {
                        opt.force = *what;
                        None
                    } else {
                        // An unknown option name ends the query quietly.
                        proof {
                            lemma_finish(full, init, touts, i as int, pre, st0);
                            assert(spec_step(pre, full[i as int], false) =~~= StepOut::Stop(st0));
                        }
                        return Ok(out);
                    }
                },
                Statement::Begin => {
                    let _ = self.begin(true);
                    None
                },
                Statement::Cancel => {
                    self.cancel(true);
                    let ghost oldbuf = responses_view(buf@);
                    let ghost oldout = responses_view(out@);
                    let nb = buf.len();
                    let mut k: usize = 0;
                    while k < nb
                        invariant
                            k <= nb,
                            nb == oldbuf.len(),
                            buf@.len() == nb - k,
                            responses_view(buf@) == oldbuf.skip(k as int),
                            responses_view(out@) == oldout + cancel_rewrite(
                                oldbuf.take(k as int),
                            ),
                        decreases nb - k,
                    {
                        let ghost prebuf = responses_view(buf@);
                        let ghost preout = responses_view(out@);
                        let rsp = buf.remove(0);
                        proof {
                            assert(res_view(rsp.result) == prebuf[0]);
                        }
                        let r2 = self.buf_cancel(rsp);
                        out.push(r2);
                        proof {
                            assert(responses_view(buf@) =~= prebuf.skip(1));
                            assert(prebuf.skip(1) =~= oldbuf.skip(k + 1 as int));
                            assert(responses_view(out@) =~= preout.push(res_view(r2.result)));
                            assert(cancel_rewrite(oldbuf.take(k + 1 as int)) =~= cancel_rewrite(
                                oldbuf.take(k as int),
                            ).push(Err(SpecError::QueryCancelled)));
                            assert(responses_view(out@) =~= oldout + cancel_rewrite(
                                oldbuf.take(k + 1 as int),
                            ));
                        }
                        k = k + 1;
                    }
                    proof {
                        assert(oldbuf.take(nb as int) =~= oldbuf);
                        assert(responses_view(buf@) =~= Seq::<
                            Result<SpecValue, SpecError>,
                        >::empty());
                    }
                    None
                },
                Statement::Commit => {
                    self.commit(true);
                    let ghost errv = self.deep_view().err;
                    let ghost oldbuf = responses_view(buf@);
                    let ghost oldout = responses_view(out@);
                    let nb = buf.len();
                    let mut k: usize = 0;
                    while k < nb
                        invariant
                            k <= nb,
                            nb == oldbuf.len(),
                            buf@.len() == nb - k,
                            errv == self.deep_view().err,
                            responses_view(buf@) == oldbuf.skip(k as int),
                            responses_view(out@) == oldout + commit_rewrite(
                                oldbuf.take(k as int),
                                errv,
                            ),
                        decreases nb - k,
                    {
                        let ghost prebuf = responses_view(buf@);
                        let ghost preout = responses_view(out@);
                        let rsp = buf.remove(0);
                        let ghost rv = res_view(rsp.result);
                        proof {
                            assert(rv == prebuf[0]);
                            assert(rv == oldbuf[k as int]);
                        }
                        let r2 = self.buf_commit(rsp);
                        out.push(r2);
                        proof {
                            assert(responses_view(buf@) =~= prebuf.skip(1));
                            assert(prebuf.skip(1) =~= oldbuf.skip(k + 1 as int));
                            assert(responses_view(out@) =~= preout.push(res_view(r2.result)));
                            match errv {
                                Some(e) => {
                                    assert(res_view(r2.result) == commit_rewrite_one(rv, e));
                                    assert(commit_rewrite(oldbuf.take(k + 1 as int), errv)
                                        =~= commit_rewrite(oldbuf.take(k as int), errv).push(
                                        commit_rewrite_one(oldbuf[k as int], e),
                                    ));
                                },
                                None => {
                                    assert(res_view(r2.result) == rv);
                                    assert(commit_rewrite(oldbuf.take(k + 1 as int), errv)
                                        =~= commit_rewrite(oldbuf.take(k as int), errv).push(
                                        oldbuf[k as int],
                                    ));
                                },
                            }
                            assert(responses_view(out@) =~= oldout + commit_rewrite(
                                oldbuf.take(k + 1 as int),
                                errv,
                            ));
                        }
                        k = k + 1;
                    }
                    proof {
                        assert(oldbuf.take(nb as int) =~= oldbuf);
                        assert(responses_view(buf@) =~= Seq::<
                            Result<SpecValue, SpecError>,
                        >::empty());
                    }
                    None
                },
                Statement::Use { ns, db } => {
                    if let Some(nsn) = ns {
                        let allowed = match &opt.auth {
                            crate::options::Auth::No => true,
                            crate::options::Auth::Kv => true,
                            crate::options::Auth::Ns(v) => crate::strutil::str_eq(
                                v.as_str(),
                                nsn.as_str(),
                            ),
                            crate::options::Auth::Db(v, _) => crate::strutil::str_eq(
                                v.as_str(),
                                nsn.as_str(),
                            ),
                        };
                        if allowed {
                            self.set_ns(&mut ctx, &mut opt, nsn.as_str());
                        } else {
                            opt.ns = None;
                            let e = Error::NsNotAllowed { ns: nsn.clone() };
                            proof {
                                lemma_finish(full, init, touts, i as int, pre, st0);
                                assert(spec_step(pre, full[i as int], false) =~~= StepOut::Fail(
                                    cur_state(
                                        self.deep_view(),
                                        ctx.deep_view(),
                                        opt.deep_view(),
                                        responses_view(buf@),
                                        responses_view(out@),
                                    ),
                                    e.deep_view(),
                                ));
                            }
                            return Err(e);
                        }
                    }
                    if let Some(dbn) = db {
                        let allowed = match &opt.auth {
                            crate::options::Auth::No => true,
                            crate::options::Auth::Kv => true,
                            crate::options::Auth::Ns(_) => true,
                            crate::options::Auth::Db(_, v) => crate::strutil::str_eq(
                                v.as_str(),
                                dbn.as_str(),
                            ),
                        };
                        if allowed {
                            self.set_db(&mut ctx, &mut opt, dbn.as_str());
                        } else {
                            opt.db = None;
                            let e = Error::DbNotAllowed { db: dbn.clone() };
                            proof {
                                lemma_finish(full, init, touts, i as int, pre, st0);
                                assert(spec_step(pre, full[i as int], false) =~~= StepOut::Fail(
                                    cur_state(
                                        self.deep_view(),
                                        ctx.deep_view(),
                                        opt.deep_view(),
                                        responses_view(buf@),
                                        responses_view(out@),
                                    ),
                                    e.deep_view(),
                                ));
                            }
                            return Err(e);
                        }
                    }
                    Some(Ok(Value::Nil))
                },
                Statement::Let { name, what } => {
                    let loc = self.begin(false);
                    if self.err.is_some() {
                        Some(Err(Error::TxFailure))
                    } else {
                        let res: Result<Value, Error> = if is_protected(name.as_str()) {
                            Err(Error::InvalidParam { name: name.clone() })
                        } else {
                            let val = eval_expr(what, &ctx);
                            ctx.add_value(name.clone(), val);
                            Ok(Value::Nil)
                        };
                        self.cancel(loc);
                        if res.is_err() && self.err.is_none() {
                            let e = match &res {
                                Err(e) => e.dup(),
                                Ok(_) => vstd::pervasive::unreached(),
                            };
                            self.err = Some(e);
                        }
                        Some(res)
                    }
                },
                Statement::Output(_) | Statement::Other(_) => {
                    if self.err.is_some() {
                        let msg = match &self.err {
                            Some(e) => e.message(),
                            None => vstd::pervasive::unreached(),
                        };
                        Some(Err(Error::QueryNotExecuted { message: msg }))
                    } else {
                        let w = stm.writeable();
                        let loc = self.begin(w);
                        let saved = ctx.deadline();
                        let tclause = stm.timeout();
                        if let Some(dns) = tclause {
                            let nowt = crate::clock::now_ns();
                            ctx.add_timeout(dns, nowt);
                        }
                        let res0: Result<Value, Error> = match stm {
                            Statement::Output(e) => Ok(eval_expr(e, &ctx)),
                            Statement::Other(d) => match &mut self.txn {
                                Some(t) => d.compute(t),
                                None => vstd::pervasive::unreached(),
                            },
                            _ => vstd::pervasive::unreached(),
                        };
                        let res1: Result<Value, Error> = if tclause.is_some() {
                            let now2 = crate::clock::now_ns();
                            let timed = ctx.is_timedout(now2);
                            ctx.set_deadline(saved);
                            proof {
                                b = timed;
                            }
                            if timed {
                                Err(Error::QueryTimedout)
                            } else {
                                res0
                            }
                        } else {
                            res0
                        };
                        if res1.is_ok() && w {
                            self.commit(loc);
                        } else {
                            self.cancel(loc);
                        }
                        if res1.is_err() && self.err.is_none() {
                            let e = match &res1 {
                                Err(e) => e.dup(),
                                Ok(_) => vstd::pervasive::unreached(),
                            };
                            self.err = Some(e);
                        }
                        Some(res1)
                    }
                },
            };
            match res_opt {
                Some(res) => {
                    let ghost resv = res_view(res);
                    let now2 = crate::clock::now_ns();
                    let time = if now2 >= now1 {
                        now2 - now1
                    } else {
                        0
                    };
                    let ghost prebuf = responses_view(buf@);
                    let ghost preout = responses_view(out@);
                    let resp = Response { time, result: res };
                    if self.txn.is_some() {
                        if clr {
                            buf.clear();
                            proof {
                                assert(responses_view(buf@) =~= Seq::<
                                    Result<SpecValue, SpecError>,
                                >::empty());
                            }
                        }
                        let ghost prebuf2 = responses_view(buf@);
                        buf.push(resp);
                        proof {
                            assert(responses_view(buf@) =~= prebuf2.push(resv));
                        }
                    } else {
                        out.push(resp);
                        proof {
                            assert(responses_view(out@) =~= preout.push(resv));
                        }
                    }
                },
                None => {},
            }
            proof {
                let post = cur_state(
                    self.deep_view(),
                    ctx.deep_view(),
                    opt.deep_view(),
                    responses_view(buf@),
                    responses_view(out@),
                );
                assert(spec_step(pre, full[i as int], b) =~~= StepOut::Next(post));
                let oldtouts = touts;
                touts = touts.push(b);
                assert forall|rest: Seq<bool>|
                    #[trigger] spec_exec(full, init, touts + rest) == spec_exec(
                        full.skip(i + 1 as int),
                        post,
                        rest,
                    ) by {
                    let tr = seq![b] + rest;
                    assert(touts + rest =~= oldtouts + tr);
                    assert(spec_exec(full, init, oldtouts + tr) == spec_exec(
                        full.skip(i as int),
                        pre,
                        tr,
                    ));
                    assert(full.skip(i as int).len() > 0);
                    assert(full.skip(i as int)[0] == full[i as int]);
                    assert(tr[0] == b);
                    assert(tr.skip(1) =~= rest);
                    assert(full.skip(i as int).skip(1) =~= full.skip(i + 1 as int));
                    assert(spec_exec(full.skip(i as int), pre, tr) == spec_exec(
                        full.skip(i + 1 as int),
                        post,
                        rest,
                    ));
                }
            }
            i = i + 1;
        }
        proof {
            let fin = cur_state(
                self.deep_view(),
                ctx.deep_view(),
                opt.deep_view(),
                responses_view(buf@),
                responses_view(out@),
            );
            assert(touts + Seq::<bool>::empty() =~= touts);
            assert(spec_exec(full, init, touts) == spec_exec(
                full.skip(n as int),
                fin,
                Seq::empty(),
            ));
            assert(full.skip(n as int) =~= Seq::<SpecStatement>::empty());
        }
        Ok(out)
    }
}

/// Law: when `COMMIT` closes an explicit block whose sticky error is set —
/// as it is once any statement in the block has failed — every rewritten
/// response in the block carries an error: successes become
/// `QueryNotExecuted` with the sticky error's message, failures stay.
pub proof fn lemma_poisoned_block_all_err(buf: Seq<Result<SpecValue, SpecError>>, e: SpecError)
    ensures
        commit_rewrite(buf, Some(e)).len() == buf.len(),
        forall|i: int|
            0 <= i < buf.len() ==> #[trigger] commit_rewrite(buf, Some(e))[i] is Err,
        forall|i: int|
            0 <= i < buf.len() && buf[i] is Ok ==> commit_rewrite(buf, Some(e))[i]
                == Err::<SpecValue, SpecError>(
                SpecError::QueryNotExecuted { message: spec_message(e) },
            ),
        forall|i: int|
            0 <= i < buf.len() && buf[i] is Err ==> commit_rewrite(buf, Some(e))[i] == buf[i],
{
}

/// Law: when `CANCEL` closes an explicit block, every rewritten response in
/// the block is `QueryCancelled`, whatever its original result was.
pub proof fn lemma_cancelled_block_all_cancelled(buf: Seq<Result<SpecValue, SpecError>>)
    ensures
        cancel_rewrite(buf).len() == buf.len(),
        forall|i: int|
            0 <= i < buf.len() ==> #[trigger] cancel_rewrite(buf)[i] == Err::<
                SpecValue,
                SpecError,
            >(SpecError::QueryCancelled),
{
}

/// Law: a statement that fails inside an explicit block sets the sticky
/// error, and the model keeps a set sticky error across every later
/// non-control step in the block, so the block stays poisoned until
/// `COMMIT` or `CANCEL` closes it.
pub proof fn lemma_sticky_error_poisons(st: ExecState, stm: SpecStatement, tout: bool)
    requires
        st.txn is Some,
        st.err is Some,
        !(stm is Commit),
        !(stm is Cancel),
        spec_step(st, stm, tout) is Next,
    ensures
        spec_step(st, stm, tout)->Next_0.err == st.err,
        stm is Other ==> spec_step(st, stm, tout)->Next_0.buf == st.buf.push(
            Err(SpecError::QueryNotExecuted { message: spec_message(st.err->0) }),
        ),
        stm is Output ==> spec_step(st, stm, tout)->Next_0.buf == seq![
            Err::<SpecValue, SpecError>(
                SpecError::QueryNotExecuted { message: spec_message(st.err->0) },
            ),
        ],
{
    match stm {
        SpecStatement::Output(_) => {
            assert(spec_step(st, stm, tout)->Next_0.buf =~= seq![
                Err::<SpecValue, SpecError>(
                    SpecError::QueryNotExecuted { message: spec_message(st.err->0) },
                ),
            ]);
        },
        SpecStatement::Other(_) => {
            assert(spec_step(st, stm, tout)->Next_0.buf =~= st.buf.push(
                Err(SpecError::QueryNotExecuted { message: spec_message(st.err->0) }),
            ));
        },
        _ => {},
    }
}

/// A statement without a `TIMEOUT` clause steps the same way whatever the
/// clock observed.
pub proof fn lemma_step_clock_free(st: ExecState, stm: SpecStatement, t1: bool, t2: bool)
    requires
        spec_timeout(stm) is None,
    ensures
        spec_step(st, stm, t1) == spec_step(st, stm, t2),
{
    assert(spec_step(st, stm, t1) =~~= spec_step(st, stm, t2));
}

/// Law: a query with no `TIMEOUT` clause runs deterministically — the
/// model gives one result and one final state, whatever the clock
/// observed, so the executor's contract pins them down completely.
pub proof fn lemma_exec_deterministic(
    stms: Seq<SpecStatement>,
    st: ExecState,
    ta: Seq<bool>,
    tb: Seq<bool>,
)
    requires
        forall|i: int| 0 <= i < stms.len() ==> spec_timeout(#[trigger] stms[i]) is None,
    ensures
        spec_exec(stms, st, ta) == spec_exec(stms, st, tb),
    decreases stms.len(),
{
    if stms.len() > 0 {
        let fa = if ta.len() > 0 {
            ta[0]
        } else {
            false
        };
        let fb = if tb.len() > 0 {
            tb[0]
        } else {
            false
        };
        lemma_step_clock_free(st, stms[0], fa, fb);
        assert(forall|i: int|
            0 <= i < stms.skip(1).len() ==> spec_timeout(#[trigger] stms.skip(1)[i]) is None);
        match spec_step(st, stms[0], fa) {
            StepOut::Next(st2) => {
                lemma_exec_deterministic(stms.skip(1), st2, ta.skip(1), tb.skip(1));
            },
            StepOut::Stop(_) => {},
            StepOut::Fail(_, _) => {},
        }
    }
}

/// Turns the loop invariant into the final claim at an early exit: the whole
/// model run equals one step from the current state, with no further timeout
/// observations.
proof fn lemma_finish(
    full: Seq<SpecStatement>,
    init: ExecState,
    touts: Seq<bool>,
    i: int,
    pre: ExecState,
    st0: ExecState,
)
    requires
        0 <= i < full.len(),
        forall|rest: Seq<bool>|
            #[trigger] spec_exec(full, init, touts + rest) == spec_exec(
                full.skip(i),
                pre,
                rest,
            ),
    ensures
        spec_exec(full, init, touts) == spec_exec(full.skip(i), pre, Seq::empty()),
        full.skip(i).len() > 0,
        full.skip(i)[0] == full[i],
{
    assert(touts + Seq::<bool>::empty() =~= touts);
    assert(spec_exec(full, init, touts + Seq::empty()) == spec_exec(
        full.skip(i),
        pre,
        Seq::empty(),
    ));
}

} // verus!
