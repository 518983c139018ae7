//! Statements, expressions, and the computation of data statements.
//!
//! Control statements (`BEGIN`, `COMMIT`, `CANCEL`, `USE`, `OPTION`) steer
//! the executor and never reach `compute`. Data statements compute against
//! the open transaction's snapshot; `RETURN` and `SET` compute a plain
//! expression against the context.

use vstd::prelude::*;
use crate::ctx::{spec_lookup, Context};
use crate::err::{Error, SpecError};
use crate::kvs::{spec_create, spec_select, Txn};
use crate::value::{SpecValue, Value};

verus! {

broadcast use vstd::std_specs::vec::group_vec_axioms, vstd::seq::group_seq_axioms;

/// The view of a computation result.
pub open spec fn res_view(r: Result<Value, Error>) -> Result<SpecValue, SpecError> {
    match r {
        Ok(v) => Ok(v.deep_view()),
        Err(e) => Err(e.deep_view()),
    }
}

/// An expression a `SET` or `RETURN` statement can compute.
#[derive(Debug, PartialEq, Eq)]
pub enum Expr {
    /// A literal value.
    Literal(Value),
    /// A reference to a context parameter, written `$name`.
    Param(String),
}

/// The mathematical shape of an [`Expr`].
#[verifier::ext_equal]
pub enum SpecExpr {
    Literal(SpecValue),
    Param(Seq<char>),
}

impl DeepView for Expr {
    type V = SpecExpr;

    open spec fn deep_view(&self) -> SpecExpr {
        match self {
            Expr::Literal(v) => SpecExpr::Literal(v.deep_view()),
            Expr::Param(n) => SpecExpr::Param(n@),
        }
    }
}

/// What an expression evaluates to: a literal is itself; a parameter is its
/// latest binding, or `Nil` when unbound.
pub open spec fn spec_eval(e: SpecExpr, values: Seq<(Seq<char>, SpecValue)>) -> SpecValue {
    match e {
        SpecExpr::Literal(v) => v,
        SpecExpr::Param(n) => match spec_lookup(values, n) {
            Some(v) => v,
            None => SpecValue::Nil,
        },
    }
}

/// Evaluates an expression against the context.
pub fn eval_expr(e: &Expr, ctx: &Context) -> (r: Value)
    ensures
        r.deep_view() == spec_eval(e.deep_view(), ctx.deep_view().values),
{
    match e {
        Expr::Literal(v) => v.dup(),
        Expr::Param(n) => match ctx.value(n.as_str()) {
            Some(v) => v.dup(),
            None => Value::Nil,
        },
    }
}

/// The computable core of a data statement.
#[derive(Debug, PartialEq, Eq)]
pub enum DataKind {
    /// `CREATE tb:id`; without an id the statement fails at compute time.
    Create { tb: String, id: Option<String> },
    /// `SELECT * FROM tb`.
    Select { tb: String },
    /// Any other statement text, carried through and computing to `Nil`.
    Raw(String),
}

/// The mathematical shape of a [`DataKind`].
#[verifier::ext_equal]
pub enum SpecDataKind {
    Create { tb: Seq<char>, id: Option<Seq<char>> },
    Select { tb: Seq<char> },
    Raw(Seq<char>),
}

impl DeepView for DataKind {
    type V = SpecDataKind;

    open spec fn deep_view(&self) -> SpecDataKind {
        match self {
            DataKind::Create { tb, id } => SpecDataKind::Create { tb: tb@, id: id.deep_view() },
            DataKind::Select { tb } => SpecDataKind::Select { tb: tb@ },
            DataKind::Raw(s) => SpecDataKind::Raw(s@),
        }
    }
}

/// A data statement: a computable core plus an optional `TIMEOUT`, in
/// nanoseconds.
#[derive(Debug, PartialEq, Eq)]
pub struct DataStmt {
    /// What the statement does.
    pub kind: DataKind,
    /// The statement's `TIMEOUT` clause, if any.
    pub timeout: Option<u64>,
}

/// The mathematical shape of a [`DataStmt`].
#[verifier::ext_equal]
pub struct SpecDataStmt {
    pub kind: SpecDataKind,
    pub timeout: Option<u64>,
}

impl DeepView for DataStmt {
    type V = SpecDataStmt;

    open spec fn deep_view(&self) -> SpecDataStmt {
        SpecDataStmt { kind: self.kind.deep_view(), timeout: self.timeout }
    }
}

/// What computing a data statement returns and does to the snapshot.
pub open spec fn spec_compute_data(
    k: SpecDataKind,
    rs: Seq<crate::kvs::SpecRecord>,
) -> (Result<SpecValue, SpecError>, Seq<crate::kvs::SpecRecord>) {
    match k {
        SpecDataKind::Create { tb, id } => match id {
            Some(id) => spec_create(rs, tb, id),
            None => (Err(SpecError::IdMissing { tb: tb }), rs),
        },
        SpecDataKind::Select { tb } => (Ok(SpecValue::Array(spec_select(rs, tb))), rs),
        SpecDataKind::Raw(_) => (Ok(SpecValue::Nil), rs),
    }
}

impl DataStmt {
    /// Computes the statement against the transaction snapshot.
    pub fn compute(&self, txn: &mut Txn) -> (r: Result<Value, Error>)
        ensures
            ({
                let (sr, srs) = spec_compute_data(self.deep_view().kind, old(txn).deep_view());
                &&& res_view(r) == sr
                &&& final(txn).deep_view() == srs
                &&& final(txn).write == old(txn).write
            }),
    {
        match &self.kind {
            DataKind::Create { tb, id } => match id {
                Some(id) => txn.create(tb.as_str(), id.as_str()),
                None => Err(Error::IdMissing { tb: tb.clone() }),
            },
            DataKind::Select { tb } => {
                let items = txn.select_all(tb.as_str());
                Ok(Value::Array(items))
            },
            DataKind::Raw(_) => Ok(Value::Nil),
        }
    }
}

/// One statement of a query.
#[derive(Debug, PartialEq, Eq)]
pub enum Statement {
    /// Opens an explicit transaction.
    Begin,
    /// Closes the explicit transaction, keeping its writes.
    Commit,
    /// Closes the explicit transaction, discarding its writes.
    Cancel,
    /// Switches namespace and/or database.
    Use { ns: Option<String>, db: Option<String> },
    /// Binds a parameter: `LET $name = expr`.
    Let { name: String, what: Expr },
    /// Flips an executor toggle: `OPTION NAME = v`.
    Opt { name: String, what: bool },
    /// `RETURN expr`: computes the expression and clears the buffer.
    Output(Expr),
    /// Any data statement.
    Other(DataStmt),
}

/// The mathematical shape of a [`Statement`].
#[verifier::ext_equal]
pub enum SpecStatement {
    Begin,
    Commit,
    Cancel,
    Use { ns: Option<Seq<char>>, db: Option<Seq<char>> },
    Let { name: Seq<char>, what: SpecExpr },
    Opt { name: Seq<char>, what: bool },
    Output(SpecExpr),
    Other(SpecDataStmt),
}

impl DeepView for Statement {
    type V = SpecStatement;

    open spec fn deep_view(&self) -> SpecStatement {
        match self {
            Statement::Begin => SpecStatement::Begin,
            Statement::Commit => SpecStatement::Commit,
            Statement::Cancel => SpecStatement::Cancel,
            Statement::Use { ns, db } => SpecStatement::Use {
                ns: ns.deep_view(),
                db: db.deep_view(),
            },
            Statement::Let { name, what } => SpecStatement::Let {
                name: name@,
                what: what.deep_view(),
            },
            Statement::Opt { name, what } => SpecStatement::Opt { name: name@, what: *what },
            Statement::Output(e) => SpecStatement::Output(e.deep_view()),
            Statement::Other(d) => SpecStatement::Other(d.deep_view()),
        }
    }
}

/// Whether the statement may write persisted state.
pub open spec fn spec_writeable(s: SpecStatement) -> bool {
    match s {
        SpecStatement::Other(d) => d.kind is Create,
        _ => false,
    }
}

/// The statement's `TIMEOUT` clause, if any.
pub open spec fn spec_timeout(s: SpecStatement) -> Option<u64> {
    match s {
        SpecStatement::Other(d) => d.timeout,
        _ => None,
    }
}

impl Statement {
    /// Whether the statement may write persisted state.
    pub fn writeable(&self) -> (r: bool)
        ensures
            r == spec_writeable(self.deep_view()),
    {
        match self {
            Statement::Other(d) => match &d.kind {
                DataKind::Create { .. } => true,
                _ => false,
            },
            _ => false,
        }
    }

    /// The statement's `TIMEOUT` clause, in nanoseconds, if any.
    pub fn timeout(&self) -> (r: Option<u64>)
        ensures
            r == spec_timeout(self.deep_view()),
    {
        match self {
            Statement::Other(d) => d.timeout,
            _ => None,
        }
    }
}

/// A parsed query: a finite ordered sequence of statements.
#[derive(Debug, PartialEq, Eq)]
pub struct Query {
    /// The statements, in source order.
    pub stmts: Vec<Statement>,
}

impl DeepView for Query {
    type V = Seq<SpecStatement>;

    open spec fn deep_view(&self) -> Seq<SpecStatement> {
        self.stmts.deep_view()
    }
}

impl Query {
    /// The number of statements.
    pub fn len(&self) -> (r: usize)
        ensures
            r == self.deep_view().len(),
    {
        self.stmts.len()
    }
}

} // verus!
