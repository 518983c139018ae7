//! The per-statement response: a result plus the time the statement took.

use vstd::prelude::*;
use crate::err::{Error, SpecError};
use crate::statement::res_view;
use crate::value::{SpecValue, Value};

verus! {

broadcast use vstd::std_specs::vec::group_vec_axioms, vstd::seq::group_seq_axioms;

/// One statement's response.
#[derive(Debug)]
pub struct Response {
    /// How long the statement took, in nanoseconds.
    pub time: u64,
    /// What the statement returned.
    pub result: Result<Value, Error>,
}

/// The result views of a response list, dropping the times: the executor's
/// contract pins the results down, while the times come from the clock.
pub open spec fn responses_view(rs: Seq<Response>) -> Seq<Result<SpecValue, SpecError>> {
    Seq::new(rs.len(), |i: int| res_view(rs[i].result))
}

} // verus!
