//! The execution context: named values plus an optional deadline.
//!
//! The executor binds `SET` parameters and the session object here, and the
//! timeout machinery narrows the deadline around a single statement and
//! restores it afterwards, so the narrowing is visible only to that
//! statement, as a child context would be.

use vstd::prelude::*;
use crate::value::{SpecValue, Value};

verus! {

broadcast use vstd::std_specs::vec::group_vec_axioms, vstd::seq::group_seq_axioms;

/// The mathematical shape of a [`Context`].
#[verifier::ext_equal]
pub struct SpecCtx {
    pub values: Seq<(Seq<char>, SpecValue)>,
    pub deadline: Option<u64>,
}

/// Named values and an optional deadline, in nanoseconds of the crate's
/// clock. Later bindings shadow earlier ones.
#[derive(Debug)]
pub struct Context {
    values: Vec<(String, Value)>,
    deadline: Option<u64>,
}

impl DeepView for Context {
    type V = SpecCtx;

    closed spec fn deep_view(&self) -> SpecCtx {
        SpecCtx { values: self.values.deep_view(), deadline: self.deadline }
    }
}

/// The value bound to `name`, where the latest binding wins.
pub open spec fn spec_lookup(
    values: Seq<(Seq<char>, SpecValue)>,
    name: Seq<char>,
) -> Option<SpecValue>
    decreases values.len(),
{
    if values.len() == 0 {
        None
    } else if values.last().0 == name {
        Some(values.last().1)
    } else {
        spec_lookup(values.drop_last(), name)
    }
}

/// Whether the context has timed out at time `now`.
pub open spec fn spec_timedout(deadline: Option<u64>, now: u64) -> bool {
    match deadline {
        Some(d) => now >= d,
        None => false,
    }
}

impl Context {
    /// An empty context with no deadline.
    pub fn new() -> (r: Context)
        ensures
            r.deep_view().values == Seq::<(Seq<char>, SpecValue)>::empty(),
            r.deep_view().deadline is None,
    {
        Context { values: Vec::new(), deadline: None }
    }

    /// Binds `v` under `name`, shadowing any earlier binding.
    pub fn add_value(&mut self, name: String, v: Value)
        ensures
            final(self).deep_view().values
                == old(self).deep_view().values.push((name@, v.deep_view())),
            final(self).deep_view().deadline == old(self).deep_view().deadline,
    {
        self.values.push((name, v));
        assert(self.deep_view().values
            =~= old(self).deep_view().values.push((name@, v.deep_view())));
    }

    /// The value bound to `name`, if any.
    #[verifier::loop_isolation(false)]
    pub fn value(&self, name: &str) -> (r: Option<&Value>)
        ensures
            match spec_lookup(self.deep_view().values, name@) {
                Some(v) => r is Some && r->0.deep_view() == v,
                None => r is None,
            },
    {
        let n = self.values.len();
        let mut i: usize = n;
        assert(self.deep_view().values.take(n as int) =~= self.deep_view().values);
        while i > 0
            invariant
                i <= n,
                n == self.values.len(),
                spec_lookup(self.deep_view().values, name@)
                    == spec_lookup(self.deep_view().values.take(i as int), name@),
            decreases i,
        {
            i = i - 1;
            if crate::strutil::str_eq(self.values[i].0.as_str(), name) {
                proof {
                    let vals = self.deep_view().values;
                    assert(vals.take(i + 1 as int).last() == vals[i as int]);
                    assert(spec_lookup(vals.take(i + 1 as int), name@) == Some(vals[i as int].1));
                }
                return Some(&self.values[i].1);
            }
            proof {
                let vals = self.deep_view().values;
                assert(vals.take(i + 1 as int).drop_last() =~= vals.take(i as int));
                assert(vals.take(i + 1 as int).last() == vals[i as int]);
            }
        }
        assert(self.deep_view().values.take(0) =~= Seq::<(Seq<char>, SpecValue)>::empty());
        None
    }

    /// Sets the deadline to `now + d` (saturating), as a `TIMEOUT` clause
    /// does around one statement.
    pub fn add_timeout(&mut self, d: u64, now: u64)
        ensures
            final(self).deep_view().values == old(self).deep_view().values,
            final(self).deep_view().deadline == Some(
                if now + d <= u64::MAX { (now + d) as u64 } else { u64::MAX },
            ),
    {
        let dl = if d <= u64::MAX - now {
            now + d
        } else {
            u64::MAX
        };
        self.deadline = Some(dl);
    }

    /// Replaces the deadline wholesale; the executor uses this to restore a
    /// parent deadline after a timed statement.
    pub fn set_deadline(&mut self, dl: Option<u64>)
        ensures
            final(self).deep_view().values == old(self).deep_view().values,
            final(self).deep_view().deadline == dl,
    {
        self.deadline = dl;
    }

    /// The current deadline.
    pub fn deadline(&self) -> (r: Option<u64>)
        ensures
            r == self.deep_view().deadline,
    {
        self.deadline
    }

    /// Whether the deadline has passed at time `now`.
    pub fn is_timedout(&self, now: u64) -> (r: bool)
        ensures
            r == spec_timedout(self.deep_view().deadline, now),
    {
        match self.deadline {
            Some(d) => now >= d,
            None => false,
        }
    }
}

impl Default for Context {
    /// An empty context with no deadline.
    fn default() -> (r: Context)
        ensures
            r.deep_view().values == Seq::<(Seq<char>, SpecValue)>::empty(),
            r.deep_view().deadline is None,
    {
        Context::new()
    }
}

} // verus!
