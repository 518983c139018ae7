//! The in-memory key-value store and its transactions.
//!
//! The executor consumes the store only through [`Store::transaction`],
//! [`Txn::commit`] and [`Txn::cancel`]: a transaction takes a snapshot of
//! the records, statements mutate the snapshot, and exactly one of commit
//! (which installs the snapshot) or cancel (which discards it) consumes the
//! transaction.

use vstd::prelude::*;
use crate::err::Error;
use crate::value::{SpecValue, Value};

verus! {

broadcast use vstd::std_specs::vec::group_vec_axioms, vstd::seq::group_seq_axioms;

/// One stored record, identified by table and record id.
#[derive(Debug, PartialEq, Eq)]
pub struct Record {
    /// The table name.
    pub tb: String,
    /// The record id within the table.
    pub id: String,
}

/// The mathematical shape of a [`Record`].
#[verifier::ext_equal]
pub struct SpecRecord {
    pub tb: Seq<char>,
    pub id: Seq<char>,
}

impl DeepView for Record {
    type V = SpecRecord;

    open spec fn deep_view(&self) -> SpecRecord {
        SpecRecord { tb: self.tb@, id: self.id@ }
    }
}

/// Whether some record with this table and id is present.
pub open spec fn spec_has_record(rs: Seq<SpecRecord>, tb: Seq<char>, id: Seq<char>) -> bool {
    exists|i: int| 0 <= i < rs.len() && rs[i].tb == tb && rs[i].id == id
}

/// The committed store: a list of records in insertion order.
#[derive(Debug)]
pub struct Store {
    /// The committed records.
    pub records: Vec<Record>,
}

impl DeepView for Store {
    type V = Seq<SpecRecord>;

    open spec fn deep_view(&self) -> Seq<SpecRecord> {
        self.records.deep_view()
    }
}

/// One transaction: a snapshot of the records plus the write flag.
#[derive(Debug)]
pub struct Txn {
    /// The snapshot this transaction reads and writes.
    pub records: Vec<Record>,
    /// Whether the transaction was opened for writing.
    pub write: bool,
}

impl DeepView for Txn {
    type V = Seq<SpecRecord>;

    open spec fn deep_view(&self) -> Seq<SpecRecord> {
        self.records.deep_view()
    }
}

/// A structural copy of a record list.
#[verifier::loop_isolation(false)]
pub fn records_dup(rs: &Vec<Record>) -> (r: Vec<Record>)
    ensures
        r.deep_view() == rs.deep_view(),
{
    let mut out: Vec<Record> = Vec::new();
    let mut i: usize = 0;
    while i < rs.len()
        invariant
            i <= rs@.len(),
            out@.len() == i,
            forall|j: int| 0 <= j < i ==> out@[j].deep_view() == rs@[j].deep_view(),
        decreases rs@.len() - i,
    {
        out.push(Record { tb: rs[i].tb.clone(), id: rs[i].id.clone() });
        i = i + 1;
    }
    assert(out.deep_view() =~= rs.deep_view());
    out
}

impl Store {
    /// An empty store.
    pub fn new() -> (r: Store)
        ensures
            r.deep_view() == Seq::<SpecRecord>::empty(),
    {
        let r = Store { records: Vec::new() };
        assert(r.deep_view() =~= Seq::<SpecRecord>::empty());
        r
    }

    /// Opens a transaction over a snapshot of the current records. This
    /// store is in memory and never fails to open one; the `Result` is the
    /// shape the executor consumes.
    pub fn transaction(&self, write: bool, lock: bool) -> (r: Result<Txn, Error>)
        ensures
            r is Ok,
            r->Ok_0.deep_view() == self.deep_view(),
            r->Ok_0.write == write,
    {
        let _ = lock;
        Ok(Txn { records: records_dup(&self.records), write })
    }
}

/// What creating a record does to a snapshot: a duplicate id is refused,
/// anything else is appended.
pub open spec fn spec_create(
    rs: Seq<SpecRecord>,
    tb: Seq<char>,
    id: Seq<char>,
) -> (Result<SpecValue, crate::err::SpecError>, Seq<SpecRecord>) {
    if spec_has_record(rs, tb, id) {
        (Err(crate::err::SpecError::RecordExists { tb: tb, id: id }), rs)
    } else {
        (Ok(SpecValue::Thing { tb: tb, id: id }), rs.push(SpecRecord { tb: tb, id: id }))
    }
}

/// The records of one table, in insertion order, as record-pointer values.
pub open spec fn spec_select(rs: Seq<SpecRecord>, tb: Seq<char>) -> Seq<SpecValue>
    decreases rs.len(),
{
    if rs.len() == 0 {
        Seq::empty()
    } else if rs.last().tb == tb {
        spec_select(rs.drop_last(), tb).push(
            SpecValue::Thing { tb: rs.last().tb, id: rs.last().id },
        )
    } else {
        spec_select(rs.drop_last(), tb)
    }
}

impl Txn {
    /// Commits: installs this snapshot as the store's records.
    pub fn commit(self, store: &mut Store) -> (r: Result<(), Error>)
        ensures
            r is Ok,
            final(store).deep_view() == self.deep_view(),
    {
        store.records = self.records;
        Ok(())
    }

    /// Cancels: discards this snapshot.
    pub fn cancel(self) -> (r: Result<(), Error>)
        ensures
            r is Ok,
    {
        Ok(())
    }

    /// Whether the snapshot holds a record with this table and id.
    #[verifier::loop_isolation(false)]
    pub fn has_record(&self, tb: &str, id: &str) -> (r: bool)
        ensures
            r == spec_has_record(self.deep_view(), tb@, id@),
    {
        let mut i: usize = 0;
        while i < self.records.len()
            invariant
                i <= self.records@.len(),
                forall|j: int| 0 <= j < i
                    ==> !(self.deep_view()[j].tb == tb@ && self.deep_view()[j].id == id@),
            decreases self.records@.len() - i,
        {
            if crate::strutil::str_eq(self.records[i].tb.as_str(), tb)
                && crate::strutil::str_eq(self.records[i].id.as_str(), id) {
                proof {
                    let rs = self.deep_view();
                    assert(rs[i as int].tb == tb@ && rs[i as int].id == id@);
                }
                return true;
            }
            i = i + 1;
        }
        false
    }

    /// Creates the record `tb:id`, refusing a duplicate id.
    pub fn create(&mut self, tb: &str, id: &str) -> (r: Result<Value, Error>)
        ensures
            ({
                let (sr, srs) = spec_create(old(self).deep_view(), tb@, id@);
                &&& final(self).deep_view() == srs
                &&& final(self).write == old(self).write
                &&& (r is Ok <==> sr is Ok)
                &&& (r is Ok ==> r->Ok_0.deep_view() == sr->Ok_0)
                &&& (r is Err ==> r->Err_0.deep_view() == sr->Err_0)
            }),
    {
        if self.has_record(tb, id) {
            Err(Error::RecordExists {
                tb: String::from_str(tb),
                id: String::from_str(id),
            })
        } else {
            self.records.push(Record { tb: String::from_str(tb), id: String::from_str(id) });
            assert(self.deep_view() =~= old(self).deep_view().push(
                SpecRecord { tb: tb@, id: id@ },
            ));
            Ok(Value::Thing { tb: String::from_str(tb), id: String::from_str(id) })
        }
    }

    /// Every record of table `tb`, in insertion order.
    #[verifier::loop_isolation(false)]
    pub fn select_all(&self, tb: &str) -> (r: Vec<Value>)
        ensures
            crate::value::arr_view(r@) == spec_select(self.deep_view(), tb@),
    {
        let mut out: Vec<Value> = Vec::new();
        let mut i: usize = 0;
        while i < self.records.len()
            invariant
                i <= self.records@.len(),
                crate::value::arr_view(out@) == spec_select(
                    self.deep_view().take(i as int),
                    tb@,
                ),
            decreases self.records@.len() - i,
        {
            let ghost pre = out@;
            if crate::strutil::str_eq(self.records[i].tb.as_str(), tb) {
                out.push(Value::Thing {
                    tb: self.records[i].tb.clone(),
                    id: self.records[i].id.clone(),
                });
            }
            proof {
                let rs = self.deep_view();
                assert(rs.take(i + 1 as int).drop_last() =~= rs.take(i as int));
                assert(rs.take(i + 1 as int).last() == rs[i as int]);
                assert(crate::value::arr_view(out@) =~= spec_select(rs.take(i + 1 as int), tb@));
            }
            i = i + 1;
        }
        proof {
            assert(self.deep_view().take(self.records@.len() as int) =~= self.deep_view());
        }
        out
    }
}

} // verus!
