//! The version table: one record per imported kernel symbol, keyed by the
//! symbol's name, with the checksum the module was built against and the
//! absolute offset of the record inside the module image.

use vstd::prelude::*;

verus! {

/// One entry of a module's version table: the symbol's name (the raw bytes of
/// the fixed-width name field, truncated at the first zero byte), the 64-bit
/// checksum, and the absolute byte offset of the record (that is, of its
/// checksum field) within the module image it was decoded from.
#[derive(Debug)]
pub struct VersionRecord {
    pub name: Vec<u8>,
    pub crc: u64,
    pub offset: usize,
}

/// All records of one module's version table, in the order they appear in the
/// `__versions` section.
#[derive(Debug)]
pub struct VersionTable {
    pub records: Vec<VersionRecord>,
}

/// The record under `name`, if any. When several records carry the same name
/// the latest one wins, mirroring how repeated insertions into a name-keyed
/// map would leave only the last entry visible.
pub open spec fn lookup(records: Seq<VersionRecord>, name: Seq<u8>) -> Option<VersionRecord>
    decreases records.len(),
{
    if records.len() == 0 {
        None
    } else if records.last().name@ == name {
        Some(records.last())
    } else {
        lookup(records.drop_last(), name)
    }
}

/// A successful lookup hands back one of the table's own records, under the
/// name that was asked for.
pub proof fn lemma_lookup_found(records: Seq<VersionRecord>, name: Seq<u8>)
    requires
        lookup(records, name) is Some,
    ensures
        exists|i: int|
            0 <= i < records.len() && records[i] == lookup(records, name).unwrap(),
        lookup(records, name).unwrap().name@ == name,
    decreases records.len(),
{
    if records.last().name@ == name {
        assert(records[records.len() - 1] == records.last());
    } else {
        lemma_lookup_found(records.drop_last(), name);
        let i = choose|i: int|
            0 <= i < records.drop_last().len() && records.drop_last()[i] == lookup(
                records.drop_last(),
                name,
            ).unwrap();
        assert(records[i] == records.drop_last()[i]);
    }
}

/// Every record's 64 bytes lie inside a buffer of length `buf_len`.
pub open spec fn table_in_bounds(records: Seq<VersionRecord>, buf_len: int) -> bool {
    forall|i: int| 0 <= i < records.len() ==> #[trigger] records[i].offset + 64 <= buf_len
}

/// True when `a` and `b` hold the same bytes.
pub fn bytes_eq(a: &[u8], b: &[u8]) -> (r: bool)
    ensures
        r == (a@ == b@),
{
    if a.len() != b.len() {
        assert(a@.len() != b@.len());
        return false;
    }
    let n = a.len();
    for i in 0..n
        invariant
            n == a@.len() == b@.len(),
            forall|j: int| 0 <= j < i ==> a@[j] == b@[j],
    {
        if a[i] != b[i] {
            assert(a@ != b@);
            return false;
        }
    }
    assert(a@ =~= b@);
    true
}

impl VersionTable {
    /// Looks the symbol `name` up, returning its checksum and record offset.
    /// Scans backwards so that of several records with one name the latest
    /// wins, as `lookup` specifies.
    pub fn get(&self, name: &[u8]) -> (r: Option<(u64, usize)>)
        ensures
            match r {
                Some(p) => {
                    &&& lookup(self.records@, name@) matches Some(rec)
                    &&& lookup(self.records@, name@).unwrap().crc == p.0
                    &&& lookup(self.records@, name@).unwrap().offset == p.1
                },
                None => lookup(self.records@, name@) is None,
            },
    {
        let mut i = self.records.len();
        assert(self.records@.subrange(0, i as int) =~= self.records@);
        while i > 0
            invariant
                i <= self.records@.len(),
                lookup(self.records@, name@) == lookup(
                    self.records@.subrange(0, i as int),
                    name@,
                ),
            decreases i,
        {
            i = i - 1;
            let rec = &self.records[i];
            assert(self.records@.subrange(0, i + 1).last() == self.records@[i as int]);
            assert(self.records@.subrange(0, i + 1).drop_last() =~= self.records@.subrange(
                0,
                i as int,
            ));
            if bytes_eq(rec.name.as_slice(), name) {
                return Some((rec.crc, rec.offset));
            }
        }
        assert(self.records@.subrange(0, 0).len() == 0);
        None
    }

    /// True when every record of the table lies wholly inside a buffer of
    /// length `buf_len`; the patch engine requires this of its target table.
    pub fn in_bounds_of(&self, buf_len: usize) -> (r: bool)
        ensures
            r == table_in_bounds(self.records@, buf_len as int),
    {
        let n = self.records.len();
        for i in 0..n
            invariant
                n == self.records@.len(),
                forall|j: int| 0 <= j < i ==> #[trigger] self.records@[j].offset + 64
                    <= buf_len,
        {
            let rec = &self.records[i];
            if rec.offset > usize::MAX - 64 || rec.offset + 64 > buf_len {
                return false;
            }
        }
        true
    }
}

} // verus!
