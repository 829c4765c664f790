use vstd::prelude::*;

verus! {

/// The weight of a key in the linear commitment hash.
pub const KEY_WEIGHT: u128 = 1_000_000;

/// A table stored row by row.
#[derive(Clone, Debug)]
pub struct DatabaseTable {
    pub name: String,
    pub columns: Vec<String>,
    pub data: Vec<Vec<u64>>,
}

/// The key-value pairs a table commits to: the first two cells of each row
/// that has at least two.
pub open spec fn commit_pairs_of(rows: Seq<Vec<u64>>) -> Seq<(u64, u64)>
    decreases rows.len(),
{
    if rows.len() == 0 {
        Seq::empty()
    } else {
        let prev = commit_pairs_of(rows.drop_last());
        let row = rows.last()@;
        if row.len() >= 2 {
            prev.push((row[0], row[1]))
        } else {
            prev
        }
    }
}

/// The term that a key-value pair adds to the linear commitment hash.
pub open spec fn pair_term(p: (u64, u64)) -> int {
    p.0 * KEY_WEIGHT + p.1
}

impl DatabaseTable {
    /// An empty table with the given column names.
    pub fn new(name: String, columns: Vec<String>) -> (t: DatabaseTable)
        ensures
            t.name == name,
            t.columns == columns,
            t.data@.len() == 0,
    {
        DatabaseTable { name, columns, data: Vec::new() }
    }

    /// Appends a row when it has one value per column; otherwise leaves the
    /// table as it is.
    pub fn insert(&mut self, row: Vec<u64>)
        ensures
            final(self).name == old(self).name,
            final(self).columns == old(self).columns,
            row@.len() == old(self).columns@.len() ==> final(self).data@ == old(self).data@.push(row),
            row@.len() != old(self).columns@.len() ==> final(self).data@ == old(self).data@,
    {
        if row.len() == self.columns.len() {
            self.data.push(row);
        }
    }

    /// The key-value pairs the table commits to: the first column as key and
    /// the second as value, over the rows that have both.
    pub fn commit_pairs(&self) -> (pairs: Vec<(u64, u64)>)
        ensures
            pairs@ == commit_pairs_of(self.data@),
    {
        let mut pairs: Vec<(u64, u64)> = Vec::new();
        let mut i: usize = 0;
        while i < self.data.len()
            invariant
                i <= self.data@.len(),
                pairs@ == commit_pairs_of(self.data@.subrange(0, i as int)),
            decreases self.data@.len() - i,
        {
            proof {
                assert(self.data@.subrange(0, i + 1).drop_last() =~= self.data@.subrange(0, i as int));
            }
            let row = &self.data[i];
            if row.len() >= 2 {
                pairs.push((row[0], row[1]));
            }
            i = i + 1;
        }
        assert(self.data@.subrange(0, self.data@.len() as int) =~= self.data@);
        pairs
    }
}

/// The terms of the linear commitment hash, one per pair:
/// `key * 1_000_000 + value`. The hash is their sum in the field.
pub fn commitment_terms(data: &[(u64, u64)]) -> (terms: Vec<u128>)
    ensures
        terms@.len() == data@.len(),
        forall|i: int| 0 <= i < data@.len() ==> #[trigger] terms@[i] == pair_term(data@[i]),
{
    let mut terms: Vec<u128> = Vec::new();
    let mut i: usize = 0;
    while i < data.len()
        invariant
            i <= data@.len(),
            terms@.len() == i,
            forall|j: int| 0 <= j < i ==> #[trigger] terms@[j] == pair_term(data@[j]),
        decreases data@.len() - i,
    {
        let (key, value) = data[i];
        assert(key as u128 * KEY_WEIGHT + value as u128 <= 0xffff_ffff_ffff_ffff * 1_000_000 + 0xffff_ffff_ffff_ffff) by (nonlinear_arith)
            requires key <= 0xffff_ffff_ffff_ffff, value <= 0xffff_ffff_ffff_ffff;
        terms.push(key as u128 * KEY_WEIGHT + value as u128);
        i = i + 1;
    }
    terms
}

} // verus!
