use crate::sort::{non_decreasing, pairs_of, sort_rows_by_key};
use vstd::prelude::*;

verus! {

/// What is left of `n` rows from index `i` on.
pub open spec fn rows_left(n: nat, i: int) -> nat {
    if i < n { (n - i) as nat } else { 0 }
}

/// The alignment of two sorted key columns from positions `i` and `j` on,
/// as a merge: each row holds an index into `a` and an index into `b`, or
/// `-1` for a side that has no record on that row. Equal keys share a row;
/// otherwise the smaller key stands alone.
pub open spec fn align_from(a: Seq<u64>, b: Seq<u64>, i: int, j: int) -> Seq<(int, int)>
    decreases rows_left(a.len(), i) + rows_left(b.len(), j),
{
    if 0 <= i < a.len() && 0 <= j < b.len() {
        if a[i] == b[j] {
            seq![(i, j)] + align_from(a, b, i + 1, j + 1)
        } else if a[i] < b[j] {
            seq![(i, -1int)] + align_from(a, b, i + 1, j)
        } else {
            seq![(-1int, j)] + align_from(a, b, i, j + 1)
        }
    } else if 0 <= i < a.len() {
        seq![(i, -1int)] + align_from(a, b, i + 1, j)
    } else if 0 <= j < b.len() {
        seq![(-1int, j)] + align_from(a, b, i, j + 1)
    } else {
        Seq::empty()
    }
}

/// The alignment of two sorted key columns.
pub open spec fn align(a: Seq<u64>, b: Seq<u64>) -> Seq<(int, int)> {
    align_from(a, b, 0, 0)
}

/// Whether an aligned row has a record on both sides.
pub open spec fn pairs_both(st: (int, int)) -> bool {
    st.0 >= 0 && st.1 >= 0
}

/// The cells `(key1, value1, key2, value2)` of an aligned row; a side with
/// no record reads as zeros.
pub open spec fn row_of(k1: Seq<u64>, v1: Seq<u64>, k2: Seq<u64>, v2: Seq<u64>, st: (int, int)) -> (u64, u64, u64, u64) {
    (
        if st.0 >= 0 { k1[st.0] } else { 0 },
        if st.0 >= 0 { v1[st.0] } else { 0 },
        if st.1 >= 0 { k2[st.1] } else { 0 },
        if st.1 >= 0 { v2[st.1] } else { 0 },
    )
}

/// The keys of `a` that do not occur in `b`, in the order of `a`.
pub open spec fn keys_missing(a: Seq<u64>, b: Seq<u64>) -> Seq<u64>
    decreases a.len(),
{
    if a.len() == 0 {
        Seq::empty()
    } else {
        let prev = keys_missing(a.drop_last(), b);
        if b.contains(a.last()) {
            prev
        } else {
            prev.push(a.last())
        }
    }
}

proof fn lemma_align_from(a: Seq<u64>, b: Seq<u64>, i: int, j: int)
    requires
        0 <= i <= a.len(),
        0 <= j <= b.len(),
    ensures
        forall|r: int| 0 <= r < align_from(a, b, i, j).len() ==> {
            let st = #[trigger] align_from(a, b, i, j)[r];
            &&& -1 <= st.0 < a.len()
            &&& -1 <= st.1 < b.len()
            &&& st.0 >= 0 || st.1 >= 0
            &&& pairs_both(st) ==> a[st.0] == b[st.1]
        },
    decreases rows_left(a.len(), i) + rows_left(b.len(), j),
{
    let al = align_from(a, b, i, j);
    if i < a.len() && j < b.len() {
        if a[i] == b[j] {
            lemma_align_from(a, b, i + 1, j + 1);
            let rest = align_from(a, b, i + 1, j + 1);
            assert forall|r: int| 0 <= r < al.len() implies {
                let st = #[trigger] al[r];
                &&& -1 <= st.0 < a.len()
                &&& -1 <= st.1 < b.len()
                &&& st.0 >= 0 || st.1 >= 0
                &&& pairs_both(st) ==> a[st.0] == b[st.1]
            } by {
                if r > 0 {
                    assert(al[r] == rest[r - 1]);
                }
            }
        } else if a[i] < b[j] {
            lemma_align_from(a, b, i + 1, j);
            let rest = align_from(a, b, i + 1, j);
            assert forall|r: int| 0 <= r < al.len() implies {
                let st = #[trigger] al[r];
                &&& -1 <= st.0 < a.len()
                &&& -1 <= st.1 < b.len()
                &&& st.0 >= 0 || st.1 >= 0
                &&& pairs_both(st) ==> a[st.0] == b[st.1]
            } by {
                if r > 0 {
                    assert(al[r] == rest[r - 1]);
                }
            }
        } else {
            lemma_align_from(a, b, i, j + 1);
            let rest = align_from(a, b, i, j + 1);
            assert forall|r: int| 0 <= r < al.len() implies {
                let st = #[trigger] al[r];
                &&& -1 <= st.0 < a.len()
                &&& -1 <= st.1 < b.len()
                &&& st.0 >= 0 || st.1 >= 0
                &&& pairs_both(st) ==> a[st.0] == b[st.1]
            } by {
                if r > 0 {
                    assert(al[r] == rest[r - 1]);
                }
            }
        }
    } else if i < a.len() {
        lemma_align_from(a, b, i + 1, j);
        let rest = align_from(a, b, i + 1, j);
        assert forall|r: int| 0 <= r < al.len() implies {
            let st = #[trigger] al[r];
            &&& -1 <= st.0 < a.len()
            &&& -1 <= st.1 < b.len()
            &&& st.0 >= 0 || st.1 >= 0
            &&& pairs_both(st) ==> a[st.0] == b[st.1]
        } by {
            if r > 0 {
                assert(al[r] == rest[r - 1]);
            }
        }
    } else if j < b.len() {
        lemma_align_from(a, b, i, j + 1);
        let rest = align_from(a, b, i, j + 1);
        assert forall|r: int| 0 <= r < al.len() implies {
            let st = #[trigger] al[r];
            &&& -1 <= st.0 < a.len()
            &&& -1 <= st.1 < b.len()
            &&& st.0 >= 0 || st.1 >= 0
            &&& pairs_both(st) ==> a[st.0] == b[st.1]
        } by {
            if r > 0 {
                assert(al[r] == rest[r - 1]);
            }
        }
    }
}

/// Every row of an alignment holds a record of at least one side, and a row
/// that holds records of both sides pairs two equal keys.
pub proof fn lemma_aligned_rows_pair_equal_keys(a: Seq<u64>, b: Seq<u64>)
    ensures
        forall|r: int| 0 <= r < align(a, b).len() ==> {
            let st = #[trigger] align(a, b)[r];
            &&& -1 <= st.0 < a.len()
            &&& -1 <= st.1 < b.len()
            &&& st.0 >= 0 || st.1 >= 0
            &&& pairs_both(st) ==> a[st.0] == b[st.1]
        },
{
    lemma_align_from(a, b, 0, 0);
}

/// The residue of `a` against `b` holds exactly the keys of `a` that `b`
/// lacks, so it is disjoint from `b`.
pub proof fn lemma_residue_disjoint(a: Seq<u64>, b: Seq<u64>)
    ensures
        forall|x: u64| #[trigger] keys_missing(a, b).contains(x) <==> (a.contains(x) && !b.contains(x)),
    decreases a.len(),
{
    if a.len() > 0 {
        lemma_residue_disjoint(a.drop_last(), b);
        let prev = keys_missing(a.drop_last(), b);
        assert forall|x: u64| #[trigger] keys_missing(a, b).contains(x) <==> (a.contains(x) && !b.contains(x)) by {
            if a.contains(x) {
                let k = choose|k: int| 0 <= k < a.len() && a[k] == x;
                if k < a.len() - 1 {
                    assert(a.drop_last()[k] == x);
                }
            }
            if a.drop_last().contains(x) {
                let k = choose|k: int| 0 <= k < a.drop_last().len() && a.drop_last()[k] == x;
                assert(a[k] == x);
            }
            if !b.contains(a.last()) {
                assert(keys_missing(a, b) == prev.push(a.last()));
                if prev.push(a.last()).contains(x) {
                    let k = choose|k: int| 0 <= k < prev.len() + 1 && prev.push(a.last())[k] == x;
                    if k < prev.len() {
                        assert(prev[k] == x);
                    }
                }
                if prev.contains(x) {
                    let k = choose|k: int| 0 <= k < prev.len() && prev[k] == x;
                    assert(prev.push(a.last())[k] == x);
                }
                assert(prev.push(a.last())[prev.len() as int] == a.last());
            }
        }
    }
}

/// Witness of the join gate.
pub struct JoinWitness {
    /// The first table's keys, sorted.
    pub sorted_keys1: Vec<u64>,
    /// The first table's values, carried with their keys.
    pub sorted_values1: Vec<u64>,
    /// The second table's keys, sorted.
    pub sorted_keys2: Vec<u64>,
    /// The second table's values, carried with their keys.
    pub sorted_values2: Vec<u64>,
    /// Per aligned row, `(key1, value1, key2, value2)`; a side with no
    /// record on the row reads as zeros.
    pub rows: Vec<(u64, u64, u64, u64)>,
    /// Per row, 1 when it pairs a record of each table, else 0.
    pub matches: Vec<u64>,
    /// Per row, whether it pairs a record of each table, so that the
    /// equality constraint is enabled.
    pub enabled: Vec<bool>,
    /// The first table's keys that the second table lacks, in sorted order.
    pub residue1: Vec<u64>,
    /// The second table's keys that the first table lacks, in sorted order.
    pub residue2: Vec<u64>,
}

/// Whether `w` is the join witness of the given key and value columns.
pub open spec fn join_witness_of(w: JoinWitness, k1: Seq<u64>, v1: Seq<u64>, k2: Seq<u64>, v2: Seq<u64>) -> bool {
    let s1 = w.sorted_keys1@;
    let s2 = w.sorted_keys2@;
    let al = align(s1, s2);
    &&& s1.len() == k1.len() && w.sorted_values1@.len() == k1.len() && non_decreasing(s1)
    &&& pairs_of(s1, w.sorted_values1@).to_multiset() == pairs_of(k1, v1).to_multiset()
    &&& s2.len() == k2.len() && w.sorted_values2@.len() == k2.len() && non_decreasing(s2)
    &&& pairs_of(s2, w.sorted_values2@).to_multiset() == pairs_of(k2, v2).to_multiset()
    &&& w.rows@.len() == al.len() && w.matches@.len() == al.len() && w.enabled@.len() == al.len()
    &&& forall|r: int| 0 <= r < al.len() ==> #[trigger] w.rows@[r] == row_of(s1, w.sorted_values1@, s2, w.sorted_values2@, al[r])
    &&& forall|r: int| 0 <= r < al.len() ==> (#[trigger] w.enabled@[r] <==> pairs_both(al[r]))
    &&& forall|r: int| 0 <= r < al.len() ==> #[trigger] w.matches@[r] == (if pairs_both(al[r]) { 1u64 } else { 0u64 })
    &&& w.residue1@ == keys_missing(s1, s2)
    &&& w.residue2@ == keys_missing(s2, s1)
}

proof fn lemma_same_keys(k: Seq<u64>, v: Seq<u64>, s: Seq<u64>, sv: Seq<u64>, x: u64)
    requires
        k.len() == v.len(),
        s.len() == sv.len(),
        pairs_of(s, sv).to_multiset() == pairs_of(k, v).to_multiset(),
    ensures
        k.contains(x) <==> s.contains(x),
{
    pairs_of(s, sv).to_multiset_ensures();
    pairs_of(k, v).to_multiset_ensures();
    if k.contains(x) {
        let m = choose|m: int| 0 <= m < k.len() && k[m] == x;
        let p = pairs_of(k, v)[m];
        assert(pairs_of(k, v).contains(p));
        assert(pairs_of(k, v).to_multiset().count(p) > 0);
        assert(pairs_of(s, sv).to_multiset().count(p) > 0);
        assert(pairs_of(s, sv).contains(p));
        let q = choose|q: int| 0 <= q < s.len() && pairs_of(s, sv)[q] == p;
        assert(s[q] == x);
    }
    if s.contains(x) {
        let m = choose|m: int| 0 <= m < s.len() && s[m] == x;
        let p = pairs_of(s, sv)[m];
        assert(pairs_of(s, sv).contains(p));
        assert(pairs_of(s, sv).to_multiset().count(p) > 0);
        assert(pairs_of(k, v).to_multiset().count(p) > 0);
        assert(pairs_of(k, v).contains(p));
        let q = choose|q: int| 0 <= q < k.len() && pairs_of(k, v)[q] == p;
        assert(k[q] == x);
    }
}

/// In a join witness, a row's flag is 1 exactly when it pairs a record of
/// each table, and those two records have equal keys; each residue holds
/// exactly the keys of its table that the other table lacks, so it is
/// disjoint from the other table.
pub proof fn lemma_join_witness_laws(w: JoinWitness, k1: Seq<u64>, v1: Seq<u64>, k2: Seq<u64>, v2: Seq<u64>)
    requires
        k1.len() == v1.len(),
        k2.len() == v2.len(),
        join_witness_of(w, k1, v1, k2, v2),
    ensures
        forall|r: int| 0 <= r < w.rows@.len() ==> (#[trigger] w.matches@[r] == 1 <==> w.enabled@[r]),
        forall|r: int| 0 <= r < w.rows@.len() && w.enabled@[r] ==> (#[trigger] w.rows@[r]).0 == w.rows@[r].2,
        forall|x: u64| #[trigger] w.residue1@.contains(x) <==> (k1.contains(x) && !k2.contains(x)),
        forall|x: u64| #[trigger] w.residue2@.contains(x) <==> (k2.contains(x) && !k1.contains(x)),
{
    let s1 = w.sorted_keys1@;
    let s2 = w.sorted_keys2@;
    lemma_aligned_rows_pair_equal_keys(s1, s2);
    lemma_residue_disjoint(s1, s2);
    lemma_residue_disjoint(s2, s1);
    assert forall|r: int| 0 <= r < w.rows@.len() && w.enabled@[r] implies (#[trigger] w.rows@[r]).0 == w.rows@[r].2 by {
        let st = align(s1, s2)[r];
        assert(pairs_both(st));
    }
    assert forall|x: u64| #[trigger] w.residue1@.contains(x) <==> (k1.contains(x) && !k2.contains(x)) by {
        lemma_same_keys(k1, v1, s1, w.sorted_values1@, x);
        lemma_same_keys(k2, v2, s2, w.sorted_values2@, x);
    }
    assert forall|x: u64| #[trigger] w.residue2@.contains(x) <==> (k2.contains(x) && !k1.contains(x)) by {
        lemma_same_keys(k1, v1, s1, w.sorted_values1@, x);
        lemma_same_keys(k2, v2, s2, w.sorted_values2@, x);
    }
}

/// Whether `x` occurs in `b`.
fn holds_value(b: &[u64], x: u64) -> (r: bool)
    ensures
        r == b@.contains(x),
{
    let mut i: usize = 0;
    while i < b.len()
        invariant
            i <= b@.len(),
            forall|k: int| 0 <= k < i ==> b@[k] != x,
        decreases b@.len() - i,
    {
        if b[i] == x {
            assert(b@[i as int] == x);
            return true;
        }
        i = i + 1;
    }
    false
}

/// The keys of `a` that do not occur in `b`, in the order of `a`.
pub fn missing_keys(a: &[u64], b: &[u64]) -> (r: Vec<u64>)
    ensures
        r@ == keys_missing(a@, b@),
{
    let mut r: Vec<u64> = Vec::new();
    let mut i: usize = 0;
    while i < a.len()
        invariant
            i <= a@.len(),
            r@ == keys_missing(a@.subrange(0, i as int), b@),
        decreases a@.len() - i,
    {
        proof {
            assert(a@.subrange(0, i + 1).drop_last() =~= a@.subrange(0, i as int));
        }
        if !holds_value(b, a[i]) {
            r.push(a[i]);
        }
        i = i + 1;
    }
    assert(a@.subrange(0, a@.len() as int) =~= a@);
    r
}

/// Sorts both tables by key and aligns equal keys on one row, as a merge;
/// computes the per-row match flags and the keys of each side that the
/// other side lacks.
pub fn join_witness(table1_keys: &[u64], table1_values: &[u64], table2_keys: &[u64], table2_values: &[u64]) -> (w: JoinWitness)
    requires
        table1_keys@.len() == table1_values@.len(),
        table2_keys@.len() == table2_values@.len(),
    ensures
        join_witness_of(w, table1_keys@, table1_values@, table2_keys@, table2_values@),
{
    let (s1, sv1) = sort_rows_by_key(table1_keys, table1_values);
    let (s2, sv2) = sort_rows_by_key(table2_keys, table2_values);
    let ghost al = align(s1@, s2@);
    let n1 = s1.len();
    let n2 = s2.len();
    let mut rows: Vec<(u64, u64, u64, u64)> = Vec::new();
    let mut matches: Vec<u64> = Vec::new();
    let mut enabled: Vec<bool> = Vec::new();
    let ghost mut steps: Seq<(int, int)> = Seq::empty();
    let mut i: usize = 0;
    let mut j: usize = 0;
    while i < n1 || j < n2
        invariant
            n1 == s1@.len(),
            n2 == s2@.len(),
            sv1@.len() == n1,
            sv2@.len() == n2,
            i <= n1,
            j <= n2,
            al == align(s1@, s2@),
            steps + align_from(s1@, s2@, i as int, j as int) == al,
            rows@.len() == steps.len() && matches@.len() == steps.len() && enabled@.len() == steps.len(),
            forall|r: int| 0 <= r < steps.len() ==> #[trigger] rows@[r] == row_of(s1@, sv1@, s2@, sv2@, steps[r]),
            forall|r: int| 0 <= r < steps.len() ==> (#[trigger] enabled@[r] <==> pairs_both(steps[r])),
            forall|r: int| 0 <= r < steps.len() ==> #[trigger] matches@[r] == (if pairs_both(steps[r]) { 1u64 } else { 0u64 }),
        decreases (n1 - i) + (n2 - j),
    {
        let ghost rest = align_from(s1@, s2@, i as int, j as int);
        let take1: bool;
        let take2: bool;
        if i < n1 && j < n2 {
            take1 = s1[i] <= s2[j];
            take2 = s2[j] <= s1[i];
        } else {
            take1 = i < n1;
            take2 = j < n2;
        }
        let ghost st: (int, int) = (if take1 { i as int } else { -1 }, if take2 { j as int } else { -1 });
        let row = (
            if take1 { s1[i] } else { 0 },
            if take1 { sv1[i] } else { 0 },
            if take2 { s2[j] } else { 0 },
            if take2 { sv2[j] } else { 0 },
        );
        rows.push(row);
        matches.push(if take1 && take2 { 1 } else { 0 });
        enabled.push(take1 && take2);
        let ni: usize = if take1 { i + 1 } else { i };
        let nj: usize = if take2 { j + 1 } else { j };
        proof {
            assert(rest == seq![st] + align_from(s1@, s2@, ni as int, nj as int));
            let old_steps = steps;
            steps = steps.push(st);
            assert(steps + align_from(s1@, s2@, ni as int, nj as int) =~= old_steps + rest);
        }
        i = ni;
        j = nj;
    }
    proof {
        assert(steps =~= al);
    }
    let residue1 = missing_keys(s1.as_slice(), s2.as_slice());
    let residue2 = missing_keys(s2.as_slice(), s1.as_slice());
    JoinWitness {
        sorted_keys1: s1,
        sorted_values1: sv1,
        sorted_keys2: s2,
        sorted_values2: sv2,
        rows,
        matches,
        enabled,
        residue1,
        residue2,
    }
}

} // verus!
