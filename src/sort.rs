use crate::error::SynthesisError;
use vstd::prelude::*;

verus! {

/// Whether a sequence never decreases.
pub open spec fn non_decreasing(s: Seq<u64>) -> bool {
    forall|i: int, j: int| 0 <= i < j < s.len() ==> s[i] <= s[j]
}

/// Whether `b` holds the values of `a`, each as often.
pub open spec fn is_permutation(a: Seq<u64>, b: Seq<u64>) -> bool {
    a.to_multiset() == b.to_multiset()
}

/// Whether a sequence never decreases.
pub fn is_non_decreasing(s: &[u64]) -> (r: bool)
    ensures
        r == non_decreasing(s@),
{
    let mut i: usize = 1;
    while i < s.len()
        invariant
            1 <= i,
            forall|j: int, k: int| 0 <= j < k < i && k < s@.len() ==> s@[j] <= s@[k],
        decreases s@.len() - i,
    {
        if s[i] < s[i - 1] {
            return false;
        }
        i = i + 1;
    }
    true
}

/// Relies on `slice::sort`: sorts in ascending order, keeping the values.
#[verifier::external_body]
fn sort_in_place(v: &mut Vec<u64>)
    ensures
        non_decreasing(final(v)@),
        is_permutation(old(v)@, final(v)@),
{
    v.sort();
}

/// The values of a slice, in a vector of their own.
pub fn copy_values(a: &[u64]) -> (r: Vec<u64>)
    ensures
        r@ == a@,
{
    let mut r: Vec<u64> = Vec::new();
    let mut i: usize = 0;
    while i < a.len()
        invariant
            i <= a@.len(),
            r@ == a@.subrange(0, i as int),
        decreases a@.len() - i,
    {
        r.push(a[i]);
        i = i + 1;
    }
    assert(r@ =~= a@);
    r
}

/// A non-decreasing copy of `a` holding the same values.
pub fn sorted_copy(a: &[u64]) -> (r: Vec<u64>)
    ensures
        non_decreasing(r@),
        is_permutation(a@, r@),
{
    let mut r = copy_values(a);
    sort_in_place(&mut r);
    r
}

proof fn lemma_last_is_max(s: Seq<u64>, x: u64)
    requires
        non_decreasing(s),
        s.len() > 0,
        s.to_multiset().count(x) > 0,
    ensures
        x <= s.last(),
{
    s.to_multiset_ensures();
    assert(s.contains(x));
    let j = choose|j: int| 0 <= j < s.len() && s[j] == x;
    assert(j == s.len() - 1 || s[j] <= s[s.len() - 1]);
}

/// Two non-decreasing sequences are permutations of each other exactly when
/// they are equal element by element.
pub proof fn lemma_sorted_permutation_unique(a: Seq<u64>, b: Seq<u64>)
    requires
        non_decreasing(a),
        non_decreasing(b),
    ensures
        is_permutation(a, b) <==> a == b,
    decreases a.len(),
{
    if is_permutation(a, b) {
        a.to_multiset_ensures();
        b.to_multiset_ensures();
        if a.len() == 0 {
            assert(b.len() == a.to_multiset().len());
            assert(b =~= a);
        } else {
            assert(b.len() == a.len());
            let x = a.last();
            let y = b.last();
            assert(a.to_multiset().count(x) > 0) by {
                assert(a.contains(x));
            }
            assert(b.to_multiset().count(y) > 0) by {
                assert(b.contains(y));
            }
            lemma_last_is_max(b, x);
            lemma_last_is_max(a, y);
            assert(x == y);
            let a0 = a.drop_last();
            let b0 = b.drop_last();
            assert(a =~= a0.push(x));
            assert(b =~= b0.push(y));
            a0.to_multiset_ensures();
            b0.to_multiset_ensures();
            assert(a0.to_multiset() =~= a.to_multiset().remove(x));
            assert(b0.to_multiset() =~= b.to_multiset().remove(y));
            lemma_sorted_permutation_unique(a0, b0);
            assert(a =~= b);
        }
    }
}

/// Witness of the sort gate.
pub struct SortWitness {
    /// `b[i+1] - b[i]` for each adjacent pair of the sorted output.
    pub diffs: Vec<u64>,
}

/// Whether the sort gate accepts `b` as the sorted form of `a`.
pub open spec fn sort_accepts(a: Seq<u64>, b: Seq<u64>) -> bool {
    a.len() == b.len() && non_decreasing(b) && is_permutation(a, b)
}

/// A non-decreasing permutation of `a` (what `sorted_copy` returns) is
/// accepted by the sort gate as the sorted form of `a`.
pub proof fn lemma_sorted_permutation_accepted(a: Seq<u64>, b: Seq<u64>)
    requires
        non_decreasing(b),
        is_permutation(a, b),
    ensures
        sort_accepts(a, b),
{
    a.to_multiset_ensures();
    b.to_multiset_ensures();
}

/// Checks a claimed sorted output against its input and computes the
/// differences that the range checks prove non-negative.
pub fn sort_witness(input: &[u64], sorted: &[u64]) -> (res: Result<SortWitness, SynthesisError>)
    ensures
        res is Ok <==> sort_accepts(input@, sorted@),
        input@.len() != sorted@.len() ==> res == Err::<SortWitness, SynthesisError>(SynthesisError::LengthMismatch),
        input@.len() == sorted@.len() && !non_decreasing(sorted@) ==> res == Err::<SortWitness, SynthesisError>(SynthesisError::NotSorted),
        input@.len() == sorted@.len() && non_decreasing(sorted@) && !is_permutation(input@, sorted@)
            ==> res == Err::<SortWitness, SynthesisError>(SynthesisError::NotPermutation),
        res matches Ok(w) ==> w.diffs@.len() == (if sorted@.len() == 0 { 0 } else { sorted@.len() - 1 }),
        res matches Ok(w) ==> forall|i: int| 0 <= i < w.diffs@.len() ==> #[trigger] w.diffs@[i] == sorted@[i + 1] - sorted@[i],
{
    if input.len() != sorted.len() {
        return Err(SynthesisError::LengthMismatch);
    }
    let n = sorted.len();
    let mut diffs: Vec<u64> = Vec::new();
    let mut i: usize = 1;
    while i < n
        invariant
            n == sorted@.len(),
            input@.len() == n,
            1 <= i,
            i <= n || (n == 0 && i == 1),
            diffs@.len() == i - 1,
            forall|j: int, k: int| 0 <= j < k < i && k < n ==> sorted@[j] <= sorted@[k],
            forall|j: int| 0 <= j < diffs@.len() ==> #[trigger] diffs@[j] == sorted@[j + 1] - sorted@[j],
        decreases n - i,
    {
        if sorted[i] < sorted[i - 1] {
            return Err(SynthesisError::NotSorted);
        }
        diffs.push(sorted[i] - sorted[i - 1]);
        i = i + 1;
    }
    assert(non_decreasing(sorted@));
    let reference = sorted_copy(input);
    proof {
        input@.to_multiset_ensures();
        reference@.to_multiset_ensures();
        lemma_sorted_permutation_unique(reference@, sorted@);
        assert(is_permutation(input@, sorted@) <==> is_permutation(reference@, sorted@));
    }
    let mut j: usize = 0;
    while j < n
        invariant
            n == sorted@.len(),
            input@.len() == n,
            non_decreasing(sorted@),
            reference@.len() == n,
            is_permutation(input@, sorted@) <==> reference@ == sorted@,
            diffs@.len() == (if n == 0 { 0 } else { n - 1 }),
            forall|k: int| 0 <= k < diffs@.len() ==> #[trigger] diffs@[k] == sorted@[k + 1] - sorted@[k],
            j <= n,
            forall|k: int| 0 <= k < j ==> reference@[k] == sorted@[k],
        decreases n - j,
    {
        if reference[j] != sorted[j] {
            return Err(SynthesisError::NotPermutation);
        }
        j = j + 1;
    }
    assert(reference@ =~= sorted@);
    Ok(SortWitness { diffs })
}

} // verus!

verus! {

/// The order of `(u64, u64)` pairs that std's tuple ordering documents:
/// by the first component, then by the second.
pub open spec fn pair_le(a: (u64, u64), b: (u64, u64)) -> bool {
    a.0 < b.0 || (a.0 == b.0 && a.1 <= b.1)
}

/// Whether a sequence of pairs is in ascending tuple order.
pub open spec fn pairs_sorted(s: Seq<(u64, u64)>) -> bool {
    forall|i: int, j: int| 0 <= i < j < s.len() ==> pair_le(s[i], s[j])
}

/// The pairs `(a[i], b[i])`, row by row.
pub open spec fn pairs_of(a: Seq<u64>, b: Seq<u64>) -> Seq<(u64, u64)> {
    Seq::new(a.len(), |i: int| (a[i], b[i]))
}

/// Relies on `slice::sort` over `(u64, u64)`: ascending tuple order, which
/// is lexicographic, keeping the pairs.
#[verifier::external_body]
fn sort_pairs_in_place(v: &mut Vec<(u64, u64)>)
    ensures
        pairs_sorted(final(v)@),
        final(v)@.to_multiset() == old(v)@.to_multiset(),
{
    v.sort();
}

/// Sorts rows `(keys[i], values[i])` by key, carrying each value with its
/// key: the keys come out non-decreasing and the rows are kept.
pub fn sort_rows_by_key(keys: &[u64], values: &[u64]) -> (r: (Vec<u64>, Vec<u64>))
    requires
        keys@.len() == values@.len(),
    ensures
        r.0@.len() == keys@.len(),
        r.1@.len() == keys@.len(),
        non_decreasing(r.0@),
        pairs_of(r.0@, r.1@).to_multiset() == pairs_of(keys@, values@).to_multiset(),
{
    let n = keys.len();
    let mut rows: Vec<(u64, u64)> = Vec::new();
    let mut i: usize = 0;
    while i < n
        invariant
            n == keys@.len(),
            n == values@.len(),
            i <= n,
            rows@ == pairs_of(keys@, values@).subrange(0, i as int),
        decreases n - i,
    {
        rows.push((keys[i], values[i]));
        i = i + 1;
        assert(rows@ =~= pairs_of(keys@, values@).subrange(0, i as int));
    }
    assert(rows@ =~= pairs_of(keys@, values@));
    let ghost before = rows@;
    sort_pairs_in_place(&mut rows);
    proof {
        before.to_multiset_ensures();
        rows@.to_multiset_ensures();
    }
    let mut sorted_keys: Vec<u64> = Vec::new();
    let mut carried: Vec<u64> = Vec::new();
    let mut k: usize = 0;
    while k < rows.len()
        invariant
            k <= rows@.len(),
            rows@.len() == n,
            sorted_keys@.len() == k,
            carried@.len() == k,
            forall|j: int| 0 <= j < k ==> #[trigger] sorted_keys@[j] == rows@[j].0 && carried@[j] == rows@[j].1,
        decreases rows@.len() - k,
    {
        let (a, b) = rows[k];
        sorted_keys.push(a);
        carried.push(b);
        k = k + 1;
    }
    assert(pairs_of(sorted_keys@, carried@) =~= rows@);
    assert forall|x: int, y: int| 0 <= x < y < sorted_keys@.len() implies sorted_keys@[x] <= sorted_keys@[y] by {
        assert(pair_le(rows@[x], rows@[y]));
    }
    (sorted_keys, carried)
}

} // verus!
