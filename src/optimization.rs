use crate::ops::{GroupByOp, RangeCheckOp};
use vstd::prelude::*;

verus! {

/// Whether no range check before index `i` has the threshold and `u` of the
/// one at `i`.
pub open spec fn first_range_check(s: Seq<RangeCheckOp>, i: int) -> bool {
    forall|j: int| 0 <= j < i ==> !(s[j].threshold == s[i].threshold && s[j].u == s[i].u)
}

/// The range checks among the first `k` that are the first of their
/// threshold and `u`, in order.
pub open spec fn distinct_range_prefix(s: Seq<RangeCheckOp>, k: int) -> Seq<RangeCheckOp>
    decreases k,
{
    if k <= 0 {
        Seq::empty()
    } else if first_range_check(s, k - 1) {
        distinct_range_prefix(s, k - 1).push(s[k - 1])
    } else {
        distinct_range_prefix(s, k - 1)
    }
}

proof fn lemma_distinct_range_members(s: Seq<RangeCheckOp>, k: int, t: u64, u: u64)
    requires
        0 <= k <= s.len(),
    ensures
        (exists|m: int| 0 <= m < distinct_range_prefix(s, k).len() && #[trigger] distinct_range_prefix(s, k)[m].threshold == t
            && distinct_range_prefix(s, k)[m].u == u)
            <==> (exists|j: int| 0 <= j < k && #[trigger] s[j].threshold == t && s[j].u == u),
    decreases k,
{
    if k > 0 {
        lemma_distinct_range_members(s, k - 1, t, u);
        let prev = distinct_range_prefix(s, k - 1);
        let cur = distinct_range_prefix(s, k);
        if exists|j: int| 0 <= j < k && #[trigger] s[j].threshold == t && s[j].u == u {
            let j = choose|j: int| 0 <= j < k && #[trigger] s[j].threshold == t && s[j].u == u;
            if j < k - 1 {
                let m = choose|m: int| 0 <= m < prev.len() && #[trigger] prev[m].threshold == t && prev[m].u == u;
                assert(cur[m] == prev[m]);
            } else if first_range_check(s, k - 1) {
                assert(cur[prev.len() as int] == s[k - 1]);
            } else {
                let j2 = choose|j2: int| 0 <= j2 < k - 1 && #[trigger] s[j2].threshold == s[k - 1].threshold && s[j2].u == s[k - 1].u;
                assert(s[j2].threshold == t && s[j2].u == u);
                let m = choose|m: int| 0 <= m < prev.len() && #[trigger] prev[m].threshold == t && prev[m].u == u;
                assert(cur[m] == prev[m]);
            }
        }
        if exists|m: int| 0 <= m < cur.len() && #[trigger] cur[m].threshold == t && cur[m].u == u {
            let m = choose|m: int| 0 <= m < cur.len() && #[trigger] cur[m].threshold == t && cur[m].u == u;
            if m < prev.len() {
                assert(prev[m] == cur[m]);
            } else {
                assert(s[k - 1].threshold == t && s[k - 1].u == u);
            }
        }
    }
}

/// The range checks of `ops` without repeats: each is kept when no earlier
/// one has its threshold and `u`, and the order is kept.
pub fn distinct_range_checks(ops: &Vec<RangeCheckOp>) -> (r: Vec<RangeCheckOp>)
    ensures
        r@ == distinct_range_prefix(ops@, ops@.len() as int),
{
    let mut r: Vec<RangeCheckOp> = Vec::new();
    let mut i: usize = 0;
    while i < ops.len()
        invariant
            i <= ops@.len(),
            r@ == distinct_range_prefix(ops@, i as int),
        decreases ops@.len() - i,
    {
        let op = ops[i];
        let mut seen = false;
        let mut k: usize = 0;
        while k < r.len()
            invariant
                k <= r@.len(),
                seen <==> exists|m: int| 0 <= m < k && #[trigger] r@[m].threshold == op.threshold && r@[m].u == op.u,
            decreases r@.len() - k,
        {
            if r[k].threshold == op.threshold && r[k].u == op.u {
                seen = true;
            }
            k = k + 1;
        }
        proof {
            lemma_distinct_range_members(ops@, i as int, op.threshold, op.u);
            if !seen {
                assert forall|j: int| 0 <= j < i implies !(ops@[j].threshold == ops@[i as int].threshold && ops@[j].u == ops@[i as int].u) by {
                    if ops@[j].threshold == op.threshold && ops@[j].u == op.u {
                        assert(exists|j: int| 0 <= j < i && #[trigger] ops@[j].threshold == op.threshold && ops@[j].u == op.u);
                    }
                }
            }
        }
        if !seen {
            r.push(op);
        }
        i = i + 1;
    }
    r
}

/// The order of key lists that std's ordering of `Vec<u64>` documents:
/// lexicographic, a proper prefix coming first.
pub open spec fn lex_le(a: Seq<u64>, b: Seq<u64>) -> bool
    decreases a.len(),
{
    if a.len() == 0 {
        true
    } else if b.len() == 0 {
        false
    } else if a[0] != b[0] {
        a[0] < b[0]
    } else {
        lex_le(a.drop_first(), b.drop_first())
    }
}

/// The key lists of a sequence of group-bys.
pub open spec fn key_lists(s: Seq<GroupByOp>) -> Seq<Seq<u64>> {
    s.map_values(|g: GroupByOp| g.group_keys@)
}

/// Relies on `slice::sort` over `Vec<u64>`: ascending lexicographic order,
/// keeping the lists.
#[verifier::external_body]
fn sort_key_lists(v: &mut Vec<Vec<u64>>)
    ensures
        forall|i: int, j: int| 0 <= i < j < final(v)@.len() ==> lex_le(final(v)@[i]@, final(v)@[j]@),
        final(v)@.map_values(|k: Vec<u64>| k@).to_multiset() == old(v)@.map_values(|k: Vec<u64>| k@).to_multiset(),
{
    v.sort();
}

fn same_keys(a: &Vec<u64>, b: &Vec<u64>) -> (r: bool)
    ensures
        r == (a@ == b@),
{
    if a.len() != b.len() {
        return false;
    }
    let mut i: usize = 0;
    while i < a.len()
        invariant
            a@.len() == b@.len(),
            i <= a@.len(),
            forall|j: int| 0 <= j < i ==> a@[j] == b@[j],
        decreases a@.len() - i,
    {
        if a[i] != b[i] {
            return false;
        }
        i = i + 1;
    }
    assert(a@ =~= b@);
    true
}

/// The group-bys of `ops` without repeats, in lexicographic order of their
/// keys: each kept key list is followed by a greater one, and the lists kept
/// are exactly those of `ops`.
pub fn distinct_group_bys(ops: &Vec<GroupByOp>) -> (r: Vec<GroupByOp>)
    ensures
        forall|i: int| 0 <= i < r@.len() - 1 ==> lex_le(#[trigger] r@[i].group_keys@, r@[i + 1].group_keys@)
            && r@[i].group_keys@ != r@[i + 1].group_keys@,
        key_lists(r@).to_set() == key_lists(ops@).to_set(),
{
    let mut lists: Vec<Vec<u64>> = Vec::new();
    let mut i: usize = 0;
    while i < ops.len()
        invariant
            i <= ops@.len(),
            lists@.map_values(|k: Vec<u64>| k@) == key_lists(ops@).subrange(0, i as int),
        decreases ops@.len() - i,
    {
        let ghost before = lists@;
        let copy = crate::sort::copy_values(ops[i].group_keys.as_slice());
        assert(copy@ == ops@[i as int].group_keys@);
        lists.push(copy);
        proof {
            assert(lists@.map_values(|k: Vec<u64>| k@) =~= before.map_values(|k: Vec<u64>| k@).push(ops@[i as int].group_keys@));
            assert(key_lists(ops@)[i as int] == ops@[i as int].group_keys@);
            assert(key_lists(ops@).subrange(0, i + 1) =~= key_lists(ops@).subrange(0, i as int).push(key_lists(ops@)[i as int]));
        }
        i = i + 1;
    }
    assert(lists@.map_values(|k: Vec<u64>| k@) =~= key_lists(ops@));
    sort_key_lists(&mut lists);
    let ghost sorted = lists@.map_values(|k: Vec<u64>| k@);
    proof {
        sorted.to_multiset_ensures();
        key_lists(ops@).to_multiset_ensures();
        assert forall|x: Seq<u64>| sorted.contains(x) <==> key_lists(ops@).contains(x) by {
            assert(sorted.contains(x) <==> sorted.to_multiset().count(x) > 0);
            assert(key_lists(ops@).contains(x) <==> key_lists(ops@).to_multiset().count(x) > 0);
        }
        assert(sorted.to_set() =~= key_lists(ops@).to_set());
    }
    let n = lists.len();
    let mut r: Vec<GroupByOp> = Vec::new();
    let mut k: usize = 0;
    while k < n
        invariant
            n == lists@.len(),
            sorted == lists@.map_values(|k: Vec<u64>| k@),
            forall|x: int, y: int| 0 <= x < y < n ==> lex_le(lists@[x]@, lists@[y]@),
            k <= n,
            key_lists(r@).to_set() == sorted.subrange(0, k as int).to_set(),
            k > 0 ==> r@.len() > 0 && r@.last().group_keys@ == sorted[k - 1],
            k == 0 ==> r@.len() == 0,
            forall|i: int| 0 <= i < r@.len() - 1 ==> lex_le(#[trigger] r@[i].group_keys@, r@[i + 1].group_keys@)
                && r@[i].group_keys@ != r@[i + 1].group_keys@,
        decreases n - k,
    {
        let ghost x = sorted[k as int];
        let ghost before = r@;
        proof {
            assert(sorted.subrange(0, k + 1) =~= sorted.subrange(0, k as int).push(x));
            sorted.subrange(0, k as int).lemma_push_to_set_commute(x);
        }
        if k == 0 || !same_keys(&r[r.len() - 1].group_keys, &lists[k]) {
            r.push(GroupByOp { group_keys: crate::sort::copy_values(lists[k].as_slice()) });
            proof {
                assert(key_lists(r@) =~= key_lists(before).push(x));
                key_lists(before).lemma_push_to_set_commute(x);
                if k > 0 {
                    assert(lex_le(lists@[k - 1]@, lists@[k as int]@));
                }
                assert forall|i: int| 0 <= i < r@.len() - 1 implies lex_le(#[trigger] r@[i].group_keys@, r@[i + 1].group_keys@)
                    && r@[i].group_keys@ != r@[i + 1].group_keys@ by {
                    assert(r@[i] == before[i]);
                    if i + 1 < before.len() {
                        assert(r@[i + 1] == before[i + 1]);
                    }
                }
            }
        } else {
            proof {
                assert(key_lists(before).contains(x)) by {
                    assert(key_lists(before)[before.len() - 1] == x);
                }
                assert(key_lists(before).to_set().insert(x) =~= key_lists(before).to_set());
            }
        }
        k = k + 1;
    }
    assert(sorted.subrange(0, n as int) =~= sorted);
    r
}

} // verus!
