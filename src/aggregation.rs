use crate::error::SynthesisError;
use crate::sort::non_decreasing;
use crate::text::{chars_of, same_chars};
use vstd::prelude::*;

verus! {

/// The aggregate functions that the aggregation gate evaluates.
#[derive(Clone, Copy, Debug, PartialEq, Eq, Structural)]
pub enum AggregationKind {
    Sum,
    Count,
    Max,
    Min,
}

/// The kind that an aggregate name (`sum`, `count`, `max`, `min`) denotes.
pub open spec fn kind_of(name: Seq<char>) -> Option<AggregationKind> {
    if name == seq!['s', 'u', 'm'] {
        Some(AggregationKind::Sum)
    } else if name == seq!['c', 'o', 'u', 'n', 't'] {
        Some(AggregationKind::Count)
    } else if name == seq!['m', 'a', 'x'] {
        Some(AggregationKind::Max)
    } else if name == seq!['m', 'i', 'n'] {
        Some(AggregationKind::Min)
    } else {
        None
    }
}

/// Resolves an aggregate name.
pub fn aggregation_kind(name: &str) -> (r: Option<AggregationKind>)
    ensures
        r == kind_of(name@),
{
    let c = chars_of(name);
    if same_chars(c.as_slice(), &['s', 'u', 'm']) {
        Some(AggregationKind::Sum)
    } else if same_chars(c.as_slice(), &['c', 'o', 'u', 'n', 't']) {
        Some(AggregationKind::Count)
    } else if same_chars(c.as_slice(), &['m', 'a', 'x']) {
        Some(AggregationKind::Max)
    } else if same_chars(c.as_slice(), &['m', 'i', 'n']) {
        Some(AggregationKind::Min)
    } else {
        None
    }
}

/// Partial result on the first row of a group.
pub open spec fn restart_value(kind: AggregationKind, v: u64) -> int {
    match kind {
        AggregationKind::Count => 1,
        _ => v as int,
    }
}

/// Partial result on a row that continues the group of the row before.
pub open spec fn continue_value(kind: AggregationKind, prev: int, v: u64) -> int {
    match kind {
        AggregationKind::Sum => prev + v,
        AggregationKind::Count => prev + 1,
        AggregationKind::Max => if prev >= v { prev } else { v as int },
        AggregationKind::Min => if prev <= v { prev } else { v as int },
    }
}

/// Whether row `i` opens a group: the first row, or one whose key differs
/// from the key of the row before.
pub open spec fn opens_group(g: Seq<u64>, i: int) -> bool {
    i == 0 || g[i] != g[i - 1]
}

/// The per-row partial result `r[i]`: it restarts where a group opens and
/// accumulates the values of the group otherwise.
pub open spec fn partial_result(kind: AggregationKind, g: Seq<u64>, v: Seq<u64>, i: int) -> int
    decreases i,
{
    if i <= 0 {
        restart_value(kind, v[0])
    } else if g[i] != g[i - 1] {
        restart_value(kind, v[i])
    } else {
        continue_value(kind, partial_result(kind, g, v, i - 1), v[i])
    }
}

/// The largest value of 64 bits.
pub open spec fn u64_top() -> int {
    0xffff_ffff_ffff_ffff
}

proof fn lemma_partial_result_bounds(kind: AggregationKind, g: Seq<u64>, v: Seq<u64>, i: int)
    requires
        0 <= i < v.len(),
        g.len() == v.len(),
    ensures
        0 <= partial_result(kind, g, v, i) <= (i + 1) * u64_top(),
        (kind == AggregationKind::Max || kind == AggregationKind::Min) ==> partial_result(kind, g, v, i) <= u64_top(),
    decreases i,
{
    if i > 0 {
        lemma_partial_result_bounds(kind, g, v, i - 1);
        assert((i + 1) * u64_top() == i * u64_top() + u64_top()) by (nonlinear_arith);
    }
}

/// The sum of a sequence of values.
pub open spec fn seq_sum(s: Seq<u64>) -> int
    decreases s.len(),
{
    if s.len() == 0 {
        0
    } else {
        seq_sum(s.drop_last()) + s.last()
    }
}

/// Whether `r` is the aggregate of kind `kind` of the non-empty group `s`:
/// its sum, its size, its largest or its smallest value.
pub open spec fn is_group_aggregate(kind: AggregationKind, r: int, s: Seq<u64>) -> bool {
    match kind {
        AggregationKind::Sum => r == seq_sum(s),
        AggregationKind::Count => r == s.len(),
        AggregationKind::Max => (exists|j: int| 0 <= j < s.len() && s[j] == r) && (forall|j: int| 0 <= j < s.len() ==> s[j] <= r),
        AggregationKind::Min => (exists|j: int| 0 <= j < s.len() && s[j] == r) && (forall|j: int| 0 <= j < s.len() ==> s[j] >= r),
    }
}

/// The first row of the group that row `i` belongs to.
pub open spec fn group_start(g: Seq<u64>, i: int) -> int
    decreases i,
{
    if i <= 0 {
        0
    } else if g[i] != g[i - 1] {
        i
    } else {
        group_start(g, i - 1)
    }
}

proof fn lemma_group_start(g: Seq<u64>, i: int)
    requires
        0 <= i < g.len(),
    ensures
        0 <= group_start(g, i) <= i,
        opens_group(g, group_start(g, i)),
        forall|j: int| group_start(g, i) <= j <= i ==> #[trigger] g[j] == g[i],
    decreases i,
{
    if i > 0 && g[i] == g[i - 1] {
        lemma_group_start(g, i - 1);
    }
}

proof fn lemma_partial_result_is_running_aggregate(kind: AggregationKind, g: Seq<u64>, v: Seq<u64>, i: int)
    requires
        0 <= i < v.len(),
        g.len() == v.len(),
    ensures
        is_group_aggregate(kind, partial_result(kind, g, v, i), v.subrange(group_start(g, i), i + 1)),
    decreases i,
{
    lemma_group_start(g, i);
    let lo = group_start(g, i);
    let s = v.subrange(lo, i + 1);
    let r = partial_result(kind, g, v, i);
    if i <= 0 || g[i] != g[i - 1] {
        assert(lo == i);
        assert(s.drop_last() =~= Seq::<u64>::empty());
        assert(s[0] == v[i]);
        assert(seq_sum(s.drop_last()) == 0);
        assert(seq_sum(s) == seq_sum(s.drop_last()) + s.last());
        match kind {
            AggregationKind::Max => assert(s[0] == r),
            AggregationKind::Min => assert(s[0] == r),
            _ => {},
        }
    } else {
        lemma_partial_result_is_running_aggregate(kind, g, v, i - 1);
        let prev = partial_result(kind, g, v, i - 1);
        let t = v.subrange(lo, i);
        assert(s.drop_last() =~= t);
        assert(s.last() == v[i]);
        assert(seq_sum(s) == seq_sum(t) + v[i]);
        match kind {
            AggregationKind::Max => {
                if prev >= v[i] {
                    let j = choose|j: int| 0 <= j < t.len() && t[j] == prev;
                    assert(s[j] == r);
                } else {
                    assert(s[s.len() - 1] == r);
                }
                assert forall|j: int| 0 <= j < s.len() implies s[j] <= r by {
                    if j < t.len() {
                        assert(s[j] == t[j]);
                    }
                }
            },
            AggregationKind::Min => {
                if prev <= v[i] {
                    let j = choose|j: int| 0 <= j < t.len() && t[j] == prev;
                    assert(s[j] == r);
                } else {
                    assert(s[s.len() - 1] == r);
                }
                assert forall|j: int| 0 <= j < s.len() implies s[j] >= r by {
                    if j < t.len() {
                        assert(s[j] == t[j]);
                    }
                }
            },
            _ => {},
        }
    }
}

/// On a sorted key column, the partial result on the last row of each group
/// is the aggregate of exactly the values whose key is that group's key.
pub proof fn lemma_group_final_result(kind: AggregationKind, g: Seq<u64>, v: Seq<u64>, i: int)
    requires
        g.len() == v.len(),
        non_decreasing(g),
        0 <= i < g.len(),
        i == g.len() - 1 || g[i] != g[i + 1],
    ensures
        0 <= group_start(g, i) <= i,
        forall|j: int| 0 <= j < g.len() ==> (#[trigger] g[j] == g[i] <==> group_start(g, i) <= j <= i),
        is_group_aggregate(kind, partial_result(kind, g, v, i), v.subrange(group_start(g, i), i + 1)),
{
    let lo = group_start(g, i);
    lemma_group_start(g, i);
    lemma_partial_result_is_running_aggregate(kind, g, v, i);
    assert forall|j: int| 0 <= j < g.len() implies (#[trigger] g[j] == g[i] <==> lo <= j <= i) by {
        if j < lo {
            assert(g[j] <= g[lo - 1]);
            assert(g[lo - 1] <= g[lo]);
        } else if j > i {
            assert(g[i + 1] <= g[j]);
            assert(g[i] <= g[i + 1]);
        }
    }
}

/// Witness of the aggregation gate over one key column and one value column.
pub struct AggregationWitness {
    /// 1 on each row that opens a group, else 0.
    pub restarts: Vec<u64>,
    /// The partial result of each row.
    pub results: Vec<u128>,
    /// For MAX `r[i] - v[i]`, for MIN `v[i] - r[i]`; empty for SUM and COUNT.
    pub value_gaps: Vec<u128>,
    /// For MAX `r[i] - r[i-1]`, for MIN `r[i-1] - r[i]`, on each row that
    /// continues a group (0 elsewhere); empty for SUM and COUNT.
    pub prev_gaps: Vec<u128>,
}

/// Whether a witness lays out `kind` over keys `g` and values `v`.
pub open spec fn aggregation_witness_of(
    w: AggregationWitness,
    kind: AggregationKind,
    g: Seq<u64>,
    v: Seq<u64>,
) -> bool {
    let n = v.len();
    let ordered = kind == AggregationKind::Max || kind == AggregationKind::Min;
    &&& w.results@.len() == n
    &&& w.restarts@.len() == n
    &&& forall|i: int| 0 <= i < n ==> #[trigger] w.results@[i] == partial_result(kind, g, v, i)
    &&& forall|i: int| 0 <= i < n ==> #[trigger] w.restarts@[i] == (if opens_group(g, i) { 1u64 } else { 0u64 })
    &&& w.value_gaps@.len() == (if ordered { n } else { 0 })
    &&& w.prev_gaps@.len() == (if ordered { n } else { 0 })
    &&& kind == AggregationKind::Max ==> forall|i: int| 0 <= i < n ==> {
        &&& #[trigger] w.value_gaps@[i] == w.results@[i] - v[i]
        &&& w.prev_gaps@[i] == (if opens_group(g, i) { 0 } else { w.results@[i] - w.results@[i - 1] })
    }
    &&& kind == AggregationKind::Min ==> forall|i: int| 0 <= i < n ==> {
        &&& #[trigger] w.value_gaps@[i] == v[i] - w.results@[i]
        &&& w.prev_gaps@[i] == (if opens_group(g, i) { 0 } else { w.results@[i - 1] - w.results@[i] })
    }
}

/// Computes the witness of the aggregation gate: per-row partial results
/// that restart at each group boundary, and for MAX and MIN the non-negative
/// gaps that the range checks decompose.
pub fn aggregation_witness(group_keys: &[u64], values: &[u64], agg_type: &str) -> (res: Result<AggregationWitness, SynthesisError>)
    ensures
        group_keys@.len() != values@.len() ==> res == Err::<AggregationWitness, SynthesisError>(SynthesisError::LengthMismatch),
        group_keys@.len() == values@.len() && values@.len() > 0 && kind_of(agg_type@).is_none()
            ==> res == Err::<AggregationWitness, SynthesisError>(SynthesisError::UnknownAggregate),
        group_keys@.len() == values@.len() && values@.len() == 0 ==> res is Ok && res->Ok_0.results@.len() == 0,
        group_keys@.len() == values@.len() && values@.len() > 0 && kind_of(agg_type@).is_some()
            ==> res is Ok && aggregation_witness_of(res->Ok_0, kind_of(agg_type@).unwrap(), group_keys@, values@),
{
    if group_keys.len() != values.len() {
        return Err(SynthesisError::LengthMismatch);
    }
    if values.len() == 0 {
        return Ok(AggregationWitness { restarts: Vec::new(), results: Vec::new(), value_gaps: Vec::new(), prev_gaps: Vec::new() });
    }
    let kind = match aggregation_kind(agg_type) {
        Some(k) => k,
        None => return Err(SynthesisError::UnknownAggregate),
    };
    let ghost g = group_keys@;
    let ghost v = values@;
    let n = values.len();
    let ordered = matches!(kind, AggregationKind::Max | AggregationKind::Min);
    let mut restarts: Vec<u64> = Vec::new();
    let mut results: Vec<u128> = Vec::new();
    let mut i: usize = 0;
    while i < n
        invariant
            n == v.len(),
            g.len() == v.len(),
            g == group_keys@,
            v == values@,
            i <= n,
            results@.len() == i,
            restarts@.len() == i,
            forall|j: int| 0 <= j < i ==> #[trigger] results@[j] == partial_result(kind, g, v, j),
            forall|j: int| 0 <= j < i ==> #[trigger] restarts@[j] == (if opens_group(g, j) { 1u64 } else { 0u64 }),
        decreases n - i,
    {
        proof {
            lemma_partial_result_bounds(kind, g, v, i as int);
            assert((i + 1) * u64_top() <= 0xffff_ffff_ffff_ffff * 0xffff_ffff_ffff_ffff) by (nonlinear_arith)
                requires i + 1 <= 0xffff_ffff_ffff_ffff;
        }
        let opens = i == 0 || group_keys[i] != group_keys[i - 1];
        let r: u128 = if opens {
            match kind {
                AggregationKind::Count => 1,
                _ => values[i] as u128,
            }
        } else {
            let prev = results[i - 1];
            let x = values[i] as u128;
            match kind {
                AggregationKind::Sum => prev + x,
                AggregationKind::Count => prev + 1,
                AggregationKind::Max => if prev >= x { prev } else { x },
                AggregationKind::Min => if prev <= x { prev } else { x },
            }
        };
        results.push(r);
        restarts.push(if opens { 1 } else { 0 });
        i = i + 1;
    }
    let mut value_gaps: Vec<u128> = Vec::new();
    let mut prev_gaps: Vec<u128> = Vec::new();
    if ordered {
        let max = kind == AggregationKind::Max;
        let mut k: usize = 0;
        while k < n
            invariant
                n == v.len(),
                g.len() == v.len(),
                g == group_keys@,
                v == values@,
                k <= n,
                max == (kind == AggregationKind::Max),
                ordered,
                ordered == (kind == AggregationKind::Max || kind == AggregationKind::Min),
                results@.len() == n,
                forall|j: int| 0 <= j < n ==> #[trigger] results@[j] == partial_result(kind, g, v, j),
                value_gaps@.len() == k,
                prev_gaps@.len() == k,
                forall|j: int| 0 <= j < k ==> #[trigger] value_gaps@[j] == (if max { results@[j] - v[j] } else { v[j] - results@[j] }),
                forall|j: int| 0 <= j < k ==> #[trigger] prev_gaps@[j] == (if opens_group(g, j) { 0 } else if max {
                    results@[j] - results@[j - 1]
                } else {
                    results@[j - 1] - results@[j]
                }),
            decreases n - k,
        {
            let opens = k == 0 || group_keys[k] != group_keys[k - 1];
            let x = values[k] as u128;
            let r = results[k];
            assert(r == partial_result(kind, g, v, k as int));
            if max {
                value_gaps.push(r - x);
                prev_gaps.push(if opens { 0 } else { r - results[k - 1] });
            } else {
                value_gaps.push(x - r);
                prev_gaps.push(if opens { 0 } else { results[k - 1] - r });
            }
            k = k + 1;
        }
    }
    let w = AggregationWitness { restarts, results, value_gaps, prev_gaps };
    assert(aggregation_witness_of(w, kind, g, v));
    Ok(w)
}

} // verus!
