use crate::sort::non_decreasing;
use ff::Field;
use pasta_curves::Fp;
use vstd::prelude::*;

verus! {

#[verifier::external_type_specification]
#[verifier::external_body]
pub struct ExFp(pasta_curves::Fp);

/// What the field inverse of `d` is, with 0 for `d = 0`, in the base field of
/// the Pallas curve.
pub uninterp spec fn field_inverse_or_zero(d: u64) -> Fp;

/// Relies on pasta_curves' `Fp::from(u64)` and `Field::invert` with
/// `CtOption::unwrap_or`: the inverse of `d` in the field, or zero when `d`
/// is zero. It depends on `d` alone.
#[verifier::external_body]
fn inverse_or_zero(d: u64) -> (r: Fp)
    ensures
        r == field_inverse_or_zero(d),
{
    Fp::from(d).invert().unwrap_or(Fp::ZERO)
}

/// Witness of the group-by gate over one sorted key column.
pub struct GroupByWitness {
    /// `boundaries[i]` is 1 when a new group begins at row `i + 1`, else 0.
    pub boundaries: Vec<u64>,
    /// `v[i+1] - v[i]`.
    pub gaps: Vec<u64>,
    /// The helper witness `p`: the field inverse of the gap, or 0 when the
    /// gap is 0.
    pub inverses: Vec<Fp>,
}

/// The number of boundary rows: one per adjacent pair, and a single row
/// for a one-key column.
pub open spec fn boundary_rows(n: nat) -> nat {
    if n == 0 {
        0
    } else if n == 1 {
        1
    } else {
        (n - 1) as nat
    }
}

/// Computes the group boundaries of a sorted key column: `boundaries[i] = 1`
/// exactly when `v[i] != v[i+1]`.
pub fn group_witness(keys: &[u64]) -> (w: GroupByWitness)
    requires
        non_decreasing(keys@),
    ensures
        w.boundaries@.len() == boundary_rows(keys@.len()),
        w.gaps@.len() == w.boundaries@.len(),
        w.inverses@.len() == w.boundaries@.len(),
        forall|i: int| 0 <= i < w.gaps@.len() ==> #[trigger] w.inverses@[i] == field_inverse_or_zero(w.gaps@[i]),
        keys@.len() == 1 ==> w.boundaries@[0] == 0 && w.gaps@[0] == 0,
        keys@.len() >= 2 ==> forall|i: int| 0 <= i < keys@.len() - 1 ==> {
            &&& (#[trigger] w.boundaries@[i] == 1 <==> keys@[i] != keys@[i + 1])
            &&& (w.boundaries@[i] == 0 <==> keys@[i] == keys@[i + 1])
            &&& w.gaps@[i] == keys@[i + 1] - keys@[i]
        },
{
    let mut boundaries: Vec<u64> = Vec::new();
    let mut gaps: Vec<u64> = Vec::new();
    let mut inverses: Vec<Fp> = Vec::new();
    let n = keys.len();
    if n == 1 {
        boundaries.push(0);
        gaps.push(0);
        inverses.push(inverse_or_zero(0));
        return GroupByWitness { boundaries, gaps, inverses };
    }
    let mut i: usize = 0;
    while i + 1 < n
        invariant
            n == keys@.len(),
            n != 1,
            non_decreasing(keys@),
            i <= n,
            n >= 2 ==> i <= n - 1,
            n == 0 ==> i == 0,
            boundaries@.len() == i,
            gaps@.len() == i,
            inverses@.len() == i,
            forall|j: int| 0 <= j < i ==> #[trigger] inverses@[j] == field_inverse_or_zero(gaps@[j]),
            forall|j: int| 0 <= j < i ==> {
                &&& (#[trigger] boundaries@[j] == 1 <==> keys@[j] != keys@[j + 1])
                &&& (boundaries@[j] == 0 <==> keys@[j] == keys@[j + 1])
                &&& gaps@[j] == keys@[j + 1] - keys@[j]
            },
        decreases n - i,
    {
        let b: u64 = if keys[i] != keys[i + 1] { 1 } else { 0 };
        let gap = keys[i + 1] - keys[i];
        boundaries.push(b);
        gaps.push(gap);
        inverses.push(inverse_or_zero(gap));
        i = i + 1;
    }
    GroupByWitness { boundaries, gaps, inverses }
}

} // verus!
