use vstd::arithmetic::power::pow;
use vstd::prelude::*;

verus! {

/// Number of 8-bit chunks in a 64-bit value.
pub const CHUNK_COUNT: usize = 8;

/// Size of the lookup table that bounds every chunk.
pub const TABLE_SIZE: u64 = 256;

/// Value of little-endian base-256 digits.
pub open spec fn chunks_value(c: Seq<u8>) -> nat
    decreases c.len(),
{
    if c.len() == 0 {
        0
    } else {
        chunks_value(c.drop_last()) + (c.last() as nat) * (pow(256, (c.len() - 1) as nat) as nat)
    }
}

/// Splits a 64-bit value into eight 8-bit chunks, least significant first,
/// such that `value = Σ chunk[i] · 2^(8i)`.
pub fn decompose_64bit(value: u64) -> (chunks: Vec<u8>)
    ensures
        chunks@.len() == CHUNK_COUNT,
        chunks_value(chunks@) == value as nat,
        forall|i: int| 0 <= i < 8 ==> #[trigger] chunks@[i] as nat == (value as nat / (pow(256, i as nat) as nat)) % 256,
{
    let mut chunks: Vec<u8> = Vec::new();
    let mut rest: u64 = value;
    let mut i: usize = 0;
    proof {
        vstd::arithmetic::power::lemma_pow0(256);
        assert(value as nat / 1 == value as nat);
        assert(chunks_value(chunks@) == 0);
        assert(pow(256, 0) as nat == 1);
        assert((rest as nat) * 1 == rest as nat);
    }
    while i < CHUNK_COUNT
        invariant
            i <= 8,
            chunks@.len() == i,
            pow(256, i as nat) > 0,
            rest as nat == value as nat / (pow(256, i as nat) as nat),
            value as nat == chunks_value(chunks@) + (rest as nat) * (pow(256, i as nat) as nat),
            forall|j: int| 0 <= j < i ==> #[trigger] chunks@[j] as nat == (value as nat / (pow(256, j as nat) as nat)) % 256,
        decreases 8 - i,
    {
        let digit: u8 = (rest % 256) as u8;
        let ghost p = pow(256, i as nat) as nat;
        let ghost old_chunks = chunks@;
        chunks.push(digit);
        proof {
            vstd::arithmetic::power::lemma_pow_adds(256, i as nat, 1);
            vstd::arithmetic::power::lemma_pow1(256);
            vstd::arithmetic::power::lemma_pow_positive(256, (i + 1) as nat);
            assert(chunks@.drop_last() == old_chunks);
            let r = rest as nat;
            assert(r == 256 * (r / 256) + r % 256) by (nonlinear_arith);
            assert(pow(256, (i + 1) as nat) as nat == p * 256);
            assert(r * p == (r % 256) * p + (r / 256) * (p * 256)) by (nonlinear_arith)
                requires r == 256 * (r / 256) + r % 256;
            vstd::arithmetic::div_mod::lemma_div_denominator(value as int, p as int, 256);
        }
        rest = rest / 256;
        i = i + 1;
    }
    proof {
        reveal_with_fuel(pow, 9);
        assert(pow(256, 8) as nat == 18446744073709551616nat);
        assert(rest == 0) by (nonlinear_arith)
            requires
                value as nat == chunks_value(chunks@) + (rest as nat) * 18446744073709551616nat,
                value < 18446744073709551616nat;
    }
    chunks
}

/// Witness of one `x < t` comparison.
#[derive(Clone, Copy, Debug, PartialEq, Eq, Structural)]
pub struct LessThanWitness {
    /// 1 when `x < t`, else 0.
    pub check: u64,
    /// The residue `check + (x - t) - u`, before reduction into the field.
    pub diff: i128,
    /// Whether the residue is bounded by the 0..255 lookup table, which the
    /// gate does only when `u < 256`.
    pub diff_in_table: bool,
}

/// The boolean that the less-than relation commits to.
pub open spec fn less_than_bit(x: u64, t: u64) -> u64 {
    if x < t { 1 } else { 0 }
}

/// Whether the residue of a comparison with helper `u` is looked up in the
/// 0..255 table, which is the case exactly when `u < 256`.
pub fn bounded_by_lookup(u: u64) -> (r: bool)
    ensures
        r == (u < TABLE_SIZE),
{
    u < TABLE_SIZE
}

/// Computes the witness of the comparison `x < t` with helper residue `u`.
pub fn check_less_than(x: u64, threshold: u64, u: u64) -> (w: LessThanWitness)
    ensures
        w.check == less_than_bit(x, threshold),
        w.diff == w.check + x - threshold - u,
        w.diff_in_table == (u < TABLE_SIZE),
{
    let check: u64 = if x < threshold { 1 } else { 0 };
    let diff: i128 = check as i128 + x as i128 - threshold as i128 - u as i128;
    LessThanWitness { check, diff, diff_in_table: bounded_by_lookup(u) }
}

} // verus!
