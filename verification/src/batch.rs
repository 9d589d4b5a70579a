use vstd::prelude::*;
use vstd::arithmetic::power2::lemma2_to64;
use vstd::arithmetic::power2::lemma_pow2_strictly_increases;
use vstd::arithmetic::power2::lemma_pow2_unfold;
use vstd::arithmetic::power2::pow2;
use vstd::string::StringExecFns;
use num_traits::Pow;
use rand::Rng;
use rand::rngs::StdRng;

verus! {

/// The standard random number generator of the `rand` crate. Nothing is
/// known of its state.
#[verifier::external_type_specification]
#[verifier::external_body]
pub struct ExStdRng(rand::rngs::StdRng);

/// A point was found outside the subgroup.
#[derive(Debug, Clone, Copy, PartialEq, Eq, Structural)]
pub struct VerificationError;

impl VerificationError {
    /// The error in words.
    pub fn message(&self) -> (text: String)
        ensures
            text@ == "Verification Error. Not in subgroup"@,
    {
        String::from_str("Verification Error. Not in subgroup")
    }
}

/// Calls `Rng::gen_range(0, bound)` of the `rand` crate, which panics on an
/// empty range and else samples the range `[0, bound)`. All that is
/// claimed of the number drawn is that it lies in that range.
#[verifier::external_body]
fn draw_below(rng: &mut StdRng, bound: usize) -> (r: usize)
    requires
        bound > 0,
    ensures
        r < bound,
{
    rng.gen_range(0, bound)
}

/// Calls `Pow::pow` of the `num_traits` crate on the 32-bit integer 2,
/// which raises it to the power `exponent` by repeated squaring. The
/// product overflows 32 bits from the exponent 31 on, so that larger
/// exponents are left out; below that the result is the power of two.
#[verifier::external_body]
fn two_to_the(exponent: usize) -> (r: usize)
    requires
        exponent <= 30,
    ensures
        r == pow2(exponent as nat),
{
    Pow::pow(2i32, exponent) as usize
}

/// Number of rounds that reach the security parameter when each round has
/// `2^log2_buckets` buckets.
pub open spec fn rounds_for(security_param: nat, log2_buckets: nat) -> nat {
    ((security_param - 1) / (log2_buckets as int) + 1) as nat
}

/// Whether `2^log2_buckets` buckets are enough: the rounds cost as much as
/// checking the elements one by one, or one round is all it takes.
pub open spec fn enough_buckets(
    security_param: nat,
    n_elems: nat,
    cost: nat,
    log2_buckets: nat,
) -> bool {
    rounds_for(security_param, log2_buckets) * cost * pow2(log2_buckets) >= n_elems || rounds_for(
        security_param,
        log2_buckets,
    ) <= 1
}

proof fn lemma_small_exponent(rounds: nat, cost: nat, n_elems: nat, l: nat)
    requires
        rounds >= 2,
        cost >= 1,
        rounds * cost * pow2(l) < n_elems,
        n_elems <= 0x8000_0000,
    ensures
        l + 1 <= 30,
{
    lemma2_to64();
    lemma_pow2_unfold(l + 1);
    let p = pow2(l);
    assert(rounds * cost * p >= 2 * p) by (nonlinear_arith)
        requires
            rounds >= 2,
            cost >= 1,
            p >= 0,
    ;
    assert(pow2(l + 1) < pow2(31));
    if l + 1 > 30 {
        if l + 1 > 31 {
            lemma_pow2_strictly_increases(31, l + 1);
        }
        assert(false);
    }
}

/// The greatest saving in rounds that still pays: the least exponent
/// `log2_buckets >= 1` for which `2^log2_buckets` buckets are enough, with
/// the number of buckets, the number of rounds and the exponent itself.
///
/// The security parameter and the cost of a check are at least 1, and there
/// are at most `2^31` elements, so that the number of buckets stays within
/// 32 bits.
pub fn get_max_bucket(security_param: usize, n_elems: usize, next_check_per_elem_cost: usize) -> (r:
    (usize, usize, usize))
    requires
        security_param >= 1,
        next_check_per_elem_cost >= 1,
        n_elems <= 0x8000_0000,
    ensures
        1 <= r.2 <= 30,
        r.0 == pow2(r.2 as nat),
        r.1 == rounds_for(security_param as nat, r.2 as nat),
        enough_buckets(
            security_param as nat,
            n_elems as nat,
            next_check_per_elem_cost as nat,
            r.2 as nat,
        ),
        forall|l: nat|
            1 <= l < r.2 ==> !enough_buckets(
                security_param as nat,
                n_elems as nat,
                next_check_per_elem_cost as nat,
                l,
            ),
{
    let mut log2_num_buckets: usize = 1;
    loop
        invariant
            security_param >= 1,
            next_check_per_elem_cost >= 1,
            n_elems <= 0x8000_0000,
            1 <= log2_num_buckets <= 30,
            forall|l: nat|
                1 <= l < log2_num_buckets ==> !enough_buckets(
                    security_param as nat,
                    n_elems as nat,
                    next_check_per_elem_cost as nat,
                    l,
                ),
        decreases 30 - log2_num_buckets,
    {
        let rounds: usize = (security_param - 1) / log2_num_buckets + 1;
        let buckets: usize = two_to_the(log2_num_buckets);
        assert(rounds * next_check_per_elem_cost <= 0xffff_ffff_ffff_ffff * 0xffff_ffff_ffff_ffff)
            by (nonlinear_arith)
            requires
                0 <= rounds <= 0xffff_ffff_ffff_ffff,
                0 <= next_check_per_elem_cost <= 0xffff_ffff_ffff_ffff,
        ;
        let per_bucket: u128 = (rounds as u128) * (next_check_per_elem_cost as u128);
        proof {
            lemma2_to64();
            if log2_num_buckets < 30 {
                lemma_pow2_strictly_increases(log2_num_buckets as nat, 30);
            }
            assert(rounds * next_check_per_elem_cost * pow2(log2_num_buckets as nat)
                >= rounds * next_check_per_elem_cost) by (nonlinear_arith)
                requires
                    pow2(log2_num_buckets as nat) >= 1,
                    rounds * next_check_per_elem_cost >= 0,
            ;
        }
        assert(per_bucket < n_elems ==> per_bucket * buckets <= 0x8000_0000 * 0x4000_0000)
            by (nonlinear_arith)
            requires
                0 <= buckets <= 0x4000_0000,
                n_elems <= 0x8000_0000,
                0 <= per_bucket,
        ;
        let pays: bool = per_bucket >= n_elems as u128 || per_bucket * (buckets as u128)
            >= n_elems as u128;
        if pays || rounds <= 1 {
            return (buckets, rounds, log2_num_buckets);
        }
        proof {
            lemma_small_exponent(
                rounds as nat,
                next_check_per_elem_cost as nat,
                n_elems as nat,
                log2_num_buckets as nat,
            );
        }
        log2_num_buckets += 1;
    }
}

/// Assigns each of `n_points` points a bucket at random.
pub fn assign_buckets(rng: &mut StdRng, n_points: usize, num_buckets: usize) -> (assign: Vec<usize>)
    requires
        num_buckets > 0,
    ensures
        assign.len() == n_points,
        forall|i: int| 0 <= i < assign.len() ==> assign[i] < num_buckets,
{
    let mut assign: Vec<usize> = Vec::new();
    let mut i: usize = 0;
    while i < n_points
        invariant
            i <= n_points,
            num_buckets > 0,
            assign.len() == i,
            forall|j: int| 0 <= j < assign.len() ==> assign[j] < num_buckets,
        decreases n_points - i,
    {
        let bucket: usize = draw_below(rng, num_buckets);
        assign.push(bucket);
        i += 1;
    }
    assign
}

/// The outcome of one round: it fails if the sum of any bucket, multiplied
/// by the order of the subgroup, is not the neutral element. `neutral[i]`
/// says whether it is for bucket `i`.
pub fn round_verdict(neutral: &Vec<bool>) -> (r: Result<(), VerificationError>)
    ensures
        r is Ok <==> forall|i: int| 0 <= i < neutral.len() ==> neutral[i],
{
    let mut i: usize = 0;
    while i < neutral.len()
        invariant
            i <= neutral.len(),
            forall|j: int| 0 <= j < i ==> neutral[j],
        decreases neutral.len() - i,
    {
        if !neutral[i] {
            return Err(VerificationError);
        }
        i += 1;
    }
    Ok(())
}

/// What the driver of the rounds does next.
#[derive(Debug, Clone, Copy, PartialEq, Eq, Structural)]
pub enum NextStep {
    /// Run another round.
    Verify,
    /// Every round passed: all points are in the subgroup.
    Accept,
    /// A round failed.
    Reject,
}

/// What to do when `remaining` rounds are still to run and the last round,
/// if there was one, ended as `last` says: the first failure ends the
/// verification, and so does the last round.
pub open spec fn next_step_of(remaining: nat, last: Option<bool>) -> NextStep {
    if last == Some(false) {
        NextStep::Reject
    } else if remaining == 0 {
        NextStep::Accept
    } else {
        NextStep::Verify
    }
}

/// Decides the next step of the verification: `remaining` rounds are still
/// to run, and `last` is the outcome of the round that has just ended, if
/// any.
pub fn next_step(remaining: usize, last: Option<bool>) -> (step: NextStep)
    ensures
        step == next_step_of(remaining as nat, last),
{
    match last {
        Some(false) => NextStep::Reject,
        _ => if remaining == 0 {
            NextStep::Accept
        } else {
            NextStep::Verify
        },
    }
}

} // verus!
