use vstd::prelude::*;
use crate::bignum::radix;
use crate::bignum::value;
use crate::correct::lemma_procedure_computes_product;
use crate::limits::GenerationError;
use crate::limits::limb_verdict;
use crate::limits::supported;
use crate::machine::word;
use crate::modular::inverse_fits;
use crate::procedure::computed;
use crate::procedure::Procedure;
use crate::squaring::lemma_square_is_multiply;
use crate::theorems::lemma_multiply_is_montgomery;
use crate::theorems::lemma_zero_operand;

verus! {

/// The final subtraction: `t` less the modulus, if it is not below it.
pub open spec fn reduced(t: int, m: int) -> int {
    if t >= m {
        t - m
    } else {
        t
    }
}

/// The quotient digit of a reduction step: the word `q` for which
/// `u + q * m` ends in a zero word, where `inverse` is `-m^{-1} mod 2^64`.
pub open spec fn quotient_digit(u: int, inverse: u64) -> int {
    (inverse * (u % word())) % word()
}

/// One reduction step: `u` plus the multiple of `m` that the quotient digit
/// asks for, without its lowest word.
pub open spec fn reduce_step(u: int, m: int, inverse: u64) -> int {
    (u + quotient_digit(u, inverse) * m) / word()
}

/// The sum after the first `n` iterations: each iteration adds the product
/// of one word of `a` and `b`, and takes a reduction step.
pub open spec fn partial_product(a: Seq<u64>, b: int, m: int, inverse: u64, n: nat) -> int
    decreases n,
{
    if n == 0 {
        0
    } else {
        reduce_step(partial_product(a, b, m, inverse, (n - 1) as nat) + a[n - 1] * b, m, inverse)
    }
}

/// The Montgomery product of `a` and `b` before the final subtraction: the
/// sum after an iteration for every word of `a`.
pub open spec fn montgomery_product(
    a: Seq<u64>,
    b: Seq<u64>,
    modulus: Seq<u64>,
    inverse: u64,
) -> int {
    partial_product(a, value(b) as int, value(modulus) as int, inverse, a.len())
}

/// Whether `t` is a Montgomery product of `a` and `b` before the final
/// subtraction: after the subtraction of the modulus, if it is due, `t` is
/// below the modulus and, times `R = 2^(64 limbs)`, congruent to `a * b`.
pub open spec fn is_montgomery_product(t: int, a: int, b: int, m: int, limbs: nat) -> bool {
    &&& 0 <= reduced(t, m) < m
    &&& (reduced(t, m) * radix(limbs)) % m == (a * b) % m
}

/// Whether the sum has room in the accumulators after every iteration.
pub open spec fn in_reach(a: Seq<u64>, b: int, m: int, inverse: u64) -> bool {
    forall|n: nat|
        1 <= n <= a.len() ==> #[trigger] partial_product(a, b, m, inverse, n) < radix(a.len())
}

/// The Montgomery product of `a` and `b` before the final subtraction, as
/// the generated procedure for their limb count computes it. The three
/// operands have the same number of limbs; limb counts outside `2..=18` are
/// rejected.
pub fn multiply(a: &Vec<u64>, b: &Vec<u64>, modulus: &Vec<u64>, inverse: u64) -> (r: Result<
    Vec<u64>,
    GenerationError,
>)
    requires
        b.len() == a.len(),
        modulus.len() == a.len(),
    ensures
        r is Ok <==> supported(a.len() as nat),
        r matches Ok(product) ==> product@ == computed(
            a.len() as nat,
            false,
            a@,
            b@,
            modulus@,
            inverse,
        ),
        r matches Ok(product) ==> product.len() == a.len() && (in_reach(
            a@,
            value(b@) as int,
            value(modulus@) as int,
            inverse,
        ) ==> value(product@) == montgomery_product(a@, b@, modulus@, inverse)),
        r matches Ok(product) ==> (value(a@) < value(modulus@) && value(b@) < value(modulus@)
            && inverse_fits(value(modulus@) as int, inverse) && in_reach(
            a@,
            value(b@) as int,
            value(modulus@) as int,
            inverse,
        )) ==> is_montgomery_product(
            value(product@) as int,
            value(a@) as int,
            value(b@) as int,
            value(modulus@) as int,
            a.len() as nat,
        ),
        r matches Ok(product) ==> (forall|k: int| 0 <= k < a.len() ==> a[k] == 0) ==> product@
            == a@,
        r matches Err(e) ==> limb_verdict(a.len()) == Err::<(), GenerationError>(e),
{
    match Procedure::generate(a.len(), false) {
        Ok(procedure) => {
            proof {
                if forall|k: int| 0 <= k < a.len() ==> a[k] == 0 {
                    lemma_zero_operand(a.len() as nat, false, a@, b@, modulus@, inverse);
                }
                if in_reach(a@, value(b@) as int, value(modulus@) as int, inverse) {
                    lemma_procedure_computes_product(
                        a.len() as nat,
                        false,
                        a@,
                        b@,
                        modulus@,
                        inverse,
                    );
                    if value(a@) < value(modulus@) && value(b@) < value(modulus@) && inverse_fits(
                        value(modulus@) as int,
                        inverse,
                    ) {
                        lemma_multiply_is_montgomery(a.len() as nat, a@, b@, modulus@, inverse);
                    }
                }
            }
            Ok(procedure.run(a, b, modulus, inverse))
        },
        Err(e) => Err(e),
    }
}

/// The Montgomery square of `a` before the final subtraction, as the
/// generated squaring procedure for its limb count computes it.
pub fn square(a: &Vec<u64>, modulus: &Vec<u64>, inverse: u64) -> (r: Result<
    Vec<u64>,
    GenerationError,
>)
    requires
        modulus.len() == a.len(),
    ensures
        r is Ok <==> supported(a.len() as nat),
        r matches Ok(product) ==> product@ == computed(
            a.len() as nat,
            true,
            a@,
            a@,
            modulus@,
            inverse,
        ),
        r matches Ok(product) ==> product@ == computed(
            a.len() as nat,
            false,
            a@,
            a@,
            modulus@,
            inverse,
        ),
        r matches Ok(product) ==> product.len() == a.len() && (in_reach(
            a@,
            value(a@) as int,
            value(modulus@) as int,
            inverse,
        ) ==> value(product@) == montgomery_product(a@, a@, modulus@, inverse)),
        r matches Ok(product) ==> (value(a@) < value(modulus@) && inverse_fits(
            value(modulus@) as int,
            inverse,
        ) && in_reach(a@, value(a@) as int, value(modulus@) as int, inverse))
            ==> is_montgomery_product(
            value(product@) as int,
            value(a@) as int,
            value(a@) as int,
            value(modulus@) as int,
            a.len() as nat,
        ),
        r matches Ok(product) ==> (forall|k: int| 0 <= k < a.len() ==> a[k] == 0) ==> product@
            == a@,
        r matches Err(e) ==> limb_verdict(a.len()) == Err::<(), GenerationError>(e),
{
    match Procedure::generate(a.len(), true) {
        Ok(procedure) => {
            proof {
                if forall|k: int| 0 <= k < a.len() ==> a[k] == 0 {
                    lemma_zero_operand(a.len() as nat, true, a@, a@, modulus@, inverse);
                }
                lemma_square_is_multiply(a.len() as nat, a@, a@, modulus@, inverse);
                if in_reach(a@, value(a@) as int, value(modulus@) as int, inverse) {
                    lemma_procedure_computes_product(
                        a.len() as nat,
                        true,
                        a@,
                        a@,
                        modulus@,
                        inverse,
                    );
                    if value(a@) < value(modulus@) && inverse_fits(
                        value(modulus@) as int,
                        inverse,
                    ) {
                        lemma_multiply_is_montgomery(a.len() as nat, a@, a@, modulus@, inverse);
                    }
                }
            }
            Ok(procedure.run(a, a, modulus, inverse))
        },
        Err(e) => Err(e),
    }
}

} // verus!
