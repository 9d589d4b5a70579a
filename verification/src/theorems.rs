use vstd::prelude::*;
use crate::allocate::allocated;
use crate::bignum::lemma_radix_positive;
use crate::bignum::prefix_value;
use crate::bignum::radix;
use crate::bignum::value;
use crate::correct::lemma_procedure_computes_product;
use crate::correct::lemma_template_computes_product;
use crate::emit::lemma_template_size;
use crate::emit::lemma_template_sound;
use crate::emit::template;
use crate::fidelity::lemma_allocation_from_any_state;
use crate::fidelity::lemma_allocation_keeps_result;
use crate::fidelity::unfolded;
use crate::limits::MAX_REGS;
use crate::limits::supported;
use crate::machine::MachineState;
use crate::modular::inverse_fits;
use crate::modular::lemma_partial_product_bound;
use crate::modular::lemma_partial_product_congruent;
use crate::modular::lemma_radix_cancels;
use crate::modular::lemma_room_for_every_sum;
use crate::montgomery::in_reach;
use crate::montgomery::is_montgomery_product;
use crate::montgomery::montgomery_product;
use crate::montgomery::partial_product;
use crate::montgomery::quotient_digit;
use crate::montgomery::reduced;
use crate::procedure::computed;
use crate::procedure::factor_buffer;
use crate::procedure::Procedure;
use crate::registers::hardware_registers;
use crate::registers::spill_words;

verus! {

/// What the generated procedure for `limbs` limbs leaves in the result
/// buffer: the outcome of the allocated instructions on a machine with the
/// hardware accumulators and the scratch words of the procedure.
pub open spec fn executed(
    limbs: nat,
    squaring: bool,
    a: Seq<u64>,
    b: Seq<u64>,
    modulus: Seq<u64>,
    inverse: u64,
) -> Seq<u64> {
    MachineState::start(
        a,
        b,
        modulus,
        inverse,
        hardware_registers(limbs),
        spill_words(limbs),
    ).run(allocated(template(limbs, factor_buffer(squaring)), limbs)).operand
}

/// Spilling does not change the result: for every supported limb count the
/// allocated procedure, run on the hardware accumulators, leaves what the
/// emitted procedure leaves when it has an accumulator for every limb.
pub proof fn lemma_spilling_keeps_result(
    limbs: nat,
    squaring: bool,
    a: Seq<u64>,
    b: Seq<u64>,
    modulus: Seq<u64>,
    inverse: u64,
)
    requires
        supported(limbs),
        a.len() == limbs,
    ensures
        executed(limbs, squaring, a, b, modulus, inverse) == computed(
            limbs,
            squaring,
            a,
            b,
            modulus,
            inverse,
        ),
{
    let code = template(limbs, factor_buffer(squaring));
    lemma_template_sound(limbs, factor_buffer(squaring));
    lemma_template_size(limbs, factor_buffer(squaring));
    assert(6 * limbs * limbs + 8 * limbs <= 6 * 18 * 18 + 8 * 18) by (nonlinear_arith)
        requires
            limbs <= 18,
    ;
    lemma_allocation_keeps_result(code, limbs, a, b, modulus, inverse);
}

/// The generated procedure computes the Montgomery product whatever is
/// left in the registers, the carry flags and the scratch words when it is
/// entered: where the sum has room in the accumulators after every
/// iteration, the result buffer holds at the end the Montgomery product of
/// `a` and the second factor before the final subtraction.
pub proof fn lemma_entry_state_does_not_matter(h: MachineState, limbs: nat, squaring: bool)
    requires
        supported(limbs),
        h.acc.len() == hardware_registers(limbs),
        h.spill.len() == spill_words(limbs),
        h.operand.len() == limbs,
        h.multiplier.len() == limbs,
        h.modulus.len() == limbs,
        in_reach(
            h.operand,
            value(
                if squaring {
                    h.operand
                } else {
                    h.multiplier
                },
            ) as int,
            value(h.modulus) as int,
            h.inverse,
        ),
    ensures
        ({
            let out = h.run(allocated(template(limbs, factor_buffer(squaring)), limbs)).operand;
            &&& out.len() == limbs
            &&& value(out) == montgomery_product(
                h.operand,
                if squaring {
                    h.operand
                } else {
                    h.multiplier
                },
                h.modulus,
                h.inverse,
            )
        }),
{
    let code = template(limbs, factor_buffer(squaring));
    if limbs <= MAX_REGS {
        lemma_template_computes_product(h, squaring);
    } else {
        lemma_template_sound(limbs, factor_buffer(squaring));
        lemma_template_size(limbs, factor_buffer(squaring));
        assert(6 * limbs * limbs + 8 * limbs <= 6 * 18 * 18 + 8 * 18) by (nonlinear_arith)
            requires
                limbs <= 18,
        ;
        lemma_allocation_from_any_state(code, limbs, h);
        lemma_template_computes_product(unfolded(h, limbs), squaring);
    }
}

/// Every generated procedure multiplies: run from any state of the hardware
/// machine whose buffers hold the operands, a procedure that is the
/// generated one for its limb count leaves the Montgomery product of `a`
/// and its second factor, where the sum has room in the accumulators after
/// every iteration.
pub proof fn lemma_generated_procedure_multiplies(p: Procedure, h: MachineState)
    requires
        p.wf(),
        h.acc.len() == hardware_registers(p.limbs as nat),
        h.spill.len() == spill_words(p.limbs as nat),
        h.operand.len() == p.limbs,
        h.multiplier.len() == p.limbs,
        h.modulus.len() == p.limbs,
        in_reach(
            h.operand,
            value(
                if p.squaring {
                    h.operand
                } else {
                    h.multiplier
                },
            ) as int,
            value(h.modulus) as int,
            h.inverse,
        ),
    ensures
        h.run(p.code@).operand.len() == p.limbs,
        value(h.run(p.code@).operand) == montgomery_product(
            h.operand,
            if p.squaring {
                h.operand
            } else {
                h.multiplier
            },
            h.modulus,
            h.inverse,
        ),
{
    lemma_entry_state_does_not_matter(h, p.limbs as nat, p.squaring);
}

/// The multiplication is a Montgomery multiplication. For factors below the
/// modulus, with the inverse of the modulus, the result `t` of the
/// generated procedure is such that after the final subtraction it is below
/// the modulus and, times `R = 2^(64 limbs)`, congruent to the product of
/// the factors: it is `a * b * R^{-1}` modulo the modulus. This holds where
/// the sum has room in the accumulators after every iteration, as it has
/// whenever the modulus and `b` together do not exceed `R`.
pub proof fn lemma_multiply_is_montgomery(
    limbs: nat,
    a: Seq<u64>,
    b: Seq<u64>,
    modulus: Seq<u64>,
    inverse: u64,
)
    requires
        supported(limbs),
        a.len() == limbs,
        b.len() == limbs,
        modulus.len() == limbs,
        value(a) < value(modulus),
        value(b) < value(modulus),
        inverse_fits(value(modulus) as int, inverse),
        in_reach(a, value(b) as int, value(modulus) as int, inverse),
    ensures
        is_montgomery_product(
            value(computed(limbs, false, a, b, modulus, inverse)) as int,
            value(a) as int,
            value(b) as int,
            value(modulus) as int,
            limbs,
        ),
{
    let m = value(modulus) as int;
    let bv = value(b) as int;
    let av = value(a) as int;
    let r = radix(limbs) as int;
    lemma_procedure_computes_product(limbs, false, a, b, modulus, inverse);
    let t = value(computed(limbs, false, a, b, modulus, inverse)) as int;
    assert(t == partial_product(a, bv, m, inverse, limbs));
    lemma_partial_product_bound(a, bv, m, inverse, limbs);
    let k = lemma_partial_product_congruent(a, bv, m, inverse, limbs);
    assert(t * r == av * bv + k * m);
    let k2 = if t >= m {
        k - r
    } else {
        k
    };
    assert(reduced(t, m) * r == m * k2 + av * bv) by (nonlinear_arith)
        requires
            t * r == av * bv + k * m,
            reduced(t, m) == if t >= m {
                t - m
            } else {
                t
            },
            k2 == if t >= m {
                k - r
            } else {
                k
            },
    ;
    vstd::arithmetic::div_mod::lemma_mod_multiples_vanish(k2, av * bv, m);
}

/// The multiplication is a Montgomery multiplication for every modulus that
/// leaves the top bit of its top word clear: then the sum has room in the
/// accumulators whatever the factors below the modulus are.
pub proof fn lemma_multiply_is_montgomery_with_headroom(
    limbs: nat,
    a: Seq<u64>,
    b: Seq<u64>,
    modulus: Seq<u64>,
    inverse: u64,
)
    requires
        supported(limbs),
        a.len() == limbs,
        b.len() == limbs,
        modulus.len() == limbs,
        value(a) < value(modulus),
        value(b) < value(modulus),
        inverse_fits(value(modulus) as int, inverse),
        2 * value(modulus) <= radix(limbs),
    ensures
        is_montgomery_product(
            value(computed(limbs, false, a, b, modulus, inverse)) as int,
            value(a) as int,
            value(b) as int,
            value(modulus) as int,
            limbs,
        ),
{
    lemma_room_for_every_sum(a, value(b) as int, value(modulus) as int, inverse);
    lemma_multiply_is_montgomery(limbs, a, b, modulus, inverse);
}

/// The result of a Montgomery multiplication is the only one: modulo an
/// odd modulus, two numbers below the modulus that are congruent when
/// multiplied by `R = 2^(64 limbs)` are the same number.
pub proof fn lemma_montgomery_result_unique(m: int, limbs: nat, x: int, y: int)
    requires
        m % 2 == 1,
        0 <= x < m,
        0 <= y < m,
        (x * radix(limbs)) % m == (y * radix(limbs)) % m,
    ensures
        x == y,
{
    lemma_radix_cancels(m, x, y, limbs);
    vstd::arithmetic::div_mod::lemma_small_mod(x as nat, m as nat);
    vstd::arithmetic::div_mod::lemma_small_mod(y as nat, m as nat);
}

proof fn lemma_zero_sums(a: Seq<u64>, b: int, m: int, inverse: u64, n: nat)
    requires
        n <= a.len(),
        forall|k: int| 0 <= k < a.len() ==> a[k] == 0,
    ensures
        partial_product(a, b, m, inverse, n) == 0,
    decreases n,
{
    if n > 0 {
        lemma_zero_sums(a, b, m, inverse, (n - 1) as nat);
        assert(a[n - 1] * b == 0) by (nonlinear_arith)
            requires
                a[n - 1] == 0,
        ;
        assert(quotient_digit(0, inverse) == 0) by {
            assert(inverse * 0 == 0);
        }
        assert(quotient_digit(0, inverse) * m == 0) by (nonlinear_arith)
            requires
                quotient_digit(0, inverse) == 0,
        ;
    }
}

proof fn lemma_zero_words(ws: Seq<u64>, n: nat)
    requires
        prefix_value(ws, n) == 0,
    ensures
        forall|k: int| 0 <= k < n ==> ws[k] == 0,
    decreases n,
{
    if n > 0 {
        let w = ws[n - 1] as nat;
        let r = radix((n - 1) as nat);
        lemma_radix_positive((n - 1) as nat);
        assert(w * r >= w) by (nonlinear_arith)
            requires
                r >= 1,
        ;
        lemma_zero_words(ws, (n - 1) as nat);
    }
}

/// Zero times anything is zero: where every word of `a` is zero, the
/// result of the multiplication, and of the squaring, is all zero words,
/// whatever the second factor, the modulus and the inverse are.
pub proof fn lemma_zero_operand(
    limbs: nat,
    squaring: bool,
    a: Seq<u64>,
    b: Seq<u64>,
    modulus: Seq<u64>,
    inverse: u64,
)
    requires
        supported(limbs),
        a.len() == limbs,
        b.len() == limbs,
        modulus.len() == limbs,
        forall|k: int| 0 <= k < limbs ==> a[k] == 0,
    ensures
        computed(limbs, squaring, a, b, modulus, inverse) == a,
{
    let second = if squaring {
        a
    } else {
        b
    };
    let bv = value(second) as int;
    let m = value(modulus) as int;
    lemma_radix_positive(limbs);
    assert forall|n: nat| 1 <= n <= a.len() implies #[trigger] partial_product(
        a,
        bv,
        m,
        inverse,
        n,
    ) < radix(limbs) by {
        lemma_zero_sums(a, bv, m, inverse, n);
    }
    lemma_procedure_computes_product(limbs, squaring, a, b, modulus, inverse);
    lemma_zero_sums(a, bv, m, inverse, limbs);
    let out = computed(limbs, squaring, a, b, modulus, inverse);
    lemma_zero_words(out, limbs);
    assert(out =~= a);
}

} // verus!
