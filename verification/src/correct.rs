use vstd::prelude::*;
use crate::bignum::lemma_prefix_agree;
use crate::bignum::lemma_radix_positive;
use crate::bignum::lemma_span_low;
use crate::bignum::lemma_span_prefix;
use crate::bignum::lemma_span_shift;
use crate::bignum::lemma_span_turn;
use crate::bignum::prefix_value;
use crate::bignum::radix;
use crate::bignum::span;
use crate::bignum::value;
use crate::carry::gathered;
use crate::carry::lemma_first_pass;
use crate::carry::lemma_multiply_pass;
use crate::carry::lemma_reduce_close;
use crate::carry::lemma_reduce_open;
use crate::carry::lemma_rows;
use crate::carry::lemma_run_push;
use crate::carry::same_inputs;
use crate::emit::iterations;
use crate::emit::multiply_pass;
use crate::emit::reduce_close;
use crate::emit::reduce_open;
use crate::emit::reduce_pass;
use crate::emit::rows;
use crate::emit::template;
use crate::emit::write_out;
use crate::ir::Buf;
use crate::ir::Instr;
use crate::ir::Reg;
use crate::limits::MAX_LIMBS;
use crate::limits::supported;
use crate::machine::lemma_run_concat;
use crate::machine::MachineState;
use crate::machine::mul_lo;
use crate::machine::word;
use crate::montgomery::in_reach;
use crate::montgomery::montgomery_product;
use crate::montgomery::partial_product;
use crate::montgomery::quotient_digit;
use crate::montgomery::reduce_step;
use crate::procedure::computed;
use crate::procedure::factor_buffer;

verus! {

/// A reduction pass takes a reduction step: where the step leaves a sum
/// that has room in the accumulators, they hold it afterwards, read from
/// the next accumulator on, and both carry chains are idle.
pub proof fn lemma_reduce_pass(s: MachineState, i: nat, m: Seq<u64>, u: int)
    requires
        2 <= s.acc.len() <= MAX_LIMBS,
        s.modulus == m,
        m.len() == s.acc.len(),
        i < s.acc.len(),
        gathered(s, i, u),
        reduce_step(u, prefix_value(m, s.acc.len()) as int, s.inverse) < radix(s.acc.len()),
    ensures
        ({
            let t = s.run(reduce_pass(s.acc.len(), i));
            &&& !t.cf
            &&& !t.of
            &&& span(t.acc, i + 1, 0, s.acc.len()) == reduce_step(
                u,
                prefix_value(m, s.acc.len()) as int,
                s.inverse,
            )
            &&& same_inputs(t, s)
        }),
{
    let n = s.acc.len();
    let w: int = 0x1_0000_0000_0000_0000;
    let mv = prefix_value(m, n) as int;
    // The lowest accumulator is the lowest word of the sum.
    vstd::arithmetic::div_mod::lemma_small_mod(i, n);
    let a0 = s.acc[i as int];
    lemma_span_low(s.acc, i, n);
    lemma_span_shift(s.acc, i, (n - 1) as nat);
    let rest = span(s.acc, i + 1, 0, (n - 1) as nat) + s.rcx * radix((n - 1) as nat);
    assert(radix(n) == radix((n - 1) as nat) * 0x1_0000_0000_0000_0000);
    assert(u == a0 + rest * w) by (nonlinear_arith)
        requires
            u == a0 + span(s.acc, i + 1, 0, (n - 1) as nat) * w + s.rcx * radix(n),
            radix(n) == radix((n - 1) as nat) * w,
            rest == span(s.acc, i + 1, 0, (n - 1) as nat) + s.rcx * radix((n - 1) as nat),
    ;
    vstd::arithmetic::div_mod::lemma_fundamental_div_mod_converse(u, w, rest, a0 as int);
    assert(u % w == a0);
    let q = mul_lo(s.inverse, a0);
    assert(q == quotient_digit(u, s.inverse));
    // The three parts of the pass.
    lemma_reduce_open(s, i, m, u);
    let s1 = s.run(reduce_open(n, i));
    let low = s1.rax as int;
    let c = u - low - s.rcx * radix(n);
    lemma_rows(s1, Buf::Modulus, i, 1, (n - 1) as nat, 1, q, m, c);
    let s2 = s1.run(rows(n, Buf::Modulus, i, 1, (n - 1) as nat));
    lemma_reduce_close(s2, i, q, m, c);
    let t = s2.run(reduce_close(n, i));
    lemma_run_concat(s, reduce_open(n, i), rows(n, Buf::Modulus, i, 1, (n - 1) as nat));
    lemma_run_concat(
        s,
        reduce_open(n, i) + rows(n, Buf::Modulus, i, 1, (n - 1) as nat),
        reduce_close(n, i),
    );
    assert(t == s.run(reduce_pass(n, i)));
    // What is left is the sum without its lowest word.
    let kept = span(t.acc, i + 1, 0, n) as int;
    let carries = crate::machine::bit(t.cf) + crate::machine::bit(t.of);
    let high = kept + carries * radix(n);
    assert(u + q * mv == low + high * w);
    vstd::arithmetic::div_mod::lemma_fundamental_div_mod_converse(u + q * mv, w, high, low);
    assert(reduce_step(u, mv, s.inverse) == high);
    lemma_radix_positive(n);
    if carries > 0 {
        assert(carries * radix(n) >= radix(n)) by (nonlinear_arith)
            requires
                carries >= 1,
                radix(n) > 0,
        ;
        assert(false);
    }
    assert(carries * radix(n) == 0) by (nonlinear_arith)
        requires
            carries == 0,
    ;
}

/// Whether the machine stands between two iterations: the accumulators,
/// read from accumulator `i` on, stand for `t`, and both carry chains are
/// idle.
pub open spec fn rested(s: MachineState, i: nat, t: int) -> bool {
    &&& !s.cf
    &&& !s.of
    &&& span(s.acc, i, 0, s.acc.len()) == t
}

/// After `k` iterations the accumulators hold the sum after `k`
/// iterations, where every sum up to there has room in them.
pub proof fn lemma_iterations(s: MachineState, b: Buf, src: Seq<u64>, k: nat)
    requires
        2 <= s.acc.len() <= MAX_LIMBS,
        b == Buf::Operand || b == Buf::Multiplier,
        s.buffer(b) == src,
        src.len() == s.acc.len(),
        s.operand.len() == s.acc.len(),
        s.modulus.len() == s.acc.len(),
        1 <= k <= s.acc.len(),
        in_reach(s.operand, value(src) as int, value(s.modulus) as int, s.inverse),
    ensures
        ({
            let t = s.run(iterations(s.acc.len(), b, k));
            &&& rested(
                t,
                k,
                partial_product(
                    s.operand,
                    value(src) as int,
                    value(s.modulus) as int,
                    s.inverse,
                    k,
                ),
            )
            &&& same_inputs(t, s)
        }),
    decreases k,
{
    let n = s.acc.len();
    let bv = value(src) as int;
    let mv = value(s.modulus) as int;
    let i = (k - 1) as nat;
    let before = iterations(n, b, i);
    let s0 = s.run(before);
    if i == 0 {
        assert(before =~= Seq::<Instr>::empty());
        assert(s0 == s);
    } else {
        lemma_iterations(s, b, src, i);
    }
    assert(same_inputs(s0, s));
    let t0 = partial_product(s.operand, bv, mv, s.inverse, i);
    let u = t0 + s.operand[i as int] * bv;
    if i == 0 {
        lemma_first_pass(s0, b, src);
    } else {
        lemma_multiply_pass(s0, b, i, src, t0);
    }
    let s1 = s0.run(multiply_pass(n, b, i));
    assert(gathered(s1, i, u));
    assert(partial_product(s.operand, bv, mv, s.inverse, k) == reduce_step(u, mv, s.inverse));
    assert(partial_product(s.operand, bv, mv, s.inverse, k) < radix(n));
    lemma_reduce_pass(s1, i, s.modulus, u);
    lemma_run_concat(s, before, multiply_pass(n, b, i));
    lemma_run_concat(s, before + multiply_pass(n, b, i), reduce_pass(n, i));
}

/// The stores at the end of the procedure copy the accumulators to the
/// result.
pub proof fn lemma_write_out(s: MachineState, k: nat)
    requires
        k <= s.acc.len() <= MAX_LIMBS,
        s.operand.len() == s.acc.len(),
    ensures
        ({
            let t = s.run(write_out(k));
            &&& t.acc == s.acc
            &&& t.operand.len() == s.operand.len()
            &&& forall|j: int| 0 <= j < k ==> t.operand[j] == s.acc[j]
            &&& forall|j: int| k <= j < s.operand.len() ==> t.operand[j] == s.operand[j]
        }),
    decreases k,
{
    if k > 0 {
        lemma_write_out(s, (k - 1) as nat);
        let store = Instr::Store {
            reg: Reg::Acc((k - 1) as usize),
            buf: Buf::Operand,
            index: (k - 1) as usize,
        };
        lemma_run_push(s, write_out((k - 1) as nat), store);
    }
}

/// The emitted procedure computes the Montgomery product, whatever the
/// registers and the carry flags hold when it is entered: where the sum has
/// room in the accumulators after every iteration, the result buffer holds
/// at the end, as a number of as many words as there are limbs, the
/// Montgomery product of `a` and the second factor before the final
/// subtraction. The squaring procedure takes `a` for its second factor.
pub proof fn lemma_template_computes_product(s: MachineState, squaring: bool)
    requires
        supported(s.acc.len()),
        s.operand.len() == s.acc.len(),
        s.multiplier.len() == s.acc.len(),
        s.modulus.len() == s.acc.len(),
        in_reach(
            s.operand,
            value(
                if squaring {
                    s.operand
                } else {
                    s.multiplier
                },
            ) as int,
            value(s.modulus) as int,
            s.inverse,
        ),
    ensures
        ({
            let out = s.run(template(s.acc.len(), factor_buffer(squaring))).operand;
            &&& out.len() == s.acc.len()
            &&& value(out) == montgomery_product(
                s.operand,
                if squaring {
                    s.operand
                } else {
                    s.multiplier
                },
                s.modulus,
                s.inverse,
            )
        }),
{
    let limbs = s.acc.len();
    let factor = factor_buffer(squaring);
    let src = if squaring {
        s.operand
    } else {
        s.multiplier
    };
    lemma_iterations(s, factor, src, limbs);
    let s1 = s.run(iterations(limbs, factor, limbs));
    lemma_write_out(s1, limbs);
    let s2 = s1.run(write_out(limbs));
    lemma_run_concat(s, iterations(limbs, factor, limbs), write_out(limbs));
    lemma_span_turn(s1.acc, 0, 0, limbs);
    lemma_span_prefix(s1.acc, limbs);
    lemma_prefix_agree(s2.operand, s1.acc, limbs);
}

/// The generated procedure computes the Montgomery product: where the sum
/// has room in the accumulators after every iteration, the result buffer
/// holds, as a number of `limbs` words, the Montgomery product of `a` and
/// the second factor before the final subtraction. The squaring procedure
/// takes `a` for its second factor.
pub proof fn lemma_procedure_computes_product(
    limbs: nat,
    squaring: bool,
    a: Seq<u64>,
    b: Seq<u64>,
    modulus: Seq<u64>,
    inverse: u64,
)
    requires
        supported(limbs),
        a.len() == limbs,
        b.len() == limbs,
        modulus.len() == limbs,
        in_reach(
            a,
            value(
                if squaring {
                    a
                } else {
                    b
                },
            ) as int,
            value(modulus) as int,
            inverse,
        ),
    ensures
        computed(limbs, squaring, a, b, modulus, inverse).len() == limbs,
        value(computed(limbs, squaring, a, b, modulus, inverse)) == montgomery_product(
            a,
            if squaring {
                a
            } else {
                b
            },
            modulus,
            inverse,
        ),
{
    lemma_template_computes_product(
        MachineState::start(a, b, modulus, inverse, limbs, 0),
        squaring,
    );
}

} // verus!
