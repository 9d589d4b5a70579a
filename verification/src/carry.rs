use vstd::prelude::*;
use crate::bignum::lemma_mul_words;
use crate::bignum::lemma_positions_differ;
use crate::bignum::lemma_prefix_bound;
use crate::bignum::lemma_radix_positive;
use crate::bignum::lemma_span_bound;
use crate::bignum::lemma_span_frame;
use crate::bignum::lemma_span_low;
use crate::bignum::lemma_span_shift;
use crate::bignum::lemma_span_update;
use crate::bignum::lemma_sum_words;
use crate::bignum::prefix_value;
use crate::bignum::radix;
use crate::bignum::span;
use crate::bignum::turn;
use crate::emit::first_close;
use crate::emit::first_row;
use crate::emit::first_rows;
use crate::emit::multiply_close;
use crate::emit::multiply_pass;
use crate::emit::opening;
use crate::emit::reduce_close;
use crate::emit::reduce_open;
use crate::emit::row;
use crate::emit::rows;
use crate::emit::slot;
use crate::ir::Buf;
use crate::ir::Instr;
use crate::ir::Reg;
use crate::ir::Src;
use crate::limits::MAX_LIMBS;
use crate::machine::bit;
use crate::machine::lemma_run_concat;
use crate::machine::MachineState;
use crate::machine::mul_hi;
use crate::machine::mul_lo;
use crate::machine::sum_carry;
use crate::machine::sum_word;
use crate::machine::word;

verus! {

/// Running three instructions is three steps.
pub proof fn lemma_run_three(s: MachineState, a: Instr, b: Instr, c: Instr)
    ensures
        s.run(seq![a, b, c]) == s.step(a).step(b).step(c),
{
    lemma_run_two(s, a, b);
    lemma_run_push(s, seq![a, b], c);
    assert(seq![a, b].push(c) =~= seq![a, b, c]);
}

/// Running code with one more instruction is one more step.
pub proof fn lemma_run_push(s: MachineState, code: Seq<Instr>, last: Instr)
    ensures
        s.run(code.push(last)) == s.run(code).step(last),
{
    assert(code.push(last).drop_last() =~= code);
}

/// Running two instructions is two steps.
pub proof fn lemma_run_two(s: MachineState, a: Instr, b: Instr)
    ensures
        s.run(seq![a, b]) == s.step(a).step(b),
{
    crate::machine::lemma_run_one(s, a);
    lemma_run_push(s, seq![a], b);
    assert(seq![a].push(b) =~= seq![a, b]);
}

/// Running four instructions is four steps.
pub proof fn lemma_run_four(s: MachineState, a: Instr, b: Instr, c: Instr, d: Instr)
    ensures
        s.run(seq![a, b, c, d]) == s.step(a).step(b).step(c).step(d),
{
    lemma_run_three(s, a, b, c);
    lemma_run_push(s, seq![a, b, c], d);
    assert(seq![a, b, c].push(d) =~= seq![a, b, c, d]);
}

/// Running five instructions is five steps.
pub proof fn lemma_run_five(s: MachineState, a: Instr, b: Instr, c: Instr, d: Instr, e: Instr)
    ensures
        s.run(seq![a, b, c, d, e]) == s.step(a).step(b).step(c).step(d).step(e),
{
    lemma_run_four(s, a, b, c, d);
    lemma_run_push(s, seq![a, b, c, d], e);
    assert(seq![a, b, c, d].push(e) =~= seq![a, b, c, d, e]);
}

/// The machine has `limbs` accumulators, and none of the buffers that the
/// procedure reads has changed: they hold `a`, the second factor and the
/// modulus, as `other` does.
pub open spec fn same_inputs(s: MachineState, other: MachineState) -> bool {
    &&& s.acc.len() == other.acc.len()
    &&& s.operand == other.operand
    &&& s.multiplier == other.multiplier
    &&& s.modulus == other.modulus
    &&& s.spill == other.spill
    &&& s.inverse == other.inverse
}

/// The state of the two carry chains before row `j` of a pass of iteration
/// `i`: `rdx` holds the word `x` that the pass multiplies by, and the words
/// `start..` of the accumulators, with the carry of the one chain at word
/// `j` and that of the other at word `j + 1`, stand for `c` plus `x` times
/// the first `j` words of `src`.
pub open spec fn chained(
    s: MachineState,
    i: nat,
    j: nat,
    start: nat,
    x: u64,
    src: Seq<u64>,
    c: int,
) -> bool {
    &&& s.rdx == x
    &&& span(s.acc, i, start, s.acc.len()) + bit(s.cf) * radix(j) + bit(s.of) * radix(j + 1) == c
        + x * prefix_value(src, j)
}

proof fn lemma_row_sum(
    v: int,
    v2: int,
    o1: int,
    n1: int,
    o2: int,
    n2: int,
    lo: int,
    hi: int,
    c1: int,
    c2: int,
    f1: int,
    f2: int,
    r: int,
    x: int,
    y: int,
    p: int,
    base: int,
)
    requires
        n1 + c2 * 0x1_0000_0000_0000_0000 == o1 + lo + c1,
        n2 + f2 * 0x1_0000_0000_0000_0000 == o2 + hi + f1,
        lo + hi * 0x1_0000_0000_0000_0000 == x * y,
        v2 == v - o1 * r + n1 * r - o2 * (r * 0x1_0000_0000_0000_0000) + n2 * (r
            * 0x1_0000_0000_0000_0000),
        v + c1 * r + f1 * (r * 0x1_0000_0000_0000_0000) == base + x * p,
    ensures
        v2 + c2 * (r * 0x1_0000_0000_0000_0000) + f2 * (r * 0x1_0000_0000_0000_0000
            * 0x1_0000_0000_0000_0000) == base + x * (p + y * r),
{
    let w: int = 0x1_0000_0000_0000_0000;
    assert((n1 + c2 * w) * r == (o1 + lo + c1) * r);
    assert((n2 + f2 * w) * (r * w) == (o2 + hi + f1) * (r * w));
    assert((n1 + c2 * w) * r == n1 * r + c2 * (r * w)) by (nonlinear_arith);
    assert((o1 + lo + c1) * r == o1 * r + lo * r + c1 * r) by (nonlinear_arith);
    assert((n2 + f2 * w) * (r * w) == n2 * (r * w) + f2 * (r * w * w)) by (nonlinear_arith);
    assert((o2 + hi + f1) * (r * w) == o2 * (r * w) + hi * (r * w) + f1 * (r * w))
        by (nonlinear_arith);
    assert((lo + hi * w) * r == lo * r + hi * (r * w)) by (nonlinear_arith);
    assert((x * y) * r == x * (y * r)) by (nonlinear_arith);
    assert(x * (p + y * r) == x * p + x * (y * r)) by (nonlinear_arith);
}

/// One row of a pass carries the two chains one word on.
pub proof fn lemma_row(
    s: MachineState,
    buf: Buf,
    i: nat,
    j: nat,
    start: nat,
    x: u64,
    src: Seq<u64>,
    c: int,
)
    requires
        2 <= s.acc.len() <= MAX_LIMBS,
        buf != Buf::Spill,
        s.buffer(buf) == src,
        start <= j,
        j + 1 < s.acc.len(),
        chained(s, i, j, start, x, src, c),
    ensures
        ({
            let t = s.run(row(s.acc.len(), buf, i, j));
            &&& chained(t, i, j + 1, start, x, src, c)
            &&& same_inputs(t, s)
            &&& t.rcx == s.rcx
        }),
{
    let n = s.acc.len();
    let mulx = Instr::Mulx { src: Src::Mem(buf, j as usize), lo: Reg::Rax, hi: Reg::Rbx };
    let adcx = Instr::Adcx { src: Src::Reg(Reg::Rax), dst: slot(j + i, n) };
    let adox = Instr::Adox { src: Src::Reg(Reg::Rbx), dst: slot(j + i + 1, n) };
    lemma_run_three(s, mulx, adcx, adox);
    let y = src[j as int];
    let lo = mul_lo(x, y);
    let hi = mul_hi(x, y);
    lemma_mul_words(x, y);
    let s1 = s.step(mulx);
    assert(s1.rax == lo && s1.rbx == hi && s1.acc == s.acc);
    let k1 = turn(i, j, n);
    let k2 = turn(i, j + 1, n);
    assert(k1 == ((j + i) % n) as usize as int);
    assert(k2 == ((j + i + 1) % n) as usize as int);
    lemma_positions_differ(i, j, j + 1, n);
    let o1 = s.acc[k1];
    let o2 = s.acc[k2];
    let n1 = sum_word(o1, lo, s.cf);
    let c2 = sum_carry(o1, lo, s.cf);
    lemma_sum_words(o1, lo, s.cf);
    let s2 = s1.step(adcx);
    assert(s2.acc == s.acc.update(k1, n1));
    assert(s2.cf == c2 && s2.of == s.of);
    let n2 = sum_word(o2, hi, s.of);
    let f2 = sum_carry(o2, hi, s.of);
    lemma_sum_words(o2, hi, s.of);
    let s3 = s2.step(adox);
    assert(s2.acc[k2] == o2);
    assert(s3.acc == s2.acc.update(k2, n2));
    assert(s3.of == f2 && s3.cf == c2);
    lemma_span_update(s.acc, i, start, n, j, n1);
    lemma_span_update(s2.acc, i, start, n, j + 1, n2);
    let r = radix(j) as int;
    assert(radix(j + 1) == r * 0x1_0000_0000_0000_0000);
    assert(radix(j + 2) == r * 0x1_0000_0000_0000_0000 * 0x1_0000_0000_0000_0000);
    assert(prefix_value(src, j + 1) == prefix_value(src, j) + (y as nat) * radix(j));
    lemma_row_sum(
        span(s.acc, i, start, n) as int,
        span(s3.acc, i, start, n) as int,
        o1 as int,
        n1 as int,
        o2 as int,
        n2 as int,
        lo as int,
        hi as int,
        bit(s.cf),
        bit(c2),
        bit(s.of),
        bit(f2),
        r,
        x as int,
        y as int,
        prefix_value(src, j) as int,
        c,
    );
}

/// The rows `from..to` of a pass carry the two chains from word `from` to
/// word `to`.
pub proof fn lemma_rows(
    s: MachineState,
    buf: Buf,
    i: nat,
    from: nat,
    to: nat,
    start: nat,
    x: u64,
    src: Seq<u64>,
    c: int,
)
    requires
        2 <= s.acc.len() <= MAX_LIMBS,
        buf != Buf::Spill,
        s.buffer(buf) == src,
        start <= from <= to,
        to < s.acc.len(),
        chained(s, i, from, start, x, src, c),
    ensures
        ({
            let t = s.run(rows(s.acc.len(), buf, i, from, to));
            &&& chained(t, i, to, start, x, src, c)
            &&& same_inputs(t, s)
            &&& t.rcx == s.rcx
        }),
    decreases to,
{
    let n = s.acc.len();
    if to > from {
        lemma_rows(s, buf, i, from, (to - 1) as nat, start, x, src, c);
        let mid = s.run(rows(n, buf, i, from, (to - 1) as nat));
        lemma_run_concat(s, rows(n, buf, i, from, (to - 1) as nat), row(n, buf, i, (to - 1) as nat));
        lemma_row(mid, buf, i, (to - 1) as nat, start, x, src, c);
    }
}

/// The state of the carry chain before row `j` of the first pass: `rdx`
/// holds the word `x` of `a`, the other chain is idle, and the words
/// `0..=j` of the accumulators, with the carry at word `j`, stand for `x`
/// times the first `j` words of `src`.
pub open spec fn opened(s: MachineState, j: nat, x: u64, src: Seq<u64>) -> bool {
    &&& s.rdx == x
    &&& !s.of
    &&& span(s.acc, 0, 0, j + 1) + bit(s.cf) * radix(j) == x * prefix_value(src, j)
}

/// Between the passes of an iteration: the accumulators, read from
/// accumulator `i` on, with the carry word `rcx` above them, stand for `u`,
/// and both carry chains are idle.
pub open spec fn gathered(s: MachineState, i: nat, u: int) -> bool {
    &&& !s.cf
    &&& !s.of
    &&& span(s.acc, i, 0, s.acc.len()) + s.rcx * radix(s.acc.len()) == u
}

proof fn lemma_first_row_sum(
    v: int,
    v2: int,
    o1: int,
    n1: int,
    lo: int,
    hi: int,
    c1: int,
    c2: int,
    r: int,
    x: int,
    y: int,
    p: int,
)
    requires
        n1 + c2 * 0x1_0000_0000_0000_0000 == o1 + lo + c1,
        lo + hi * 0x1_0000_0000_0000_0000 == x * y,
        v2 == v - o1 * r + n1 * r + hi * (r * 0x1_0000_0000_0000_0000),
        v + c1 * r == x * p,
    ensures
        v2 + c2 * (r * 0x1_0000_0000_0000_0000) == x * (p + y * r),
{
    let w: int = 0x1_0000_0000_0000_0000;
    assert((n1 + c2 * w) * r == (o1 + lo + c1) * r);
    assert((n1 + c2 * w) * r == n1 * r + c2 * (r * w)) by (nonlinear_arith);
    assert((o1 + lo + c1) * r == o1 * r + lo * r + c1 * r) by (nonlinear_arith);
    assert((lo + hi * w) * r == lo * r + hi * (r * w)) by (nonlinear_arith);
    assert((x * y) * r == x * (y * r)) by (nonlinear_arith);
    assert(x * (p + y * r) == x * p + x * (y * r)) by (nonlinear_arith);
}

/// Seen from accumulator 0, word `k` is accumulator `k`.
proof fn lemma_turn_zero(k: nat, n: nat)
    requires
        k < n,
    ensures
        turn(0, k, n) == k,
{
    vstd::arithmetic::div_mod::lemma_small_mod(k, n);
}

/// One row of the first pass carries the chain one word on.
proof fn lemma_first_row(s: MachineState, b: Buf, j: nat, x: u64, src: Seq<u64>)
    requires
        2 <= s.acc.len() <= MAX_LIMBS,
        b != Buf::Spill,
        s.buffer(b) == src,
        1 <= j,
        j + 1 < s.acc.len(),
        opened(s, j, x, src),
    ensures
        ({
            let t = s.run(first_row(s.acc.len(), b, j));
            &&& opened(t, j + 1, x, src)
            &&& same_inputs(t, s)
            &&& t.rcx == s.rcx
        }),
{
    let n = s.acc.len();
    let mulx = Instr::Mulx { src: Src::Mem(b, j as usize), lo: Reg::Rax, hi: slot(j + 1, n) };
    let adcx = Instr::Adcx { src: Src::Reg(Reg::Rax), dst: slot(j, n) };
    lemma_run_two(s, mulx, adcx);
    let y = src[j as int];
    let lo = mul_lo(x, y);
    let hi = mul_hi(x, y);
    lemma_mul_words(x, y);
    lemma_turn_zero(j, n);
    lemma_turn_zero(j + 1, n);
    let k1 = j as int;
    let k2 = (j + 1) as int;
    assert(slot(j, n) == Reg::Acc(k1 as usize));
    assert(slot(j + 1, n) == Reg::Acc(k2 as usize));
    let s1 = s.step(mulx);
    let acc1 = s.acc.update(k2, hi);
    assert(s1.acc == acc1 && s1.rax == lo);
    let o1 = s.acc[k1];
    let n1 = sum_word(o1, lo, s.cf);
    let c2 = sum_carry(o1, lo, s.cf);
    lemma_sum_words(o1, lo, s.cf);
    let s2 = s1.step(adcx);
    let acc2 = acc1.update(k1, n1);
    assert(s2.acc == acc2);
    assert(s2.cf == c2 && !s2.of && s2.rdx == x);
    assert forall|k: nat| 0 <= k < j + 1 implies turn(0, k, n) != k2 by {
        lemma_turn_zero(k, n);
    }
    lemma_span_frame(s.acc, 0, 0, j + 1, k2, hi);
    lemma_span_update(acc1, 0, 0, j + 1, j, n1);
    assert(span(acc2, 0, 0, j + 2) == span(acc2, 0, 0, j + 1) + (hi as nat) * radix(j + 1));
    let r = radix(j) as int;
    assert(radix(j + 1) == r * 0x1_0000_0000_0000_0000);
    assert(prefix_value(src, j + 1) == prefix_value(src, j) + (y as nat) * radix(j));
    lemma_first_row_sum(
        span(s.acc, 0, 0, j + 1) as int,
        span(acc2, 0, 0, j + 2) as int,
        o1 as int,
        n1 as int,
        lo as int,
        hi as int,
        bit(s.cf),
        bit(c2),
        r,
        x as int,
        y as int,
        prefix_value(src, j) as int,
    );
}

/// The rows `1..n` of the first pass carry the chain from word 1 to word
/// `n`.
proof fn lemma_first_rows(s: MachineState, b: Buf, to: nat, x: u64, src: Seq<u64>)
    requires
        2 <= s.acc.len() <= MAX_LIMBS,
        b != Buf::Spill,
        s.buffer(b) == src,
        1 <= to < s.acc.len(),
        opened(s, 1, x, src),
    ensures
        ({
            let t = s.run(first_rows(s.acc.len(), b, to));
            &&& opened(t, to, x, src)
            &&& same_inputs(t, s)
            &&& t.rcx == s.rcx
        }),
    decreases to,
{
    let n = s.acc.len();
    if to > 1 {
        lemma_first_rows(s, b, (to - 1) as nat, x, src);
        let mid = s.run(first_rows(n, b, (to - 1) as nat));
        lemma_run_concat(s, first_rows(n, b, (to - 1) as nat), first_row(n, b, (to - 1) as nat));
        lemma_first_row(mid, b, (to - 1) as nat, x, src);
    }
}

/// The first three instructions of the procedure open the chain.
proof fn lemma_opening(s: MachineState, b: Buf, src: Seq<u64>)
    requires
        2 <= s.acc.len() <= MAX_LIMBS,
        b != Buf::Spill,
        s.buffer(b) == src,
        s.operand.len() >= 1,
    ensures
        ({
            let t = s.run(opening(b));
            &&& opened(t, 1, s.operand[0], src)
            &&& same_inputs(t, s)
            &&& t.rcx == 0
        }),
{
    let n = s.acc.len();
    let load = Instr::Move { src: Src::Mem(Buf::Operand, 0), dst: Reg::Rdx };
    let clear = Instr::Clear { reg: Reg::Rcx };
    let mulx = Instr::Mulx { src: Src::Mem(b, 0), lo: Reg::Acc(0), hi: Reg::Acc(1) };
    lemma_run_three(s, load, clear, mulx);
    let x = s.operand[0];
    let y = src[0];
    lemma_mul_words(x, y);
    let t = s.step(load).step(clear).step(mulx);
    let lo = mul_lo(x, y);
    let hi = mul_hi(x, y);
    assert(t.acc == s.acc.update(0, lo).update(1, hi));
    lemma_turn_zero(0, n);
    lemma_turn_zero(1, n);
    assert(span(t.acc, 0, 0, 0) == 0);
    assert(span(t.acc, 0, 0, 1) == (lo as nat) * radix(0));
    assert(span(t.acc, 0, 0, 2) == span(t.acc, 0, 0, 1) + (hi as nat) * radix(1));
    assert(radix(0) == 1);
    assert(radix(1) == 0x1_0000_0000_0000_0000);
    assert(prefix_value(src, 0) == 0);
    assert(prefix_value(src, 1) == (y as nat) * radix(0));
    assert((lo as nat) * 1 == lo);
    assert((y as nat) * 1 == y);
}

proof fn lemma_first_close_sum(
    v: int,
    v2: int,
    o1: int,
    n1: int,
    lo: int,
    hi: int,
    c1: int,
    c2: int,
    top: int,
    r: int,
    x: int,
    y: int,
    p: int,
)
    requires
        n1 + c2 * 0x1_0000_0000_0000_0000 == o1 + lo + c1,
        lo + hi * 0x1_0000_0000_0000_0000 == x * y,
        top == hi + c2,
        v2 == v - o1 * r + n1 * r,
        v + c1 * r == x * p,
    ensures
        v2 + top * (r * 0x1_0000_0000_0000_0000) == x * (p + y * r),
{
    let w: int = 0x1_0000_0000_0000_0000;
    assert((n1 + c2 * w) * r == (o1 + lo + c1) * r);
    assert((n1 + c2 * w) * r == n1 * r + c2 * (r * w)) by (nonlinear_arith);
    assert((o1 + lo + c1) * r == o1 * r + lo * r + c1 * r) by (nonlinear_arith);
    assert((lo + hi * w) * r == lo * r + hi * (r * w)) by (nonlinear_arith);
    assert((hi + c2) * (r * w) == hi * (r * w) + c2 * (r * w)) by (nonlinear_arith);
    assert((x * y) * r == x * (y * r)) by (nonlinear_arith);
    assert(x * (p + y * r) == x * p + x * (y * r)) by (nonlinear_arith);
}

/// The last row of the first pass gathers the product of the first word
/// of `a` and the second factor in the accumulators and the carry word.
proof fn lemma_first_close(s: MachineState, b: Buf, x: u64, src: Seq<u64>)
    requires
        2 <= s.acc.len() <= MAX_LIMBS,
        b != Buf::Spill,
        s.buffer(b) == src,
        src.len() == s.acc.len(),
        opened(s, (s.acc.len() - 1) as nat, x, src),
    ensures
        ({
            let t = s.run(first_close(s.acc.len(), b));
            &&& gathered(t, 0, x * prefix_value(src, s.acc.len()))
            &&& same_inputs(t, s)
        }),
{
    let n = s.acc.len();
    let j = (n - 1) as nat;
    let mulx = Instr::Mulx { src: Src::Mem(b, j as usize), lo: Reg::Rax, hi: Reg::Rcx };
    let zero = Instr::Move { src: Src::Zero, dst: Reg::Rbx };
    let adcx = Instr::Adcx { src: Src::Reg(Reg::Rax), dst: slot(j, n) };
    let last = Instr::Adcx { src: Src::Reg(Reg::Rbx), dst: Reg::Rcx };
    lemma_run_four(s, mulx, zero, adcx, last);
    let y = src[j as int];
    let lo = mul_lo(x, y);
    let hi = mul_hi(x, y);
    lemma_mul_words(x, y);
    lemma_turn_zero(j, n);
    let k1 = j as int;
    assert(slot(j, n) == Reg::Acc(k1 as usize));
    let s2 = s.step(mulx).step(zero);
    assert(s2.rax == lo && s2.rcx == hi && s2.rbx == 0 && s2.acc == s.acc);
    let o1 = s.acc[k1];
    let n1 = sum_word(o1, lo, s.cf);
    let c2 = sum_carry(o1, lo, s.cf);
    lemma_sum_words(o1, lo, s.cf);
    let s3 = s2.step(adcx);
    assert(s3.acc == s.acc.update(k1, n1));
    lemma_sum_words(hi, 0, c2);
    let s4 = s3.step(last);
    assert(s4.rcx == sum_word(hi, 0, c2));
    assert(s4.cf == sum_carry(hi, 0, c2));
    assert(!s4.cf);
    assert(s4.rcx == hi + bit(c2));
    lemma_span_update(s.acc, 0, 0, n, j, n1);
    let r = radix(j) as int;
    assert(radix(n) == r * 0x1_0000_0000_0000_0000);
    assert(prefix_value(src, n) == prefix_value(src, j) + (y as nat) * radix(j));
    lemma_first_close_sum(
        span(s.acc, 0, 0, n) as int,
        span(s4.acc, 0, 0, n) as int,
        o1 as int,
        n1 as int,
        lo as int,
        hi as int,
        bit(s.cf),
        bit(c2),
        s4.rcx as int,
        r,
        x as int,
        y as int,
        prefix_value(src, j) as int,
    );
}

/// The first multiply pass gathers the product of the first word of `a`
/// and the second factor.
pub proof fn lemma_first_pass(s: MachineState, b: Buf, src: Seq<u64>)
    requires
        2 <= s.acc.len() <= MAX_LIMBS,
        b != Buf::Spill,
        s.buffer(b) == src,
        src.len() == s.acc.len(),
        s.operand.len() == s.acc.len(),
    ensures
        ({
            let t = s.run(multiply_pass(s.acc.len(), b, 0));
            &&& gathered(t, 0, s.operand[0] * prefix_value(src, s.acc.len()))
            &&& same_inputs(t, s)
        }),
{
    let n = s.acc.len();
    let x = s.operand[0];
    lemma_opening(s, b, src);
    let s1 = s.run(opening(b));
    lemma_first_rows(s1, b, (n - 1) as nat, x, src);
    let s2 = s1.run(first_rows(n, b, (n - 1) as nat));
    lemma_first_close(s2, b, x, src);
    lemma_run_concat(s, opening(b), first_rows(n, b, (n - 1) as nat));
    lemma_run_concat(s, opening(b) + first_rows(n, b, (n - 1) as nat), first_close(n, b));
}

proof fn lemma_close_sum(
    v: int,
    v2: int,
    o1: int,
    n1: int,
    lo: int,
    hi: int,
    c1: int,
    c2: int,
    f1: int,
    top: int,
    c3: int,
    r: int,
    x: int,
    y: int,
    p: int,
    base: int,
)
    requires
        n1 + c2 * 0x1_0000_0000_0000_0000 == o1 + lo + c1,
        lo + hi * 0x1_0000_0000_0000_0000 == x * y,
        top + c3 * 0x1_0000_0000_0000_0000 == hi + f1 + c2,
        v2 == v - o1 * r + n1 * r,
        v + c1 * r + f1 * (r * 0x1_0000_0000_0000_0000) == base + x * p,
    ensures
        v2 + top * (r * 0x1_0000_0000_0000_0000) + c3 * (r * 0x1_0000_0000_0000_0000
            * 0x1_0000_0000_0000_0000) == base + x * (p + y * r),
{
    let w: int = 0x1_0000_0000_0000_0000;
    assert((n1 + c2 * w) * r == (o1 + lo + c1) * r);
    assert((n1 + c2 * w) * r == n1 * r + c2 * (r * w)) by (nonlinear_arith);
    assert((o1 + lo + c1) * r == o1 * r + lo * r + c1 * r) by (nonlinear_arith);
    assert((lo + hi * w) * r == lo * r + hi * (r * w)) by (nonlinear_arith);
    assert((top + c3 * w) * (r * w) == (hi + f1 + c2) * (r * w));
    assert((top + c3 * w) * (r * w) == top * (r * w) + c3 * (r * w * w)) by (nonlinear_arith);
    assert((hi + f1 + c2) * (r * w) == hi * (r * w) + f1 * (r * w) + c2 * (r * w))
        by (nonlinear_arith);
    assert((x * y) * r == x * (y * r)) by (nonlinear_arith);
    assert(x * (p + y * r) == x * p + x * (y * r)) by (nonlinear_arith);
}

/// A product of a word and a number below `radix(n)`, added to a number
/// below `radix(n)`, is below `radix(n + 1)`.
proof fn lemma_room(t: int, x: int, v: int, n: nat)
    requires
        0 <= t < radix(n),
        0 <= x <= 0xffff_ffff_ffff_ffff,
        0 <= v < radix(n),
    ensures
        0 <= t + x * v < radix(n + 1),
{
    let r = radix(n) as int;
    assert(radix(n + 1) == r * 0x1_0000_0000_0000_0000);
    assert(0 <= x * v <= 0xffff_ffff_ffff_ffff * (r - 1)) by (nonlinear_arith)
        requires
            0 <= x <= 0xffff_ffff_ffff_ffff,
            0 <= v <= r - 1,
    ;
}

/// The last row of a later multiply pass gathers the sum so far and the
/// product of a word of `a` and the second factor.
proof fn lemma_multiply_close(s: MachineState, b: Buf, i: nat, x: u64, src: Seq<u64>, t0: int)
    requires
        2 <= s.acc.len() <= MAX_LIMBS,
        b != Buf::Spill,
        s.buffer(b) == src,
        src.len() == s.acc.len(),
        0 <= t0 < radix(s.acc.len()),
        chained(s, i, (s.acc.len() - 1) as nat, 0, x, src, t0),
    ensures
        ({
            let t = s.run(multiply_close(s.acc.len(), b, i));
            &&& gathered(t, i, t0 + x * prefix_value(src, s.acc.len()))
            &&& same_inputs(t, s)
        }),
{
    let n = s.acc.len();
    let j = (n - 1) as nat;
    let mulx = Instr::Mulx { src: Src::Mem(b, j as usize), lo: Reg::Rax, hi: Reg::Rcx };
    let zero = Instr::Move { src: Src::Zero, dst: Reg::Rbx };
    let adcx = Instr::Adcx { src: Src::Reg(Reg::Rax), dst: slot((i + n - 1) as nat, n) };
    let adox = Instr::Adox { src: Src::Reg(Reg::Rbx), dst: Reg::Rcx };
    let last = Instr::Adcx { src: Src::Reg(Reg::Rbx), dst: Reg::Rcx };
    lemma_run_five(s, mulx, zero, adcx, adox, last);
    let y = src[j as int];
    let lo = mul_lo(x, y);
    let hi = mul_hi(x, y);
    lemma_mul_words(x, y);
    let k1 = turn(i, j, n);
    assert(slot((i + n - 1) as nat, n) == Reg::Acc(k1 as usize));
    let s2 = s.step(mulx).step(zero);
    assert(s2.rax == lo && s2.rcx == hi && s2.rbx == 0 && s2.acc == s.acc);
    let o1 = s.acc[k1];
    let n1 = sum_word(o1, lo, s.cf);
    let c2 = sum_carry(o1, lo, s.cf);
    lemma_sum_words(o1, lo, s.cf);
    let s3 = s2.step(adcx);
    assert(s3.acc == s.acc.update(k1, n1));
    lemma_sum_words(hi, 0, s.of);
    let s4 = s3.step(adox);
    let top1 = sum_word(hi, 0, s.of);
    assert(s4.rcx == top1 && s4.of == sum_carry(hi, 0, s.of));
    assert(!s4.of);
    lemma_sum_words(top1, 0, c2);
    let s5 = s4.step(last);
    let top = sum_word(top1, 0, c2);
    let c3 = sum_carry(top1, 0, c2);
    assert(s5.rcx == top && s5.cf == c3 && !s5.of && s5.acc == s3.acc);
    lemma_span_update(s.acc, i, 0, n, j, n1);
    let r = radix(j) as int;
    assert(radix(n) == r * 0x1_0000_0000_0000_0000);
    assert(radix(n + 1) == r * 0x1_0000_0000_0000_0000 * 0x1_0000_0000_0000_0000);
    assert(prefix_value(src, n) == prefix_value(src, j) + (y as nat) * radix(j));
    lemma_close_sum(
        span(s.acc, i, 0, n) as int,
        span(s5.acc, i, 0, n) as int,
        o1 as int,
        n1 as int,
        lo as int,
        hi as int,
        bit(s.cf),
        bit(c2),
        bit(s.of),
        top as int,
        bit(c3),
        r,
        x as int,
        y as int,
        prefix_value(src, j) as int,
        t0,
    );
    // The sum has room in the accumulators and the carry word.
    lemma_prefix_bound(src, n);
    lemma_room(t0, x as int, prefix_value(src, n) as int, n);
    lemma_radix_positive(n);
    if c3 {
        assert(top * radix(n) >= 0) by (nonlinear_arith)
            requires
                top >= 0,
                radix(n) >= 0,
        ;
        assert(false);
    }
}

/// A later multiply pass adds the product of word `i` of `a` and the
/// second factor to the accumulators.
pub proof fn lemma_multiply_pass(s: MachineState, b: Buf, i: nat, src: Seq<u64>, t0: int)
    requires
        2 <= s.acc.len() <= MAX_LIMBS,
        b != Buf::Spill,
        s.buffer(b) == src,
        src.len() == s.acc.len(),
        s.operand.len() == s.acc.len(),
        1 <= i < s.acc.len(),
        gathered(s, i, t0 + s.rcx * radix(s.acc.len())),
    ensures
        ({
            let t = s.run(multiply_pass(s.acc.len(), b, i));
            &&& gathered(t, i, t0 + s.operand[i as int] * prefix_value(src, s.acc.len()))
            &&& same_inputs(t, s)
        }),
{
    let n = s.acc.len();
    let x = s.operand[i as int];
    let load = Instr::Move { src: Src::Mem(Buf::Operand, i as usize), dst: Reg::Rdx };
    let head = seq![load];
    crate::machine::lemma_run_one(s, load);
    let s1 = s.step(load);
    assert(s1.rdx == x && s1.acc == s.acc && s1.cf == s.cf && s1.of == s.of);
    assert(prefix_value(src, 0) == 0);
    assert(radix(0) == 1);
    lemma_span_bound(s.acc, i, n);
    assert(x * 0 == 0);
    assert(chained(s1, i, 0, 0, x, src, t0));
    lemma_rows(s1, b, i, 0, (n - 1) as nat, 0, x, src, t0);
    let s2 = s1.run(rows(n, b, i, 0, (n - 1) as nat));
    lemma_multiply_close(s2, b, i, x, src, t0);
    lemma_run_concat(s, head, rows(n, b, i, 0, (n - 1) as nat));
    lemma_run_concat(s, head + rows(n, b, i, 0, (n - 1) as nat), multiply_close(n, b, i));
}

/// Word `n` of the accumulators is word 0 again.
proof fn lemma_turn_full(i: nat, n: nat)
    requires
        n > 0,
    ensures
        turn(i, n, n) == turn(i, 0, n),
{
    vstd::arithmetic::div_mod::lemma_mod_add_multiples_vanish(i as int, n as int);
}

proof fn lemma_reduce_open_sum(
    v0: int,
    v1: int,
    v1b: int,
    a0: int,
    o2: int,
    n2: int,
    lo: int,
    hi: int,
    low: int,
    c2: int,
    f2: int,
    q: int,
    y: int,
)
    requires
        v0 == a0 + v1,
        low + c2 * 0x1_0000_0000_0000_0000 == lo + a0,
        n2 + f2 * 0x1_0000_0000_0000_0000 == o2 + hi,
        lo + hi * 0x1_0000_0000_0000_0000 == q * y,
        v1b == v1 - o2 * 0x1_0000_0000_0000_0000 + n2 * 0x1_0000_0000_0000_0000,
    ensures
        v1b + c2 * 0x1_0000_0000_0000_0000 + f2 * (0x1_0000_0000_0000_0000
            * 0x1_0000_0000_0000_0000) == v0 - low + q * y,
{
    let w: int = 0x1_0000_0000_0000_0000;
    assert((n2 + f2 * w) * w == (o2 + hi) * w);
    assert((n2 + f2 * w) * w == n2 * w + f2 * (w * w)) by (nonlinear_arith);
    assert((o2 + hi) * w == o2 * w + hi * w) by (nonlinear_arith);
}

/// The start of a reduction pass puts the quotient digit in `rdx` and
/// opens the two chains on the product of the digit and the modulus.
pub proof fn lemma_reduce_open(s: MachineState, i: nat, m: Seq<u64>, u: int)
    requires
        2 <= s.acc.len() <= MAX_LIMBS,
        s.modulus == m,
        m.len() == s.acc.len(),
        i < s.acc.len(),
        gathered(s, i, u),
    ensures
        ({
            let t = s.run(reduce_open(s.acc.len(), i));
            let q = mul_lo(s.inverse, s.acc[i as int]);
            &&& 0 <= t.rax < word()
            &&& chained(t, i, 1, 1, q, m, u - t.rax - s.rcx * radix(s.acc.len()))
            &&& same_inputs(t, s)
            &&& t.rcx == s.rcx
        }),
{
    let n = s.acc.len();
    let k0 = turn(i, 0, n);
    let k1 = turn(i, 1, n);
    vstd::arithmetic::div_mod::lemma_small_mod(i, n);
    assert(k0 == i);
    lemma_positions_differ(i, 0, 1, n);
    let load = Instr::Move { src: Src::Inverse, dst: Reg::Rdx };
    let digit = Instr::Mulx { src: Src::Reg(Reg::Acc(i as usize)), lo: Reg::Rdx, hi: Reg::Rax };
    let mulx = Instr::Mulx { src: Src::Mem(Buf::Modulus, 0), lo: Reg::Rax, hi: Reg::Rbx };
    let adcx = Instr::Adcx { src: Src::Reg(slot(i, n)), dst: Reg::Rax };
    let adox = Instr::Adox { src: Src::Reg(Reg::Rbx), dst: slot(i + 1, n) };
    lemma_run_five(s, load, digit, mulx, adcx, adox);
    assert(slot(i, n) == Reg::Acc(k0 as usize));
    assert(slot(i + 1, n) == Reg::Acc(k1 as usize));
    let a0 = s.acc[k0];
    let q = mul_lo(s.inverse, a0);
    let s2 = s.step(load).step(digit);
    assert(s2.rdx == q && s2.acc == s.acc && s2.cf == s.cf && s2.of == s.of);
    let y = m[0];
    let lo = mul_lo(q, y);
    let hi = mul_hi(q, y);
    lemma_mul_words(q, y);
    let s3 = s2.step(mulx);
    assert(s3.rax == lo && s3.rbx == hi && s3.rdx == q && s3.acc == s.acc);
    let low = sum_word(lo, a0, false);
    let c2 = sum_carry(lo, a0, false);
    lemma_sum_words(lo, a0, false);
    let s4 = s3.step(adcx);
    assert(s4.rax == low && s4.cf == c2 && s4.acc == s.acc && s4.rbx == hi);
    let o2 = s.acc[k1];
    let n2 = sum_word(o2, hi, false);
    let f2 = sum_carry(o2, hi, false);
    lemma_sum_words(o2, hi, false);
    let s5 = s4.step(adox);
    assert(s5.acc == s.acc.update(k1, n2) && s5.of == f2 && s5.cf == c2 && s5.rdx == q);
    lemma_span_update(s.acc, i, 1, n, 1, n2);
    lemma_span_low(s.acc, i, n);
    assert(radix(0) == 1);
    assert(radix(1) == 0x1_0000_0000_0000_0000);
    assert(radix(2) == 0x1_0000_0000_0000_0000 * 0x1_0000_0000_0000_0000);
    assert(prefix_value(m, 0) == 0);
    assert(prefix_value(m, 1) == (y as nat) * radix(0));
    assert((y as nat) * 1 == y);
    lemma_reduce_open_sum(
        span(s.acc, i, 0, n) as int,
        span(s.acc, i, 1, n) as int,
        span(s5.acc, i, 1, n) as int,
        a0 as int,
        o2 as int,
        n2 as int,
        lo as int,
        hi as int,
        low as int,
        bit(c2),
        bit(f2),
        q as int,
        y as int,
    );
}

proof fn lemma_reduce_close_sum(
    v: int,
    v2: int,
    o1: int,
    n1: int,
    lo: int,
    hi: int,
    c1: int,
    c2: int,
    f1: int,
    carry: int,
    top: int,
    more: int,
    r: int,
    q: int,
    y: int,
    p: int,
    base: int,
)
    requires
        n1 + c2 * 0x1_0000_0000_0000_0000 == o1 + lo + c1,
        lo + hi * 0x1_0000_0000_0000_0000 == q * y,
        top + more * 0x1_0000_0000_0000_0000 == hi + carry + f1 + c2,
        v2 == v - o1 * r + n1 * r,
        v + c1 * r + f1 * (r * 0x1_0000_0000_0000_0000) == base + q * p,
    ensures
        v2 + top * (r * 0x1_0000_0000_0000_0000) + more * (r * 0x1_0000_0000_0000_0000
            * 0x1_0000_0000_0000_0000) == base + q * (p + y * r) + carry * (r
            * 0x1_0000_0000_0000_0000),
{
    let w: int = 0x1_0000_0000_0000_0000;
    assert((n1 + c2 * w) * r == (o1 + lo + c1) * r);
    assert((n1 + c2 * w) * r == n1 * r + c2 * (r * w)) by (nonlinear_arith);
    assert((o1 + lo + c1) * r == o1 * r + lo * r + c1 * r) by (nonlinear_arith);
    assert((lo + hi * w) * r == lo * r + hi * (r * w)) by (nonlinear_arith);
    assert((top + more * w) * (r * w) == (hi + carry + f1 + c2) * (r * w));
    assert((top + more * w) * (r * w) == top * (r * w) + more * (r * w * w)) by (nonlinear_arith);
    assert((hi + carry + f1 + c2) * (r * w) == hi * (r * w) + carry * (r * w) + f1 * (r * w) + c2
        * (r * w)) by (nonlinear_arith);
    assert((q * y) * r == q * (y * r)) by (nonlinear_arith);
    assert(q * (p + y * r) == q * p + q * (y * r)) by (nonlinear_arith);
}

/// The end of a reduction pass: the accumulators, read from the next
/// accumulator on, with what is carried out of them, stand for the sum
/// without its lowest word.
pub proof fn lemma_reduce_close(s: MachineState, i: nat, q: u64, m: Seq<u64>, c: int)
    requires
        2 <= s.acc.len() <= MAX_LIMBS,
        s.modulus == m,
        m.len() == s.acc.len(),
        i < s.acc.len(),
        chained(s, i, (s.acc.len() - 1) as nat, 1, q, m, c),
    ensures
        ({
            let t = s.run(reduce_close(s.acc.len(), i));
            let n = s.acc.len();
            &&& (span(t.acc, i + 1, 0, n) + (bit(t.cf) + bit(t.of)) * radix(n))
                * 0x1_0000_0000_0000_0000 == c + q * prefix_value(m, n) + s.rcx * radix(n)
            &&& same_inputs(t, s)
        }),
{
    let n = s.acc.len();
    let j = (n - 1) as nat;
    let k0 = turn(i, 0, n);
    let k1 = turn(i, j, n);
    vstd::arithmetic::div_mod::lemma_small_mod(i, n);
    assert(k0 == i);
    lemma_positions_differ(i, 0, j, n);
    lemma_turn_full(i, n);
    let mulx = Instr::Mulx { src: Src::Mem(Buf::Modulus, j as usize), lo: Reg::Rax, hi: slot(i, n) };
    let zero = Instr::Move { src: Src::Zero, dst: Reg::Rbx };
    let adcx = Instr::Adcx { src: Src::Reg(Reg::Rax), dst: slot((i + n - 1) as nat, n) };
    let adox = Instr::Adox { src: Src::Reg(Reg::Rcx), dst: slot(i, n) };
    let last = Instr::Adcx { src: Src::Reg(Reg::Rbx), dst: slot(i, n) };
    lemma_run_five(s, mulx, zero, adcx, adox, last);
    assert(slot(i, n) == Reg::Acc(k0 as usize));
    assert(slot((i + n - 1) as nat, n) == Reg::Acc(k1 as usize));
    let y = m[j as int];
    let lo = mul_lo(q, y);
    let hi = mul_hi(q, y);
    lemma_mul_words(q, y);
    let s2 = s.step(mulx).step(zero);
    let acc1 = s.acc.update(k0, hi);
    assert(s2.acc == acc1 && s2.rax == lo && s2.rbx == 0 && s2.rcx == s.rcx);
    let o1 = s.acc[k1];
    let n1 = sum_word(o1, lo, s.cf);
    let c2 = sum_carry(o1, lo, s.cf);
    lemma_sum_words(o1, lo, s.cf);
    let s3 = s2.step(adcx);
    let acc2 = acc1.update(k1, n1);
    assert(s3.acc == acc2 && s3.cf == c2 && s3.of == s.of);
    let v1 = sum_word(hi, s.rcx, s.of);
    let f2 = sum_carry(hi, s.rcx, s.of);
    lemma_sum_words(hi, s.rcx, s.of);
    let s4 = s3.step(adox);
    let acc3 = acc2.update(k0, v1);
    assert(s4.acc == acc3 && s4.of == f2 && s4.cf == c2);
    let top = sum_word(v1, 0, c2);
    let c3 = sum_carry(v1, 0, c2);
    lemma_sum_words(v1, 0, c2);
    let s5 = s4.step(last);
    let acc4 = acc3.update(k0, top);
    assert(s5.acc == acc4 && s5.cf == c3 && s5.of == f2);
    // Only word n - 1 of the words 1..n has changed.
    assert forall|k: nat| 1 <= k < n implies turn(i, k, n) != k0 by {
        lemma_positions_differ(i, 0, k, n);
    }
    lemma_span_frame(s.acc, i, 1, n, k0, hi);
    lemma_span_update(acc1, i, 1, n, j, n1);
    lemma_span_frame(acc2, i, 1, n, k0, v1);
    lemma_span_frame(acc3, i, 1, n, k0, top);
    assert(span(acc4, i, 1, n) == span(s.acc, i, 1, n) - o1 * radix(j) + n1 * radix(j));
    // Word n is the accumulator that was word 0.
    assert(span(acc4, i, 1, n + 1) == span(acc4, i, 1, n) + (top as nat) * radix(n));
    lemma_span_shift(acc4, i, n);
    let r = radix(j) as int;
    assert(radix(n) == r * 0x1_0000_0000_0000_0000);
    assert(radix(n + 1) == r * 0x1_0000_0000_0000_0000 * 0x1_0000_0000_0000_0000);
    assert(prefix_value(m, n) == prefix_value(m, j) + (y as nat) * radix(j));
    lemma_reduce_close_sum(
        span(s.acc, i, 1, n) as int,
        span(acc4, i, 1, n) as int,
        o1 as int,
        n1 as int,
        lo as int,
        hi as int,
        bit(s.cf),
        bit(c2),
        bit(s.of),
        s.rcx as int,
        top as int,
        bit(f2) + bit(c3),
        r,
        q as int,
        y as int,
        prefix_value(m, j) as int,
        c,
    );
    let t1 = span(acc4, i + 1, 0, n) as int;
    let carries = bit(c3) + bit(f2);
    assert((t1 + carries * radix(n)) * 0x1_0000_0000_0000_0000 == t1 * 0x1_0000_0000_0000_0000
        + carries * (r * 0x1_0000_0000_0000_0000 * 0x1_0000_0000_0000_0000)) by (nonlinear_arith)
        requires
            radix(n) == r * 0x1_0000_0000_0000_0000,
    ;
}

} // verus!
