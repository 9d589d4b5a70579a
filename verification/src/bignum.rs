use vstd::prelude::*;
use crate::machine::bit;
use crate::machine::mul_hi;
use crate::machine::mul_lo;
use crate::machine::sum_carry;
use crate::machine::sum_word;
use crate::machine::word;

verus! {

/// The weight of word `k` of a number: `2^(64 k)`.
pub open spec fn radix(k: nat) -> nat
    decreases k,
{
    if k == 0 {
        1
    } else {
        radix((k - 1) as nat) * 0x1_0000_0000_0000_0000
    }
}

/// The number that the first `n` words of `ws` stand for, lowest word
/// first.
pub open spec fn prefix_value(ws: Seq<u64>, n: nat) -> nat
    decreases n,
{
    if n == 0 {
        0
    } else {
        prefix_value(ws, (n - 1) as nat) + (ws[n - 1] as nat) * radix((n - 1) as nat)
    }
}

/// The number that the words of `ws` stand for, lowest word first.
pub open spec fn value(ws: Seq<u64>) -> nat {
    prefix_value(ws, ws.len())
}

/// The accumulator that holds word `k` of the number whose lowest word is
/// in accumulator `i`: the accumulators are used round robin.
pub open spec fn turn(i: nat, k: nat, n: nat) -> int {
    ((i + k) % n) as int
}

/// The words `from..to` of the number whose word `k` is accumulator
/// `(i + k) mod n` of `acc`, with their weights.
pub open spec fn span(acc: Seq<u64>, i: nat, from: nat, to: nat) -> nat
    decreases to,
{
    if to <= from {
        0
    } else {
        span(acc, i, from, (to - 1) as nat) + (acc[turn(i, (to - 1) as nat, acc.len())] as nat)
            * radix((to - 1) as nat)
    }
}

pub proof fn lemma_radix_positive(k: nat)
    ensures
        radix(k) > 0,
    decreases k,
{
    if k > 0 {
        lemma_radix_positive((k - 1) as nat);
        assert(radix((k - 1) as nat) * 0x1_0000_0000_0000_0000 > 0) by (nonlinear_arith)
            requires
                radix((k - 1) as nat) > 0,
        ;
    }
}

/// The two words of a product make up the product, and the high word is
/// less than the largest word.
pub proof fn lemma_mul_words(x: u64, y: u64)
    ensures
        mul_lo(x, y) + mul_hi(x, y) * word() == x * y,
        mul_hi(x, y) <= 0xffff_ffff_ffff_fffe,
{
    let p: int = x * y;
    assert(0 <= p <= 0xffff_ffff_ffff_ffff * 0xffff_ffff_ffff_ffff) by (nonlinear_arith)
        requires
            p == x * y,
            0 <= x <= 0xffff_ffff_ffff_ffff,
            0 <= y <= 0xffff_ffff_ffff_ffff,
    ;
}

/// The word and the carry of a sum make up the sum.
pub proof fn lemma_sum_words(x: u64, y: u64, c: bool)
    ensures
        sum_word(x, y, c) + bit(sum_carry(x, y, c)) * word() == x + y + bit(c),
{
}

/// Positions less than a full turn apart are different accumulators.
pub proof fn lemma_positions_differ(i: nat, j: nat, k: nat, n: nat)
    requires
        n > 0,
        j < k < j + n,
    ensures
        turn(i, j, n) != turn(i, k, n),
{
    let a = (i + j) as int;
    let b = (i + k) as int;
    let d = n as int;
    if a % d == b % d {
        vstd::arithmetic::div_mod::lemma_fundamental_div_mod(a, d);
        vstd::arithmetic::div_mod::lemma_fundamental_div_mod(b, d);
        let qa = a / d;
        let qb = b / d;
        assert(b - a == d * qb - d * qa);
        assert(d * qb - d * qa == d * (qb - qa)) by (nonlinear_arith);
        assert(false) by (nonlinear_arith)
            requires
                0 < b - a < d,
                b - a == d * (qb - qa),
        ;
    }
}

/// Writing an accumulator that is none of the words `from..to` leaves
/// their number as it was.
pub proof fn lemma_span_frame(acc: Seq<u64>, i: nat, from: nat, to: nat, index: int, v: u64)
    requires
        acc.len() > 0,
        0 <= index < acc.len(),
        forall|k: nat| from <= k < to ==> turn(i, k, acc.len()) != index,
    ensures
        span(acc.update(index, v), i, from, to) == span(acc, i, from, to),
    decreases to,
{
    if to > from {
        lemma_span_frame(acc, i, from, (to - 1) as nat, index, v);
        assert(turn(i, (to - 1) as nat, acc.len()) != index);
    }
}

/// Writing word `k` of the words `from..to` changes their number by the
/// change of the word, with its weight.
pub proof fn lemma_span_update(acc: Seq<u64>, i: nat, from: nat, to: nat, k: nat, v: u64)
    requires
        acc.len() > 0,
        from <= k < to,
        to <= from + acc.len(),
    ensures
        span(acc.update(turn(i, k, acc.len()), v), i, from, to) == span(acc, i, from, to) - acc[turn(
            i,
            k,
            acc.len(),
        )] * radix(k) + v * radix(k),
    decreases to,
{
    let index = turn(i, k, acc.len());
    if to - 1 == k {
        assert forall|j: nat| from <= j < k implies turn(i, j, acc.len()) != index by {
            lemma_positions_differ(i, j, k, acc.len());
        }
        lemma_span_frame(acc, i, from, k, index, v);
    } else {
        lemma_span_update(acc, i, from, (to - 1) as nat, k, v);
        lemma_positions_differ(i, k, (to - 1) as nat, acc.len());
    }
}

/// The words `0..to` stand for a number below the weight of word `to`.
pub proof fn lemma_span_bound(acc: Seq<u64>, i: nat, to: nat)
    ensures
        span(acc, i, 0, to) < radix(to),
    decreases to,
{
    if to > 0 {
        lemma_span_bound(acc, i, (to - 1) as nat);
        let w = acc[turn(i, (to - 1) as nat, acc.len())];
        let r = radix((to - 1) as nat);
        assert(w * r <= 0xffff_ffff_ffff_ffff * r) by (nonlinear_arith)
            requires
                0 <= w <= 0xffff_ffff_ffff_ffff,
                0 <= r,
        ;
    }
}

/// The first `n` words stand for a number below the weight of word `n`.
pub proof fn lemma_prefix_bound(ws: Seq<u64>, n: nat)
    ensures
        prefix_value(ws, n) < radix(n),
    decreases n,
{
    if n > 0 {
        lemma_prefix_bound(ws, (n - 1) as nat);
        let w = ws[n - 1];
        let r = radix((n - 1) as nat);
        assert(w * r <= 0xffff_ffff_ffff_ffff * r) by (nonlinear_arith)
            requires
                0 <= w <= 0xffff_ffff_ffff_ffff,
                0 <= r,
        ;
    }
}

/// The lowest word apart, the words `0..to` are the words `1..to`.
pub proof fn lemma_span_low(acc: Seq<u64>, i: nat, to: nat)
    requires
        to >= 1,
        acc.len() > 0,
    ensures
        span(acc, i, 0, to) == acc[turn(i, 0, acc.len())] + span(acc, i, 1, to),
    decreases to,
{
    if to > 1 {
        lemma_span_low(acc, i, (to - 1) as nat);
    } else {
        let w = acc[turn(i, 0, acc.len())] as nat;
        assert(span(acc, i, 0, 0) == 0);
        assert(span(acc, i, 1, 1) == 0);
        assert(radix(0) == 1);
        assert(span(acc, i, 0, 1) == span(acc, i, 0, 0) + w * radix(0));
        assert(w * 1 == w);
    }
}

/// The words `1..n + 1` seen from accumulator `i` are the words `0..n` seen
/// from accumulator `i + 1`, one word higher.
pub proof fn lemma_span_shift(acc: Seq<u64>, i: nat, n: nat)
    ensures
        span(acc, i, 1, n + 1) == span(acc, i + 1, 0, n) * 0x1_0000_0000_0000_0000,
    decreases n,
{
    if n > 0 {
        lemma_span_shift(acc, i, (n - 1) as nat);
        let w = acc[turn(i, n, acc.len())];
        let r = radix((n - 1) as nat);
        assert(radix(n) == r * 0x1_0000_0000_0000_0000);
        assert((span(acc, i + 1, 0, (n - 1) as nat) + w * r) * 0x1_0000_0000_0000_0000 == span(
            acc,
            i + 1,
            0,
            (n - 1) as nat,
        ) * 0x1_0000_0000_0000_0000 + w * (r * 0x1_0000_0000_0000_0000)) by (nonlinear_arith);
    }
}

/// Seen from a full turn further on, the words are the same.
pub proof fn lemma_span_turn(acc: Seq<u64>, i: nat, from: nat, to: nat)
    requires
        acc.len() > 0,
    ensures
        span(acc, i + acc.len(), from, to) == span(acc, i, from, to),
    decreases to,
{
    if to > from {
        lemma_span_turn(acc, i, from, (to - 1) as nat);
        let n = acc.len() as int;
        vstd::arithmetic::div_mod::lemma_mod_add_multiples_vanish(i + to - 1, n);
        assert(turn(i + acc.len(), (to - 1) as nat, acc.len()) == turn(
            i,
            (to - 1) as nat,
            acc.len(),
        ));
    }
}

/// Seen from accumulator 0, the words `0..n` are the first `n` words.
pub proof fn lemma_span_prefix(acc: Seq<u64>, n: nat)
    requires
        n <= acc.len(),
    ensures
        span(acc, 0, 0, n) == prefix_value(acc, n),
    decreases n,
{
    if n > 0 {
        lemma_span_prefix(acc, (n - 1) as nat);
        vstd::arithmetic::div_mod::lemma_small_mod((n - 1) as nat, acc.len());
    }
}

/// Words that agree stand for the same number.
pub proof fn lemma_prefix_agree(xs: Seq<u64>, ys: Seq<u64>, n: nat)
    requires
        forall|k: int| 0 <= k < n ==> xs[k] == ys[k],
    ensures
        prefix_value(xs, n) == prefix_value(ys, n),
    decreases n,
{
    if n > 0 {
        lemma_prefix_agree(xs, ys, (n - 1) as nat);
    }
}

} // verus!
