use vstd::prelude::*;
use crate::allocate::faulty;
use crate::allocate::sound;
use crate::ir::Buf;
use crate::ir::Instr;
use crate::ir::Reg;
use crate::ir::Src;
use crate::limits::check_limbs;
use crate::limits::GenerationError;
use crate::limits::limb_verdict;
use crate::limits::MAX_LIMBS;
use crate::limits::supported;

verus! {

/// Accumulator `k` of a register file that is used round robin.
pub open spec fn slot(k: nat, limbs: nat) -> Reg {
    Reg::Acc((k % limbs) as usize)
}

/// The first row of the first iteration: the product of word 0 of `a` and
/// word 0 of `b` fills the two lowest accumulators.
pub open spec fn opening(b: Buf) -> Seq<Instr> {
    seq![
        Instr::Move { src: Src::Mem(Buf::Operand, 0), dst: Reg::Rdx },
        Instr::Clear { reg: Reg::Rcx },
        Instr::Mulx { src: Src::Mem(b, 0), lo: Reg::Acc(0), hi: Reg::Acc(1) },
    ]
}

/// Row `j` of the first iteration: the high word of the product opens the
/// next accumulator, the low word is added to this one.
pub open spec fn first_row(limbs: nat, b: Buf, j: nat) -> Seq<Instr> {
    seq![
        Instr::Mulx { src: Src::Mem(b, j as usize), lo: Reg::Rax, hi: slot(j + 1, limbs) },
        Instr::Adcx { src: Src::Reg(Reg::Rax), dst: slot(j, limbs) },
    ]
}

/// Rows `1..n` of the first iteration.
pub open spec fn first_rows(limbs: nat, b: Buf, n: nat) -> Seq<Instr>
    decreases n,
{
    if n <= 1 {
        Seq::empty()
    } else {
        first_rows(limbs, b, (n - 1) as nat) + first_row(limbs, b, (n - 1) as nat)
    }
}

/// The last row of the first iteration: the high word goes to the carry
/// word `rcx`, which also takes the last carry.
pub open spec fn first_close(limbs: nat, b: Buf) -> Seq<Instr> {
    seq![
        Instr::Mulx { src: Src::Mem(b, (limbs - 1) as usize), lo: Reg::Rax, hi: Reg::Rcx },
        Instr::Move { src: Src::Zero, dst: Reg::Rbx },
        Instr::Adcx { src: Src::Reg(Reg::Rax), dst: slot((limbs - 1) as nat, limbs) },
        Instr::Adcx { src: Src::Reg(Reg::Rbx), dst: Reg::Rcx },
    ]
}

/// Row `j` of a multiply-accumulate pass in iteration `i`: word `j` of `buf`
/// times `rdx`, low word on one carry chain, high word on the other.
pub open spec fn row(limbs: nat, buf: Buf, i: nat, j: nat) -> Seq<Instr> {
    seq![
        Instr::Mulx { src: Src::Mem(buf, j as usize), lo: Reg::Rax, hi: Reg::Rbx },
        Instr::Adcx { src: Src::Reg(Reg::Rax), dst: slot(j + i, limbs) },
        Instr::Adox { src: Src::Reg(Reg::Rbx), dst: slot(j + i + 1, limbs) },
    ]
}

/// Rows `from..to` of a multiply-accumulate pass in iteration `i`.
pub open spec fn rows(limbs: nat, buf: Buf, i: nat, from: nat, to: nat) -> Seq<Instr>
    decreases to,
{
    if to <= from {
        Seq::empty()
    } else {
        rows(limbs, buf, i, from, (to - 1) as nat) + row(limbs, buf, i, (to - 1) as nat)
    }
}

/// The last row of the multiply pass of iteration `i > 0`: the high word and
/// both carries are gathered in the carry word `rcx`.
pub open spec fn multiply_close(limbs: nat, b: Buf, i: nat) -> Seq<Instr> {
    seq![
        Instr::Mulx { src: Src::Mem(b, (limbs - 1) as usize), lo: Reg::Rax, hi: Reg::Rcx },
        Instr::Move { src: Src::Zero, dst: Reg::Rbx },
        Instr::Adcx { src: Src::Reg(Reg::Rax), dst: slot((i + limbs - 1) as nat, limbs) },
        Instr::Adox { src: Src::Reg(Reg::Rbx), dst: Reg::Rcx },
        Instr::Adcx { src: Src::Reg(Reg::Rbx), dst: Reg::Rcx },
    ]
}

/// The multiply pass of iteration `i`: word `i` of `a` times all of `b`,
/// added to the accumulators.
pub open spec fn multiply_pass(limbs: nat, b: Buf, i: nat) -> Seq<Instr> {
    if i == 0 {
        opening(b) + first_rows(limbs, b, (limbs - 1) as nat) + first_close(limbs, b)
    } else {
        seq![Instr::Move { src: Src::Mem(Buf::Operand, i as usize), dst: Reg::Rdx }] + rows(
            limbs,
            b,
            i,
            0,
            (limbs - 1) as nat,
        ) + multiply_close(limbs, b, i)
    }
}

/// The start of the reduction pass of iteration `i`: the quotient digit goes
/// to `rdx`, and its product with word 0 of the modulus cancels the lowest
/// accumulator.
pub open spec fn reduce_open(limbs: nat, i: nat) -> Seq<Instr> {
    seq![
        Instr::Move { src: Src::Inverse, dst: Reg::Rdx },
        Instr::Mulx { src: Src::Reg(Reg::Acc(i as usize)), lo: Reg::Rdx, hi: Reg::Rax },
        Instr::Mulx { src: Src::Mem(Buf::Modulus, 0), lo: Reg::Rax, hi: Reg::Rbx },
        Instr::Adcx { src: Src::Reg(slot(i, limbs)), dst: Reg::Rax },
        Instr::Adox { src: Src::Reg(Reg::Rbx), dst: slot(i + 1, limbs) },
    ]
}

/// The end of the reduction pass of iteration `i`: the cancelled accumulator
/// becomes the top one and takes the carry word and both carries.
pub open spec fn reduce_close(limbs: nat, i: nat) -> Seq<Instr> {
    seq![
        Instr::Mulx {
            src: Src::Mem(Buf::Modulus, (limbs - 1) as usize),
            lo: Reg::Rax,
            hi: slot(i, limbs),
        },
        Instr::Move { src: Src::Zero, dst: Reg::Rbx },
        Instr::Adcx { src: Src::Reg(Reg::Rax), dst: slot((i + limbs - 1) as nat, limbs) },
        Instr::Adox { src: Src::Reg(Reg::Rcx), dst: slot(i, limbs) },
        Instr::Adcx { src: Src::Reg(Reg::Rbx), dst: slot(i, limbs) },
    ]
}

/// The reduction pass of iteration `i`.
pub open spec fn reduce_pass(limbs: nat, i: nat) -> Seq<Instr> {
    reduce_open(limbs, i) + rows(limbs, Buf::Modulus, i, 1, (limbs - 1) as nat) + reduce_close(
        limbs,
        i,
    )
}

/// Iterations `0..n` of the procedure.
pub open spec fn iterations(limbs: nat, b: Buf, n: nat) -> Seq<Instr>
    decreases n,
{
    if n == 0 {
        Seq::empty()
    } else {
        iterations(limbs, b, (n - 1) as nat) + multiply_pass(limbs, b, (n - 1) as nat)
            + reduce_pass(limbs, (n - 1) as nat)
    }
}

/// The stores that write accumulators `0..n` to the result.
pub open spec fn write_out(n: nat) -> Seq<Instr>
    decreases n,
{
    if n == 0 {
        Seq::empty()
    } else {
        write_out((n - 1) as nat).push(
            Instr::Store {
                reg: Reg::Acc((n - 1) as usize),
                buf: Buf::Operand,
                index: (n - 1) as usize,
            },
        )
    }
}

/// The procedure for `limbs` limbs with one accumulator per limb: `limbs`
/// iterations, each a multiply pass and a reduction pass, and the stores of
/// the result. `b` is the buffer that holds the second factor; with
/// `Buf::Operand` the procedure squares.
pub open spec fn template(limbs: nat, b: Buf) -> Seq<Instr> {
    iterations(limbs, b, limbs) + write_out(limbs)
}

fn acc(k: usize, limbs: usize) -> (r: Reg)
    requires
        0 < limbs <= MAX_LIMBS,
        k <= 3 * MAX_LIMBS,
    ensures
        r == slot(k as nat, limbs as nat),
        r.within(limbs as nat),
{
    Reg::Acc(k % limbs)
}

fn push_rows(code: &mut Vec<Instr>, limbs: usize, buf: Buf, i: usize, from: usize)
    requires
        2 <= limbs <= MAX_LIMBS,
        i < limbs,
        from <= limbs - 1,
    ensures
        final(code)@ == old(code)@ + rows(limbs as nat, buf, i as nat, from as nat, (limbs - 1) as nat),
{
    let mut j: usize = from;
    while j < limbs - 1
        invariant
            2 <= limbs <= MAX_LIMBS,
            i < limbs,
            from <= j <= limbs - 1,
            code@ == old(code)@ + rows(limbs as nat, buf, i as nat, from as nat, j as nat),
        decreases limbs - j,
    {
        code.push(Instr::Mulx { src: Src::Mem(buf, j), lo: Reg::Rax, hi: Reg::Rbx });
        code.push(Instr::Adcx { src: Src::Reg(Reg::Rax), dst: acc(j + i, limbs) });
        code.push(Instr::Adox { src: Src::Reg(Reg::Rbx), dst: acc(j + i + 1, limbs) });
        assert(code@ =~= old(code)@ + rows(limbs as nat, buf, i as nat, from as nat, (j + 1) as nat));
        j += 1;
    }
}

fn push_multiply_pass(code: &mut Vec<Instr>, limbs: usize, b: Buf, i: usize)
    requires
        2 <= limbs <= MAX_LIMBS,
        i < limbs,
    ensures
        final(code)@ == old(code)@ + multiply_pass(limbs as nat, b, i as nat),
{
    if i == 0 {
        code.push(Instr::Move { src: Src::Mem(Buf::Operand, 0), dst: Reg::Rdx });
        code.push(Instr::Clear { reg: Reg::Rcx });
        code.push(Instr::Mulx { src: Src::Mem(b, 0), lo: Reg::Acc(0), hi: Reg::Acc(1) });
        assert(code@ =~= old(code)@ + opening(b) + first_rows(limbs as nat, b, 1));
        let mut j: usize = 1;
        while j < limbs - 1
            invariant
                2 <= limbs <= MAX_LIMBS,
                1 <= j <= limbs - 1,
                code@ == old(code)@ + opening(b) + first_rows(limbs as nat, b, j as nat),
            decreases limbs - j,
        {
            code.push(Instr::Mulx { src: Src::Mem(b, j), lo: Reg::Rax, hi: acc(j + 1, limbs) });
            code.push(Instr::Adcx { src: Src::Reg(Reg::Rax), dst: acc(j, limbs) });
            assert(code@ =~= old(code)@ + opening(b) + first_rows(limbs as nat, b, (j + 1) as nat));
            j += 1;
        }
        code.push(Instr::Mulx { src: Src::Mem(b, limbs - 1), lo: Reg::Rax, hi: Reg::Rcx });
        code.push(Instr::Move { src: Src::Zero, dst: Reg::Rbx });
        code.push(Instr::Adcx { src: Src::Reg(Reg::Rax), dst: acc(limbs - 1, limbs) });
        code.push(Instr::Adcx { src: Src::Reg(Reg::Rbx), dst: Reg::Rcx });
        assert(code@ =~= old(code)@ + multiply_pass(limbs as nat, b, 0));
    } else {
        code.push(Instr::Move { src: Src::Mem(Buf::Operand, i), dst: Reg::Rdx });
        let ghost head = code@;
        push_rows(code, limbs, b, i, 0);
        code.push(Instr::Mulx { src: Src::Mem(b, limbs - 1), lo: Reg::Rax, hi: Reg::Rcx });
        code.push(Instr::Move { src: Src::Zero, dst: Reg::Rbx });
        code.push(Instr::Adcx { src: Src::Reg(Reg::Rax), dst: acc(i + limbs - 1, limbs) });
        code.push(Instr::Adox { src: Src::Reg(Reg::Rbx), dst: Reg::Rcx });
        code.push(Instr::Adcx { src: Src::Reg(Reg::Rbx), dst: Reg::Rcx });
        assert(code@ =~= old(code)@ + multiply_pass(limbs as nat, b, i as nat));
    }
}

fn push_reduce_pass(code: &mut Vec<Instr>, limbs: usize, i: usize)
    requires
        2 <= limbs <= MAX_LIMBS,
        i < limbs,
    ensures
        final(code)@ == old(code)@ + reduce_pass(limbs as nat, i as nat),
{
    code.push(Instr::Move { src: Src::Inverse, dst: Reg::Rdx });
    code.push(Instr::Mulx { src: Src::Reg(Reg::Acc(i)), lo: Reg::Rdx, hi: Reg::Rax });
    code.push(Instr::Mulx { src: Src::Mem(Buf::Modulus, 0), lo: Reg::Rax, hi: Reg::Rbx });
    code.push(Instr::Adcx { src: Src::Reg(acc(i, limbs)), dst: Reg::Rax });
    code.push(Instr::Adox { src: Src::Reg(Reg::Rbx), dst: acc(i + 1, limbs) });
    assert(code@ =~= old(code)@ + reduce_open(limbs as nat, i as nat));
    push_rows(code, limbs, Buf::Modulus, i, 1);
    code.push(Instr::Mulx { src: Src::Mem(Buf::Modulus, limbs - 1), lo: Reg::Rax, hi: acc(i, limbs) });
    code.push(Instr::Move { src: Src::Zero, dst: Reg::Rbx });
    code.push(Instr::Adcx { src: Src::Reg(Reg::Rax), dst: acc(i + limbs - 1, limbs) });
    code.push(Instr::Adox { src: Src::Reg(Reg::Rcx), dst: acc(i, limbs) });
    code.push(Instr::Adcx { src: Src::Reg(Reg::Rbx), dst: acc(i, limbs) });
    assert(code@ =~= old(code)@ + reduce_pass(limbs as nat, i as nat));
}

/// Emits the procedure for `limbs` limbs with one accumulator per limb.
/// `b` names the buffer of the second factor: `Buf::Multiplier` to multiply,
/// `Buf::Operand` to square. Limb counts outside `2..=18` are rejected.
pub fn emit(limbs: usize, b: Buf) -> (r: Result<Vec<Instr>, GenerationError>)
    ensures
        r is Ok <==> supported(limbs as nat),
        r matches Ok(code) ==> code@ == template(limbs as nat, b),
        r matches Err(e) ==> limb_verdict(limbs) == Err::<(), GenerationError>(e),
{
    match check_limbs(limbs) {
        Err(e) => {
            return Err(e);
        },
        Ok(_) => {},
    }
    let mut code: Vec<Instr> = Vec::new();
    let mut i: usize = 0;
    while i < limbs
        invariant
            2 <= limbs <= MAX_LIMBS,
            i <= limbs,
            code@ == iterations(limbs as nat, b, i as nat),
        decreases limbs - i,
    {
        push_multiply_pass(&mut code, limbs, b, i);
        push_reduce_pass(&mut code, limbs, i);
        i += 1;
    }
    let mut k: usize = 0;
    while k < limbs
        invariant
            k <= limbs,
            code@ == iterations(limbs as nat, b, limbs as nat) + write_out(k as nat),
        decreases limbs - k,
    {
        code.push(Instr::Store { reg: Reg::Acc(k), buf: Buf::Operand, index: k });
        assert(code@ =~= iterations(limbs as nat, b, limbs as nat) + write_out((k + 1) as nat));
        k += 1;
    }
    Ok(code)
}

/// Code made of two pieces that the allocator accepts is accepted.
pub proof fn lemma_sound_concat(first: Seq<Instr>, second: Seq<Instr>, limbs: nat)
    requires
        sound(first, limbs),
        sound(second, limbs),
    ensures
        sound(first + second, limbs),
{
    assert forall|i: int| 0 <= i < (first + second).len() implies !faulty(
        #[trigger] (first + second)[i],
        limbs,
    ) by {
        if i < first.len() {
            assert((first + second)[i] == first[i]);
        } else {
            assert((first + second)[i] == second[i - first.len()]);
        }
    }
}

proof fn lemma_rows_sound(limbs: nat, buf: Buf, i: nat, from: nat, to: nat)
    requires
        2 <= limbs <= MAX_LIMBS,
        buf != Buf::Spill,
        to < limbs,
    ensures
        sound(rows(limbs, buf, i, from, to), limbs),
    decreases to,
{
    if to > from {
        lemma_rows_sound(limbs, buf, i, from, (to - 1) as nat);
        lemma_sound_concat(
            rows(limbs, buf, i, from, (to - 1) as nat),
            row(limbs, buf, i, (to - 1) as nat),
            limbs,
        );
    }
}

proof fn lemma_first_rows_sound(limbs: nat, b: Buf, n: nat)
    requires
        2 <= limbs <= MAX_LIMBS,
        b != Buf::Spill,
        n < limbs,
    ensures
        sound(first_rows(limbs, b, n), limbs),
    decreases n,
{
    if n > 1 {
        lemma_first_rows_sound(limbs, b, (n - 1) as nat);
        lemma_sound_concat(
            first_rows(limbs, b, (n - 1) as nat),
            first_row(limbs, b, (n - 1) as nat),
            limbs,
        );
    }
}

proof fn lemma_multiply_pass_sound(limbs: nat, b: Buf, i: nat)
    requires
        2 <= limbs <= MAX_LIMBS,
        b != Buf::Spill,
        i < limbs,
    ensures
        sound(multiply_pass(limbs, b, i), limbs),
{
    if i == 0 {
        lemma_first_rows_sound(limbs, b, (limbs - 1) as nat);
        lemma_sound_concat(opening(b), first_rows(limbs, b, (limbs - 1) as nat), limbs);
        lemma_sound_concat(
            opening(b) + first_rows(limbs, b, (limbs - 1) as nat),
            first_close(limbs, b),
            limbs,
        );
    } else {
        let head = seq![Instr::Move { src: Src::Mem(Buf::Operand, i as usize), dst: Reg::Rdx }];
        lemma_rows_sound(limbs, b, i, 0, (limbs - 1) as nat);
        lemma_sound_concat(head, rows(limbs, b, i, 0, (limbs - 1) as nat), limbs);
        lemma_sound_concat(
            head + rows(limbs, b, i, 0, (limbs - 1) as nat),
            multiply_close(limbs, b, i),
            limbs,
        );
    }
}

proof fn lemma_reduce_pass_sound(limbs: nat, i: nat)
    requires
        2 <= limbs <= MAX_LIMBS,
        i < limbs,
    ensures
        sound(reduce_pass(limbs, i), limbs),
{
    lemma_rows_sound(limbs, Buf::Modulus, i, 1, (limbs - 1) as nat);
    lemma_sound_concat(
        reduce_open(limbs, i),
        rows(limbs, Buf::Modulus, i, 1, (limbs - 1) as nat),
        limbs,
    );
    lemma_sound_concat(
        reduce_open(limbs, i) + rows(limbs, Buf::Modulus, i, 1, (limbs - 1) as nat),
        reduce_close(limbs, i),
        limbs,
    );
}

proof fn lemma_iterations_sound(limbs: nat, b: Buf, n: nat)
    requires
        2 <= limbs <= MAX_LIMBS,
        b != Buf::Spill,
        n <= limbs,
    ensures
        sound(iterations(limbs, b, n), limbs),
    decreases n,
{
    if n > 0 {
        lemma_iterations_sound(limbs, b, (n - 1) as nat);
        lemma_multiply_pass_sound(limbs, b, (n - 1) as nat);
        lemma_reduce_pass_sound(limbs, (n - 1) as nat);
        lemma_sound_concat(
            iterations(limbs, b, (n - 1) as nat),
            multiply_pass(limbs, b, (n - 1) as nat),
            limbs,
        );
        lemma_sound_concat(
            iterations(limbs, b, (n - 1) as nat) + multiply_pass(limbs, b, (n - 1) as nat),
            reduce_pass(limbs, (n - 1) as nat),
            limbs,
        );
    }
}

proof fn lemma_write_out_sound(limbs: nat, n: nat)
    requires
        limbs <= MAX_LIMBS,
        n <= limbs,
    ensures
        sound(write_out(n), limbs),
    decreases n,
{
    if n > 0 {
        lemma_write_out_sound(limbs, (n - 1) as nat);
    }
}

/// The allocator accepts every emitted procedure: each instruction fits the
/// limb count, and none names two accumulators that share a hardware
/// accumulator.
pub proof fn lemma_template_sound(limbs: nat, b: Buf)
    requires
        supported(limbs),
        b != Buf::Spill,
    ensures
        sound(template(limbs, b), limbs),
{
    lemma_iterations_sound(limbs, b, limbs);
    lemma_write_out_sound(limbs, limbs);
    lemma_sound_concat(iterations(limbs, b, limbs), write_out(limbs), limbs);
}

proof fn lemma_rows_len(limbs: nat, buf: Buf, i: nat, from: nat, to: nat)
    ensures
        rows(limbs, buf, i, from, to).len() == if to <= from {
            0
        } else {
            3 * (to - from)
        },
    decreases to,
{
    if to > from {
        lemma_rows_len(limbs, buf, i, from, (to - 1) as nat);
    }
}

proof fn lemma_first_rows_len(limbs: nat, b: Buf, n: nat)
    ensures
        first_rows(limbs, b, n).len() == if n <= 1 {
            0
        } else {
            2 * (n - 1)
        },
    decreases n,
{
    if n > 1 {
        lemma_first_rows_len(limbs, b, (n - 1) as nat);
    }
}

proof fn lemma_iterations_len(limbs: nat, b: Buf, n: nat)
    requires
        2 <= limbs,
    ensures
        iterations(limbs, b, n).len() <= n * (6 * limbs + 7),
    decreases n,
{
    if n > 0 {
        lemma_iterations_len(limbs, b, (n - 1) as nat);
        lemma_rows_len(limbs, b, (n - 1) as nat, 0, (limbs - 1) as nat);
        lemma_rows_len(limbs, Buf::Modulus, (n - 1) as nat, 1, (limbs - 1) as nat);
        lemma_first_rows_len(limbs, b, (limbs - 1) as nat);
        assert(n * (6 * limbs + 7) == (n - 1) * (6 * limbs + 7) + (6 * limbs + 7))
            by (nonlinear_arith);
    }
}

proof fn lemma_write_out_len(n: nat)
    ensures
        write_out(n).len() == n,
    decreases n,
{
    if n > 0 {
        lemma_write_out_len((n - 1) as nat);
    }
}

/// A template for `limbs` limbs has at most `6 * limbs^2 + 8 * limbs`
/// instructions.
pub proof fn lemma_template_size(limbs: nat, b: Buf)
    requires
        2 <= limbs,
    ensures
        template(limbs, b).len() <= 6 * limbs * limbs + 8 * limbs,
{
    lemma_iterations_len(limbs, b, limbs);
    lemma_write_out_len(limbs);
    assert(limbs * (6 * limbs + 7) + limbs == 6 * limbs * limbs + 8 * limbs)
        by (nonlinear_arith);
}

} // verus!
