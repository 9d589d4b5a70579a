use vstd::prelude::*;
use crate::carry::lemma_run_push;
use crate::emit::first_close;
use crate::emit::first_row;
use crate::emit::first_rows;
use crate::emit::iterations;
use crate::emit::multiply_close;
use crate::emit::multiply_pass;
use crate::emit::opening;
use crate::emit::reduce_close;
use crate::emit::reduce_open;
use crate::emit::reduce_pass;
use crate::emit::row;
use crate::emit::rows;
use crate::emit::write_out;
use crate::ir::Buf;
use crate::ir::Instr;
use crate::ir::Reg;
use crate::ir::Src;
use crate::machine::lemma_run_concat;
use crate::machine::MachineState;
use crate::procedure::computed;

verus! {

/// Whether two machines agree in everything but the second-factor buffer.
pub open spec fn agree(s: MachineState, m: MachineState) -> bool {
    &&& s.rax == m.rax
    &&& s.rbx == m.rbx
    &&& s.rcx == m.rcx
    &&& s.rdx == m.rdx
    &&& s.acc == m.acc
    &&& s.cf == m.cf
    &&& s.of == m.of
    &&& s.operand == m.operand
    &&& s.modulus == m.modulus
    &&& s.spill == m.spill
    &&& s.inverse == m.inverse
}

/// The relation between the machine that squares `a` and the machine that
/// multiplies `a` by a copy of itself: they agree, and the copy is intact.
pub open spec fn twin(s: MachineState, m: MachineState) -> bool {
    agree(s, m) && m.multiplier == m.operand
}

/// Whether a source of the squaring procedure and one of the
/// multiplication read the same word on twin machines.
pub open spec fn src_alike(x: Src, y: Src) -> bool {
    match (x, y) {
        (Src::Mem(Buf::Operand, j), Src::Mem(Buf::Multiplier, k)) => j == k,
        (Src::Mem(Buf::Multiplier, _), _) => false,
        _ => x == y,
    }
}

/// Whether an instruction of the squaring procedure and one of the
/// multiplication do the same on twin machines: neither stores, and they
/// differ at most in the buffer that the second factor is read from.
pub open spec fn alike(x: Instr, y: Instr) -> bool {
    match (x, y) {
        (Instr::Move { src: sx, dst: dx }, Instr::Move { src: sy, dst: dy }) => src_alike(sx, sy)
            && dx == dy,
        (Instr::Clear { reg: rx }, Instr::Clear { reg: ry }) => rx == ry,
        (Instr::Mulx { src: sx, lo: lx, hi: hx }, Instr::Mulx { src: sy, lo: ly, hi: hy }) =>
            src_alike(sx, sy) && lx == ly && hx == hy,
        (Instr::Adcx { src: sx, dst: dx }, Instr::Adcx { src: sy, dst: dy }) => src_alike(sx, sy)
            && dx == dy,
        (Instr::Adox { src: sx, dst: dx }, Instr::Adox { src: sy, dst: dy }) => src_alike(sx, sy)
            && dx == dy,
        _ => false,
    }
}

/// Whether two pieces of code are alike instruction by instruction.
pub open spec fn paired(xs: Seq<Instr>, ys: Seq<Instr>) -> bool {
    &&& xs.len() == ys.len()
    &&& forall|i: int| 0 <= i < xs.len() ==> alike(#[trigger] xs[i], ys[i])
}

proof fn lemma_src_alike(s: MachineState, m: MachineState, x: Src, y: Src)
    requires
        twin(s, m),
        src_alike(x, y),
    ensures
        s.src(x) == m.src(y),
{
}

proof fn lemma_step_alike(s: MachineState, m: MachineState, x: Instr, y: Instr)
    requires
        twin(s, m),
        alike(x, y),
    ensures
        twin(s.step(x), m.step(y)),
{
    match (x, y) {
        (Instr::Move { src: sx, dst: dx }, Instr::Move { src: sy, dst: dy }) => {
            lemma_src_alike(s, m, sx, sy);
        },
        (Instr::Mulx { src: sx, lo: lx, hi: hx }, Instr::Mulx { src: sy, lo: ly, hi: hy }) => {
            lemma_src_alike(s, m, sx, sy);
        },
        (Instr::Adcx { src: sx, dst: dx }, Instr::Adcx { src: sy, dst: dy }) => {
            lemma_src_alike(s, m, sx, sy);
        },
        (Instr::Adox { src: sx, dst: dx }, Instr::Adox { src: sy, dst: dy }) => {
            lemma_src_alike(s, m, sx, sy);
        },
        _ => {},
    }
}

/// Code that is alike keeps twin machines twins.
pub proof fn lemma_run_paired(s: MachineState, m: MachineState, xs: Seq<Instr>, ys: Seq<Instr>)
    requires
        twin(s, m),
        paired(xs, ys),
    ensures
        twin(s.run(xs), m.run(ys)),
    decreases xs.len(),
{
    if xs.len() > 0 {
        assert(paired(xs.drop_last(), ys.drop_last())) by {
            assert forall|i: int| 0 <= i < xs.drop_last().len() implies alike(
                #[trigger] xs.drop_last()[i],
                ys.drop_last()[i],
            ) by {
                assert(alike(xs[i], ys[i]));
            }
        }
        lemma_run_paired(s, m, xs.drop_last(), ys.drop_last());
        assert(alike(xs[xs.len() - 1], ys[xs.len() - 1]));
        lemma_step_alike(s.run(xs.drop_last()), m.run(ys.drop_last()), xs.last(), ys.last());
    }
}

proof fn lemma_paired_concat(x1: Seq<Instr>, y1: Seq<Instr>, x2: Seq<Instr>, y2: Seq<Instr>)
    requires
        paired(x1, y1),
        paired(x2, y2),
    ensures
        paired(x1 + x2, y1 + y2),
{
    assert forall|i: int| 0 <= i < (x1 + x2).len() implies alike(
        #[trigger] (x1 + x2)[i],
        (y1 + y2)[i],
    ) by {
        if i < x1.len() {
            assert(alike(x1[i], y1[i]));
        } else {
            assert(alike(x2[i - x1.len()], y2[i - x1.len()]));
        }
    }
}

proof fn lemma_rows_paired(limbs: nat, i: nat, from: nat, to: nat)
    ensures
        paired(
            rows(limbs, Buf::Operand, i, from, to),
            rows(limbs, Buf::Multiplier, i, from, to),
        ),
    decreases to,
{
    if to > from {
        lemma_rows_paired(limbs, i, from, (to - 1) as nat);
        lemma_paired_concat(
            rows(limbs, Buf::Operand, i, from, (to - 1) as nat),
            rows(limbs, Buf::Multiplier, i, from, (to - 1) as nat),
            row(limbs, Buf::Operand, i, (to - 1) as nat),
            row(limbs, Buf::Multiplier, i, (to - 1) as nat),
        );
    }
}

proof fn lemma_rows_same(limbs: nat, i: nat, from: nat, to: nat)
    ensures
        paired(rows(limbs, Buf::Modulus, i, from, to), rows(limbs, Buf::Modulus, i, from, to)),
    decreases to,
{
    if to > from {
        lemma_rows_same(limbs, i, from, (to - 1) as nat);
        lemma_paired_concat(
            rows(limbs, Buf::Modulus, i, from, (to - 1) as nat),
            rows(limbs, Buf::Modulus, i, from, (to - 1) as nat),
            row(limbs, Buf::Modulus, i, (to - 1) as nat),
            row(limbs, Buf::Modulus, i, (to - 1) as nat),
        );
    }
}

proof fn lemma_first_rows_paired(limbs: nat, n: nat)
    ensures
        paired(first_rows(limbs, Buf::Operand, n), first_rows(limbs, Buf::Multiplier, n)),
    decreases n,
{
    if n > 1 {
        lemma_first_rows_paired(limbs, (n - 1) as nat);
        lemma_paired_concat(
            first_rows(limbs, Buf::Operand, (n - 1) as nat),
            first_rows(limbs, Buf::Multiplier, (n - 1) as nat),
            first_row(limbs, Buf::Operand, (n - 1) as nat),
            first_row(limbs, Buf::Multiplier, (n - 1) as nat),
        );
    }
}

proof fn lemma_iterations_paired(limbs: nat, n: nat)
    ensures
        paired(iterations(limbs, Buf::Operand, n), iterations(limbs, Buf::Multiplier, n)),
    decreases n,
{
    if n > 0 {
        let i = (n - 1) as nat;
        lemma_iterations_paired(limbs, i);
        let last = (limbs - 1) as nat;
        if i == 0 {
            lemma_first_rows_paired(limbs, last);
            lemma_paired_concat(
                opening(Buf::Operand),
                opening(Buf::Multiplier),
                first_rows(limbs, Buf::Operand, last),
                first_rows(limbs, Buf::Multiplier, last),
            );
            lemma_paired_concat(
                opening(Buf::Operand) + first_rows(limbs, Buf::Operand, last),
                opening(Buf::Multiplier) + first_rows(limbs, Buf::Multiplier, last),
                first_close(limbs, Buf::Operand),
                first_close(limbs, Buf::Multiplier),
            );
        } else {
            let head = seq![Instr::Move { src: Src::Mem(Buf::Operand, i as usize), dst: Reg::Rdx }];
            lemma_rows_paired(limbs, i, 0, last);
            lemma_paired_concat(
                head,
                head,
                rows(limbs, Buf::Operand, i, 0, last),
                rows(limbs, Buf::Multiplier, i, 0, last),
            );
            lemma_paired_concat(
                head + rows(limbs, Buf::Operand, i, 0, last),
                head + rows(limbs, Buf::Multiplier, i, 0, last),
                multiply_close(limbs, Buf::Operand, i),
                multiply_close(limbs, Buf::Multiplier, i),
            );
        }
        lemma_rows_same(limbs, i, 1, last);
        lemma_paired_concat(
            reduce_open(limbs, i),
            reduce_open(limbs, i),
            rows(limbs, Buf::Modulus, i, 1, last),
            rows(limbs, Buf::Modulus, i, 1, last),
        );
        lemma_paired_concat(
            reduce_open(limbs, i) + rows(limbs, Buf::Modulus, i, 1, last),
            reduce_open(limbs, i) + rows(limbs, Buf::Modulus, i, 1, last),
            reduce_close(limbs, i),
            reduce_close(limbs, i),
        );
        lemma_paired_concat(
            iterations(limbs, Buf::Operand, i),
            iterations(limbs, Buf::Multiplier, i),
            multiply_pass(limbs, Buf::Operand, i),
            multiply_pass(limbs, Buf::Multiplier, i),
        );
        lemma_paired_concat(
            iterations(limbs, Buf::Operand, i) + multiply_pass(limbs, Buf::Operand, i),
            iterations(limbs, Buf::Multiplier, i) + multiply_pass(limbs, Buf::Multiplier, i),
            reduce_pass(limbs, i),
            reduce_pass(limbs, i),
        );
    }
}

proof fn lemma_write_out_agrees(s: MachineState, m: MachineState, n: nat)
    requires
        agree(s, m),
    ensures
        agree(s.run(write_out(n)), m.run(write_out(n))),
    decreases n,
{
    if n > 0 {
        lemma_write_out_agrees(s, m, (n - 1) as nat);
        let store = Instr::Store {
            reg: Reg::Acc((n - 1) as usize),
            buf: Buf::Operand,
            index: (n - 1) as usize,
        };
        lemma_run_push(s, write_out((n - 1) as nat), store);
        lemma_run_push(m, write_out((n - 1) as nat), store);
    }
}

/// The squaring procedure computes what the multiplication computes when
/// both factors are the same: whatever the operand, the modulus and the
/// inverse are, and whatever the second-factor buffer of the squaring
/// machine holds.
pub proof fn lemma_square_is_multiply(
    limbs: nat,
    a: Seq<u64>,
    b: Seq<u64>,
    modulus: Seq<u64>,
    inverse: u64,
)
    ensures
        computed(limbs, true, a, b, modulus, inverse) == computed(
            limbs,
            false,
            a,
            a,
            modulus,
            inverse,
        ),
{
    let s = MachineState::start(a, b, modulus, inverse, limbs, 0);
    let m = MachineState::start(a, a, modulus, inverse, limbs, 0);
    lemma_iterations_paired(limbs, limbs);
    lemma_run_paired(
        s,
        m,
        iterations(limbs, Buf::Operand, limbs),
        iterations(limbs, Buf::Multiplier, limbs),
    );
    let s1 = s.run(iterations(limbs, Buf::Operand, limbs));
    let m1 = m.run(iterations(limbs, Buf::Multiplier, limbs));
    lemma_write_out_agrees(s1, m1, limbs);
    lemma_run_concat(s, iterations(limbs, Buf::Operand, limbs), write_out(limbs));
    lemma_run_concat(m, iterations(limbs, Buf::Multiplier, limbs), write_out(limbs));
}

} // verus!
