use vstd::prelude::*;
use crate::ir::Buf;
use crate::ir::Instr;
use crate::ir::Reg;
use crate::ir::Src;

verus! {

/// The number of values of a machine word, `2^64`.
pub open spec fn word() -> int {
    0x1_0000_0000_0000_0000
}

/// The state of the register machine, as a mathematical value.
pub struct MachineState {
    pub rax: u64,
    pub rbx: u64,
    pub rcx: u64,
    pub rdx: u64,
    pub acc: Seq<u64>,
    pub cf: bool,
    pub of: bool,
    pub operand: Seq<u64>,
    pub multiplier: Seq<u64>,
    pub modulus: Seq<u64>,
    pub spill: Seq<u64>,
    pub inverse: u64,
}

/// The low word of `x * y`.
pub open spec fn mul_lo(x: u64, y: u64) -> u64 {
    ((x * y) % word()) as u64
}

/// The high word of `x * y`.
pub open spec fn mul_hi(x: u64, y: u64) -> u64 {
    ((x * y) / word()) as u64
}

/// One for a set carry flag, zero for a clear one.
pub open spec fn bit(c: bool) -> int {
    if c {
        1
    } else {
        0
    }
}

/// The word that an add-with-carry leaves in its destination.
pub open spec fn sum_word(x: u64, y: u64, c: bool) -> u64 {
    ((x + y + bit(c)) % word()) as u64
}

/// The carry that an add-with-carry leaves in its flag.
pub open spec fn sum_carry(x: u64, y: u64, c: bool) -> bool {
    x + y + bit(c) >= word()
}

impl MachineState {
    /// The machine before the first instruction: registers, flags and spill
    /// area cleared, the three operand buffers as given.
    pub open spec fn start(
        operand: Seq<u64>,
        multiplier: Seq<u64>,
        modulus: Seq<u64>,
        inverse: u64,
        registers: nat,
        spill_words: nat,
    ) -> MachineState {
        MachineState {
            rax: 0,
            rbx: 0,
            rcx: 0,
            rdx: 0,
            acc: Seq::new(registers, |i: int| 0u64),
            cf: false,
            of: false,
            operand,
            multiplier,
            modulus,
            spill: Seq::new(spill_words, |i: int| 0u64),
            inverse,
        }
    }

    pub open spec fn buffer(self, buf: Buf) -> Seq<u64> {
        match buf {
            Buf::Operand => self.operand,
            Buf::Multiplier => self.multiplier,
            Buf::Modulus => self.modulus,
            Buf::Spill => self.spill,
        }
    }

    pub open spec fn reg(self, r: Reg) -> u64 {
        match r {
            Reg::Rax => self.rax,
            Reg::Rbx => self.rbx,
            Reg::Rcx => self.rcx,
            Reg::Rdx => self.rdx,
            Reg::Acc(k) => self.acc[k as int],
        }
    }

    pub open spec fn src(self, s: Src) -> u64 {
        match s {
            Src::Reg(r) => self.reg(r),
            Src::Mem(buf, index) => self.buffer(buf)[index as int],
            Src::Zero => 0,
            Src::Inverse => self.inverse,
        }
    }

    pub open spec fn set_reg(self, r: Reg, v: u64) -> MachineState {
        match r {
            Reg::Rax => MachineState { rax: v, ..self },
            Reg::Rbx => MachineState { rbx: v, ..self },
            Reg::Rcx => MachineState { rcx: v, ..self },
            Reg::Rdx => MachineState { rdx: v, ..self },
            Reg::Acc(k) => MachineState { acc: self.acc.update(k as int, v), ..self },
        }
    }

    pub open spec fn set_word(self, buf: Buf, index: int, v: u64) -> MachineState {
        match buf {
            Buf::Operand => MachineState { operand: self.operand.update(index, v), ..self },
            Buf::Multiplier => MachineState {
                multiplier: self.multiplier.update(index, v),
                ..self
            },
            Buf::Modulus => MachineState { modulus: self.modulus.update(index, v), ..self },
            Buf::Spill => MachineState { spill: self.spill.update(index, v), ..self },
        }
    }

    /// Whether register `r` exists in this machine.
    pub open spec fn has_reg(self, r: Reg) -> bool {
        r.within(self.acc.len())
    }

    /// Whether the source can be read in this machine.
    pub open spec fn has_src(self, s: Src) -> bool {
        match s {
            Src::Reg(r) => self.has_reg(r),
            Src::Mem(buf, index) => index < self.buffer(buf).len(),
            _ => true,
        }
    }

    /// Whether the machine can carry the instruction out: every register and
    /// every buffer word that it names exists.
    pub open spec fn admits(self, instr: Instr) -> bool {
        match instr {
            Instr::Move { src, dst } => self.has_src(src) && self.has_reg(dst),
            Instr::Store { reg, buf, index } => self.has_reg(reg) && index < self.buffer(buf).len(),
            Instr::Clear { reg } => self.has_reg(reg),
            Instr::Mulx { src, lo, hi } => self.has_src(src) && self.has_reg(lo) && self.has_reg(
                hi,
            ),
            Instr::Adcx { src, dst } => self.has_src(src) && self.has_reg(dst),
            Instr::Adox { src, dst } => self.has_src(src) && self.has_reg(dst),
        }
    }

    /// The machine after one instruction.
    pub open spec fn step(self, instr: Instr) -> MachineState {
        match instr {
            Instr::Move { src, dst } => self.set_reg(dst, self.src(src)),
            Instr::Store { reg, buf, index } => self.set_word(buf, index as int, self.reg(reg)),
            Instr::Clear { reg } => MachineState { cf: false, of: false, ..self.set_reg(reg, 0) },
            Instr::Mulx { src, lo, hi } => {
                let x = self.src(src);
                self.set_reg(lo, mul_lo(self.rdx, x)).set_reg(hi, mul_hi(self.rdx, x))
            },
            Instr::Adcx { src, dst } => {
                let x = self.src(src);
                let y = self.reg(dst);
                MachineState {
                    cf: sum_carry(y, x, self.cf),
                    ..self.set_reg(dst, sum_word(y, x, self.cf))
                }
            },
            Instr::Adox { src, dst } => {
                let x = self.src(src);
                let y = self.reg(dst);
                MachineState {
                    of: sum_carry(y, x, self.of),
                    ..self.set_reg(dst, sum_word(y, x, self.of))
                }
            },
        }
    }

    /// The machine after the instructions of `code`, in order.
    pub open spec fn run(self, code: Seq<Instr>) -> MachineState
        decreases code.len(),
    {
        if code.len() == 0 {
            self
        } else {
            self.run(code.drop_last()).step(code.last())
        }
    }

    /// Whether the machine can carry out every instruction of `code`.
    pub open spec fn admits_all(self, code: Seq<Instr>) -> bool {
        forall|i: int| 0 <= i < code.len() ==> self.admits(#[trigger] code[i])
    }

    /// Whether two machines have the same registers and buffers in number and size.
    pub open spec fn same_shape(self, other: MachineState) -> bool {
        &&& self.acc.len() == other.acc.len()
        &&& self.operand.len() == other.operand.len()
        &&& self.multiplier.len() == other.multiplier.len()
        &&& self.modulus.len() == other.modulus.len()
        &&& self.spill.len() == other.spill.len()
    }
}

/// A machine admits the instructions that can be carried out with its
/// number of accumulators and the sizes of its buffers.
pub proof fn lemma_admits_runs_on(s: MachineState, instr: Instr, words: nat)
    requires
        s.operand.len() == words,
        s.multiplier.len() == words,
        s.modulus.len() == words,
    ensures
        s.admits(instr) == instr.runs_on(s.acc.len(), words, s.spill.len()),
{
}

/// What a machine admits depends on its sizes alone.
pub proof fn lemma_admits_by_shape(s: MachineState, t: MachineState, instr: Instr)
    requires
        s.same_shape(t),
    ensures
        s.admits(instr) == t.admits(instr),
{
    match instr {
        Instr::Move { src, dst } => {
            lemma_has_src_by_shape(s, t, src);
        },
        Instr::Store { reg, buf, index } => {},
        Instr::Clear { reg } => {},
        Instr::Mulx { src, lo, hi } => {
            lemma_has_src_by_shape(s, t, src);
        },
        Instr::Adcx { src, dst } => {
            lemma_has_src_by_shape(s, t, src);
        },
        Instr::Adox { src, dst } => {
            lemma_has_src_by_shape(s, t, src);
        },
    }
}

proof fn lemma_has_src_by_shape(s: MachineState, t: MachineState, src: Src)
    requires
        s.same_shape(t),
    ensures
        s.has_src(src) == t.has_src(src),
{
}

proof fn lemma_set_reg_shape(s: MachineState, r: Reg, v: u64)
    requires
        s.has_reg(r),
    ensures
        s.set_reg(r, v).same_shape(s),
        s.set_reg(r, v).inverse == s.inverse,
{
}

/// An instruction that the machine admits changes no size.
pub proof fn lemma_step_shape(s: MachineState, instr: Instr)
    requires
        s.admits(instr),
    ensures
        s.step(instr).same_shape(s),
        s.step(instr).inverse == s.inverse,
{
    match instr {
        Instr::Move { src, dst } => {
            lemma_set_reg_shape(s, dst, s.src(src));
        },
        Instr::Store { reg, buf, index } => {},
        Instr::Clear { reg } => {
            lemma_set_reg_shape(s, reg, 0);
        },
        Instr::Mulx { src, lo, hi } => {
            let x = s.src(src);
            lemma_set_reg_shape(s, lo, mul_lo(s.rdx, x));
            lemma_set_reg_shape(s.set_reg(lo, mul_lo(s.rdx, x)), hi, mul_hi(s.rdx, x));
        },
        Instr::Adcx { src, dst } => {
            lemma_set_reg_shape(s, dst, sum_word(s.reg(dst), s.src(src), s.cf));
        },
        Instr::Adox { src, dst } => {
            lemma_set_reg_shape(s, dst, sum_word(s.reg(dst), s.src(src), s.of));
        },
    }
}

/// Running admitted code changes no size.
pub proof fn lemma_run_shape(s: MachineState, code: Seq<Instr>)
    requires
        s.admits_all(code),
    ensures
        s.run(code).same_shape(s),
        s.run(code).inverse == s.inverse,
    decreases code.len(),
{
    if code.len() > 0 {
        let front = code.drop_last();
        assert forall|i: int| 0 <= i < front.len() implies s.admits(#[trigger] front[i]) by {
            assert(front[i] == code[i]);
        }
        lemma_run_shape(s, front);
        assert(s.admits(code[code.len() - 1]));
        lemma_admits_by_shape(s, s.run(front), code.last());
        lemma_step_shape(s.run(front), code.last());
    }
}

/// Running two pieces of code one after the other is running their
/// concatenation.
pub proof fn lemma_run_concat(s: MachineState, first: Seq<Instr>, second: Seq<Instr>)
    ensures
        s.run(first + second) == s.run(first).run(second),
    decreases second.len(),
{
    if second.len() == 0 {
        assert(first + second =~= first);
    } else {
        assert((first + second).drop_last() =~= first + second.drop_last());
        assert((first + second).last() == second.last());
        lemma_run_concat(s, first, second.drop_last());
    }
}

/// Running a single instruction is one step.
pub proof fn lemma_run_one(s: MachineState, instr: Instr)
    ensures
        s.run(seq![instr]) == s.step(instr),
{
    let code = seq![instr];
    assert(code.drop_last() =~= Seq::<Instr>::empty());
    assert(code.last() == instr);
    assert(s.run(code.drop_last()) == s);
}

/// Running a prefix that is one instruction longer is one more step.
pub proof fn lemma_run_take(s: MachineState, code: Seq<Instr>, n: int)
    requires
        0 <= n < code.len(),
    ensures
        s.run(code.take(n + 1)) == s.run(code.take(n)).step(code[n]),
{
    assert(code.take(n + 1).drop_last() =~= code.take(n));
}

} // verus!
