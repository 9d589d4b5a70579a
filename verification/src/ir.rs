use vstd::prelude::*;

verus! {

/// A register of the generated procedure.
///
/// `Acc(k)` is accumulator `k`, written `%r{8 + k}` in assembly. Before
/// allocation `k` ranges over all limbs; afterwards only over the hardware
/// accumulators.
#[derive(Clone, Copy, Debug, PartialEq, Eq, Structural)]
pub enum Reg {
    Rax,
    Rbx,
    Rcx,
    Rdx,
    Acc(usize),
}

/// A word buffer that the procedure addresses.
#[derive(Clone, Copy, Debug, PartialEq, Eq, Structural)]
pub enum Buf {
    /// Operand `a`, which also receives the result.
    Operand,
    /// Operand `b`.
    Multiplier,
    /// The modulus.
    Modulus,
    /// Scratch words owned by the register allocator.
    Spill,
}

/// Where an instruction reads a word from.
#[derive(Clone, Copy, Debug, PartialEq, Eq, Structural)]
pub enum Src {
    Reg(Reg),
    /// Word `index` of a buffer.
    Mem(Buf, usize),
    /// The immediate zero.
    Zero,
    /// The immediate `-modulus^{-1} mod 2^64`.
    Inverse,
}

/// One instruction of a straight-line procedure.
#[derive(Clone, Copy, Debug, PartialEq, Eq, Structural)]
pub enum Instr {
    /// `dst := src`.
    Move { src: Src, dst: Reg },
    /// `buf[index] := reg`.
    Store { reg: Reg, buf: Buf, index: usize },
    /// `reg := 0`, and both carry flags are cleared.
    Clear { reg: Reg },
    /// `hi:lo := rdx * src`, flags untouched.
    Mulx { src: Src, lo: Reg, hi: Reg },
    /// `dst := dst + src + CF`, carry into `CF`.
    Adcx { src: Src, dst: Reg },
    /// `dst := dst + src + OF`, carry into `OF`.
    Adox { src: Src, dst: Reg },
}

impl Reg {
    /// Whether the register is accumulator `k`.
    pub open spec fn is_acc(self, k: nat) -> bool {
        self == Reg::Acc(k as usize) && k <= usize::MAX
    }

    /// Whether the register is a scratch register or an accumulator below `n`.
    pub open spec fn within(self, n: nat) -> bool {
        match self {
            Reg::Acc(k) => k < n,
            _ => true,
        }
    }
}

impl Src {
    /// Whether the source exists in a procedure for `limbs` limbs before
    /// allocation: an accumulator or a buffer word below the limb count, and
    /// no word of the spill area.
    pub open spec fn fits(self, limbs: nat) -> bool {
        match self {
            Src::Reg(r) => r.within(limbs),
            Src::Mem(buf, index) => buf != Buf::Spill && index < limbs,
            _ => true,
        }
    }

    /// Whether the source exists on a machine with `registers` accumulators,
    /// operand buffers of `words` words and `spill` scratch words.
    pub open spec fn runs_on(self, registers: nat, words: nat, spill: nat) -> bool {
        match self {
            Src::Reg(r) => r.within(registers),
            Src::Mem(Buf::Spill, index) => index < spill,
            Src::Mem(_, index) => index < words,
            _ => true,
        }
    }

    /// Whether the source is accumulator `k`.
    pub open spec fn is_acc(self, k: nat) -> bool {
        match self {
            Src::Reg(r) => r.is_acc(k),
            _ => false,
        }
    }

    /// Whether the source reads word `index` of `buf`.
    pub open spec fn reads(self, buf: Buf, index: nat) -> bool {
        self == Src::Mem(buf, index as usize) && index <= usize::MAX
    }
}

impl Instr {
    /// Whether the instruction can stand in a procedure for `limbs` limbs
    /// before allocation: every accumulator and every buffer word that it
    /// names lies below the limb count, and it leaves the spill area alone.
    pub open spec fn fits(self, limbs: nat) -> bool {
        match self {
            Instr::Move { src, dst } => src.fits(limbs) && dst.within(limbs),
            Instr::Store { reg, buf, index } => reg.within(limbs) && buf != Buf::Spill && index
                < limbs,
            Instr::Clear { reg } => reg.within(limbs),
            Instr::Mulx { src, lo, hi } => src.fits(limbs) && lo.within(limbs) && hi.within(limbs),
            Instr::Adcx { src, dst } => src.fits(limbs) && dst.within(limbs),
            Instr::Adox { src, dst } => src.fits(limbs) && dst.within(limbs),
        }
    }

    /// Whether the instruction can be carried out on a machine with
    /// `registers` accumulators, operand buffers of `words` words and
    /// `spill` scratch words.
    pub open spec fn runs_on(self, registers: nat, words: nat, spill: nat) -> bool {
        match self {
            Instr::Move { src, dst } => src.runs_on(registers, words, spill) && dst.within(
                registers,
            ),
            Instr::Store { reg, buf, index } => reg.within(registers) && (if buf == Buf::Spill {
                index < spill
            } else {
                index < words
            }),
            Instr::Clear { reg } => reg.within(registers),
            Instr::Mulx { src, lo, hi } => src.runs_on(registers, words, spill) && lo.within(
                registers,
            ) && hi.within(registers),
            Instr::Adcx { src, dst } => src.runs_on(registers, words, spill) && dst.within(
                registers,
            ),
            Instr::Adox { src, dst } => src.runs_on(registers, words, spill) && dst.within(
                registers,
            ),
        }
    }

    /// Whether the instruction names accumulator `k`.
    pub open spec fn mentions(self, k: nat) -> bool {
        match self {
            Instr::Move { src, dst } => src.is_acc(k) || dst.is_acc(k),
            Instr::Store { reg, .. } => reg.is_acc(k),
            Instr::Clear { reg } => reg.is_acc(k),
            Instr::Mulx { src, lo, hi } => src.is_acc(k) || lo.is_acc(k) || hi.is_acc(k),
            Instr::Adcx { src, dst } => src.is_acc(k) || dst.is_acc(k),
            Instr::Adox { src, dst } => src.is_acc(k) || dst.is_acc(k),
        }
    }

    /// Whether the instruction reads or writes word `index` of `buf`.
    pub open spec fn touches(self, buf: Buf, index: nat) -> bool {
        match self {
            Instr::Move { src, .. } => src.reads(buf, index),
            Instr::Store { buf: b, index: i, .. } => b == buf && i == index,
            Instr::Mulx { src, .. } => src.reads(buf, index),
            Instr::Adcx { src, .. } => src.reads(buf, index),
            Instr::Adox { src, .. } => src.reads(buf, index),
            Instr::Clear { .. } => false,
        }
    }
}

/// Whether every instruction of `code` can be carried out on a machine with
/// `registers` accumulators, operand buffers of `words` words and `spill`
/// scratch words.
pub open spec fn all_run_on(code: Seq<Instr>, registers: nat, words: nat, spill: nat) -> bool {
    forall|i: int| 0 <= i < code.len() ==> (#[trigger] code[i]).runs_on(registers, words, spill)
}

/// An instruction that fits a limb count can be carried out with an
/// accumulator for every limb and no scratch words.
pub proof fn lemma_fits_runs(instr: Instr, limbs: nat)
    requires
        instr.fits(limbs),
    ensures
        instr.runs_on(limbs, limbs, 0),
{
}

} // verus!
