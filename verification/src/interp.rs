use vstd::prelude::*;
use crate::ir::Buf;
use crate::ir::Instr;
use crate::ir::Reg;
use crate::ir::Src;
use crate::machine::lemma_admits_by_shape;
use crate::machine::lemma_run_shape;
use crate::machine::lemma_run_take;
use crate::machine::MachineState;
use crate::machine::mul_hi;
use crate::machine::mul_lo;
use crate::machine::sum_carry;
use crate::machine::sum_word;
use crate::machine::word;

verus! {

/// The full product of two words, low word first.
pub fn mul_wide(x: u64, y: u64) -> (r: (u64, u64))
    ensures
        r.0 == mul_lo(x, y),
        r.1 == mul_hi(x, y),
{
    assert(x * y <= 0xffff_ffff_ffff_ffff * 0xffff_ffff_ffff_ffff) by (nonlinear_arith)
        requires
            0 <= x <= 0xffff_ffff_ffff_ffff,
            0 <= y <= 0xffff_ffff_ffff_ffff,
    ;
    let p: u128 = (x as u128) * (y as u128);
    let lo: u128 = p % 0x1_0000_0000_0000_0000u128;
    let hi: u128 = p / 0x1_0000_0000_0000_0000u128;
    (lo as u64, hi as u64)
}

/// The sum of two words and a carry, with the carry out of it.
pub fn add_carry(x: u64, y: u64, c: bool) -> (r: (u64, bool))
    ensures
        r.0 == sum_word(x, y, c),
        r.1 == sum_carry(x, y, c),
{
    let cin: u128 = if c { 1 } else { 0 };
    let s: u128 = (x as u128) + (y as u128) + cin;
    let lo: u128 = s % 0x1_0000_0000_0000_0000u128;
    (lo as u64, s >= 0x1_0000_0000_0000_0000u128)
}

/// A vector of `n` zero words.
pub fn zeros(n: usize) -> (v: Vec<u64>)
    ensures
        v@ == Seq::new(n as nat, |i: int| 0u64),
{
    let mut v: Vec<u64> = Vec::new();
    let mut i: usize = 0;
    while i < n
        invariant
            i <= n,
            v.len() == i,
            forall|j: int| 0 <= j < i ==> v[j] == 0,
        decreases n - i,
    {
        v.push(0);
        i += 1;
    }
    assert(v@ =~= Seq::new(n as nat, |i: int| 0u64));
    v
}

/// A register machine that carries out straight-line procedures.
pub struct Machine {
    pub rax: u64,
    pub rbx: u64,
    pub rcx: u64,
    pub rdx: u64,
    pub acc: Vec<u64>,
    pub cf: bool,
    pub of: bool,
    pub operand: Vec<u64>,
    pub multiplier: Vec<u64>,
    pub modulus: Vec<u64>,
    pub spill: Vec<u64>,
    pub inverse: u64,
}

impl View for Machine {
    type V = MachineState;

    open spec fn view(&self) -> MachineState {
        MachineState {
            rax: self.rax,
            rbx: self.rbx,
            rcx: self.rcx,
            rdx: self.rdx,
            acc: self.acc@,
            cf: self.cf,
            of: self.of,
            operand: self.operand@,
            multiplier: self.multiplier@,
            modulus: self.modulus@,
            spill: self.spill@,
            inverse: self.inverse,
        }
    }
}

impl Machine {
    /// A machine with cleared registers, flags and spill area.
    pub fn new(
        operand: Vec<u64>,
        multiplier: Vec<u64>,
        modulus: Vec<u64>,
        inverse: u64,
        registers: usize,
        spill_words: usize,
    ) -> (m: Machine)
        ensures
            m@ == MachineState::start(
                operand@,
                multiplier@,
                modulus@,
                inverse,
                registers as nat,
                spill_words as nat,
            ),
    {
        Machine {
            rax: 0,
            rbx: 0,
            rcx: 0,
            rdx: 0,
            acc: zeros(registers),
            cf: false,
            of: false,
            operand,
            multiplier,
            modulus,
            spill: zeros(spill_words),
            inverse,
        }
    }

    fn has_reg(&self, r: Reg) -> (b: bool)
        ensures
            b == self@.has_reg(r),
    {
        match r {
            Reg::Acc(k) => k < self.acc.len(),
            _ => true,
        }
    }

    fn buffer_len(&self, buf: Buf) -> (n: usize)
        ensures
            n == self@.buffer(buf).len(),
    {
        match buf {
            Buf::Operand => self.operand.len(),
            Buf::Multiplier => self.multiplier.len(),
            Buf::Modulus => self.modulus.len(),
            Buf::Spill => self.spill.len(),
        }
    }

    fn has_src(&self, s: Src) -> (b: bool)
        ensures
            b == self@.has_src(s),
    {
        match s {
            Src::Reg(r) => self.has_reg(r),
            Src::Mem(buf, index) => index < self.buffer_len(buf),
            _ => true,
        }
    }

    /// Whether the machine can carry the instruction out.
    pub fn admits(&self, instr: Instr) -> (b: bool)
        ensures
            b == self@.admits(instr),
    {
        match instr {
            Instr::Move { src, dst } => self.has_src(src) && self.has_reg(dst),
            Instr::Store { reg, buf, index } => self.has_reg(reg) && index < self.buffer_len(buf),
            Instr::Clear { reg } => self.has_reg(reg),
            Instr::Mulx { src, lo, hi } => self.has_src(src) && self.has_reg(lo) && self.has_reg(
                hi,
            ),
            Instr::Adcx { src, dst } => self.has_src(src) && self.has_reg(dst),
            Instr::Adox { src, dst } => self.has_src(src) && self.has_reg(dst),
        }
    }

    fn reg(&self, r: Reg) -> (v: u64)
        requires
            self@.has_reg(r),
        ensures
            v == self@.reg(r),
    {
        match r {
            Reg::Rax => self.rax,
            Reg::Rbx => self.rbx,
            Reg::Rcx => self.rcx,
            Reg::Rdx => self.rdx,
            Reg::Acc(k) => self.acc[k],
        }
    }

    fn src(&self, s: Src) -> (v: u64)
        requires
            self@.has_src(s),
        ensures
            v == self@.src(s),
    {
        match s {
            Src::Reg(r) => self.reg(r),
            Src::Mem(buf, index) => match buf {
                Buf::Operand => self.operand[index],
                Buf::Multiplier => self.multiplier[index],
                Buf::Modulus => self.modulus[index],
                Buf::Spill => self.spill[index],
            },
            Src::Zero => 0,
            Src::Inverse => self.inverse,
        }
    }

    fn set_reg(&mut self, r: Reg, v: u64)
        requires
            old(self)@.has_reg(r),
        ensures
            final(self)@ == old(self)@.set_reg(r, v),
    {
        match r {
            Reg::Rax => {
                self.rax = v;
            },
            Reg::Rbx => {
                self.rbx = v;
            },
            Reg::Rcx => {
                self.rcx = v;
            },
            Reg::Rdx => {
                self.rdx = v;
            },
            Reg::Acc(k) => {
                self.acc.set(k, v);
            },
        }
    }

    fn set_word(&mut self, buf: Buf, index: usize, v: u64)
        requires
            index < old(self)@.buffer(buf).len(),
        ensures
            final(self)@ == old(self)@.set_word(buf, index as int, v),
    {
        match buf {
            Buf::Operand => {
                self.operand.set(index, v);
            },
            Buf::Multiplier => {
                self.multiplier.set(index, v);
            },
            Buf::Modulus => {
                self.modulus.set(index, v);
            },
            Buf::Spill => {
                self.spill.set(index, v);
            },
        }
    }

    /// Carries one instruction out.
    pub fn step(&mut self, instr: Instr)
        requires
            old(self)@.admits(instr),
        ensures
            final(self)@ == old(self)@.step(instr),
    {
        match instr {
            Instr::Move { src, dst } => {
                let v: u64 = self.src(src);
                self.set_reg(dst, v);
            },
            Instr::Store { reg, buf, index } => {
                let v: u64 = self.reg(reg);
                self.set_word(buf, index, v);
            },
            Instr::Clear { reg } => {
                self.set_reg(reg, 0);
                self.cf = false;
                self.of = false;
            },
            Instr::Mulx { src, lo, hi } => {
                let x: u64 = self.src(src);
                let (l, h) = mul_wide(self.rdx, x);
                self.set_reg(lo, l);
                self.set_reg(hi, h);
            },
            Instr::Adcx { src, dst } => {
                let x: u64 = self.src(src);
                let y: u64 = self.reg(dst);
                let (s, c) = add_carry(y, x, self.cf);
                self.set_reg(dst, s);
                self.cf = c;
            },
            Instr::Adox { src, dst } => {
                let x: u64 = self.src(src);
                let y: u64 = self.reg(dst);
                let (s, c) = add_carry(y, x, self.of);
                self.set_reg(dst, s);
                self.of = c;
            },
        }
    }

    /// Carries out `code` in order. Stops before the first instruction that
    /// names a register or a buffer word that the machine does not have, and
    /// returns its position.
    pub fn run(&mut self, code: &Vec<Instr>) -> (r: Result<(), usize>)
        ensures
            r is Ok <==> old(self)@.admits_all(code@),
            r is Ok ==> final(self)@ == old(self)@.run(code@),
            r matches Err(p) ==> {
                &&& p < code.len()
                &&& !old(self)@.admits(code[p as int])
                &&& old(self)@.admits_all(code@.take(p as int))
                &&& final(self)@ == old(self)@.run(code@.take(p as int))
            },
    {
        let ghost start = self@;
        let mut p: usize = 0;
        while p < code.len()
            invariant
                p <= code.len(),
                start == old(self)@,
                start.admits_all(code@.take(p as int)),
                self@ == start.run(code@.take(p as int)),
            decreases code.len() - p,
        {
            let instr: Instr = code[p];
            proof {
                lemma_run_shape(start, code@.take(p as int));
                lemma_admits_by_shape(start, self@, instr);
            }
            if !self.admits(instr) {
                assert(!start.admits(code@[p as int]));
                return Err(p);
            }
            self.step(instr);
            proof {
                lemma_run_take(start, code@, p as int);
                assert forall|i: int| 0 <= i < p + 1 implies start.admits(
                    #[trigger] code@.take(p + 1)[i],
                ) by {
                    if i < p {
                        assert(code@.take(p as int)[i] == code@[i]);
                    }
                }
            }
            p += 1;
        }
        assert(code@.take(p as int) =~= code@);
        Ok(())
    }
}

} // verus!
