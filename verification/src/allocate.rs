use vstd::prelude::*;
use crate::fidelity::faithful;
use crate::fidelity::lemma_allocation_faithful;
use crate::ir::all_run_on;
use crate::ir::Buf;
use crate::ir::Instr;
use crate::ir::Reg;
use crate::ir::Src;
use crate::limits::check_limbs;
use crate::limits::GenerationError;
use crate::limits::limb_verdict;
use crate::limits::MAX_LIMBS;
use crate::limits::MAX_REGS;
use crate::limits::supported;
use crate::registers::assign_homes;
use crate::registers::home_register;
use crate::registers::Homes;
use crate::registers::lemma_shared_home;
use crate::registers::spill_slot;
use crate::registers::spill_words;

verus! {

/// `seen`, with the register added if it is an accumulator that `seen` lacks.
pub open spec fn note(seen: Seq<usize>, r: Reg) -> Seq<usize> {
    match r {
        Reg::Acc(k) => if seen.contains(k) {
            seen
        } else {
            seen.push(k)
        },
        _ => seen,
    }
}

/// `seen`, with the source added if it is an accumulator that `seen` lacks.
pub open spec fn note_src(seen: Seq<usize>, s: Src) -> Seq<usize> {
    match s {
        Src::Reg(r) => note(seen, r),
        _ => seen,
    }
}

/// The accumulators that an instruction names, each once, in the order in
/// which the instruction names them.
pub open spec fn accs(instr: Instr) -> Seq<usize> {
    match instr {
        Instr::Move { src, dst } => note(note_src(Seq::empty(), src), dst),
        Instr::Store { reg, .. } => note(Seq::empty(), reg),
        Instr::Clear { reg } => note(Seq::empty(), reg),
        Instr::Mulx { src, lo, hi } => note(note(note_src(Seq::empty(), src), lo), hi),
        Instr::Adcx { src, dst } => note(note_src(Seq::empty(), src), dst),
        Instr::Adox { src, dst } => note(note_src(Seq::empty(), src), dst),
    }
}

/// Whether two of up to three accumulators share a hardware register.
pub open spec fn conflicting(ks: Seq<usize>, limbs: nat) -> bool {
    ||| ks.len() >= 2 && home_register(limbs, ks[0] as nat) == home_register(limbs, ks[1] as nat)
    ||| ks.len() >= 3 && home_register(limbs, ks[0] as nat) == home_register(limbs, ks[2] as nat)
    ||| ks.len() >= 3 && home_register(limbs, ks[1] as nat) == home_register(limbs, ks[2] as nat)
}

/// Whether the allocator refuses the instruction: it does not fit the limb
/// count, or it names two accumulators that share a hardware register.
pub open spec fn faulty(instr: Instr, limbs: nat) -> bool {
    !instr.fits(limbs) || conflicting(accs(instr), limbs)
}

/// Whether the allocator accepts every instruction of `code`.
pub open spec fn sound(code: Seq<Instr>, limbs: nat) -> bool {
    forall|i: int| 0 <= i < code.len() ==> !faulty(#[trigger] code[i], limbs)
}

/// The register with an accumulator replaced by its hardware accumulator.
pub open spec fn home_reg(r: Reg, limbs: nat) -> Reg {
    match r {
        Reg::Acc(k) => Reg::Acc(home_register(limbs, k as nat) as usize),
        _ => r,
    }
}

/// The source with an accumulator replaced by its hardware accumulator.
pub open spec fn home_src(s: Src, limbs: nat) -> Src {
    match s {
        Src::Reg(r) => Src::Reg(home_reg(r, limbs)),
        _ => s,
    }
}

/// The instruction with every accumulator replaced by its hardware
/// accumulator.
pub open spec fn rehomed(instr: Instr, limbs: nat) -> Instr {
    match instr {
        Instr::Move { src, dst } => Instr::Move {
            src: home_src(src, limbs),
            dst: home_reg(dst, limbs),
        },
        Instr::Store { reg, buf, index } => Instr::Store { reg: home_reg(reg, limbs), buf, index },
        Instr::Clear { reg } => Instr::Clear { reg: home_reg(reg, limbs) },
        Instr::Mulx { src, lo, hi } => Instr::Mulx {
            src: home_src(src, limbs),
            lo: home_reg(lo, limbs),
            hi: home_reg(hi, limbs),
        },
        Instr::Adcx { src, dst } => Instr::Adcx {
            src: home_src(src, limbs),
            dst: home_reg(dst, limbs),
        },
        Instr::Adox { src, dst } => Instr::Adox {
            src: home_src(src, limbs),
            dst: home_reg(dst, limbs),
        },
    }
}

/// The first of `ks[from..]` whose hardware accumulator is `h`.
pub open spec fn sharing_from(ks: Seq<usize>, limbs: nat, h: nat, from: int) -> Option<usize>
    decreases ks.len() - from,
{
    if from < 0 || from >= ks.len() {
        None
    } else if home_register(limbs, ks[from] as nat) == h {
        Some(ks[from])
    } else {
        sharing_from(ks, limbs, h, from + 1)
    }
}

/// The accumulator with hardware accumulator `h` that `code[from..]` names
/// first.
pub open spec fn next_use(code: Seq<Instr>, limbs: nat, h: nat, from: int) -> Option<usize>
    decreases code.len() - from,
{
    if from < 0 || from >= code.len() {
        None
    } else {
        match sharing_from(accs(code[from]), limbs, h, 0) {
            Some(k) => Some(k),
            None => next_use(code, limbs, h, from + 1),
        }
    }
}

/// The first position at or after `from` whose instruction names
/// accumulator `k`.
pub open spec fn next_mention(code: Seq<Instr>, k: nat, from: int) -> Option<int>
    decreases code.len() - from,
{
    if from < 0 || from >= code.len() {
        None
    } else if code[from].mentions(k) {
        Some(from)
    } else {
        next_mention(code, k, from + 1)
    }
}

/// Whether no instruction of `code[from..to]` reads or writes word `k` of
/// the result buffer.
pub open spec fn untouched(code: Seq<Instr>, k: nat, from: int, to: int) -> bool {
    forall|q: int| from <= q < to && 0 <= q < code.len() ==> !(#[trigger] code[q]).touches(
        Buf::Operand,
        k,
    )
}

/// The store that writes accumulator `k` to its word of the result.
pub open spec fn write_out_of(k: nat) -> Instr {
    Instr::Store { reg: Reg::Acc(k as usize), buf: Buf::Operand, index: k as usize }
}

/// The position of the store of accumulator `k` that can be carried out
/// right after position `p` instead: the next instruction that names `k` is
/// that store, it is the last one to name `k`, and nothing before it touches
/// the word it writes.
pub open spec fn write_ahead(code: Seq<Instr>, k: nat, p: int) -> Option<usize> {
    match next_mention(code, k, p + 1) {
        Some(w) => if code[w] == write_out_of(k) && next_mention(code, k, w + 1) is None
            && untouched(code, k, p + 1, w) {
            Some(w as usize)
        } else {
            None
        },
        None => None,
    }
}

/// Whether a store was carried out ahead whose place is position `p`.
pub open spec fn due(pending: Option<usize>, p: int) -> bool {
    match pending {
        Some(w) => w == p,
        None => false,
    }
}

/// What the allocator has decided after a prefix of the procedure.
pub struct Plan {
    /// The instructions written so far.
    pub out: Seq<Instr>,
    /// For each hardware accumulator, the accumulator that it holds.
    pub resident: Seq<usize>,
    /// For each accumulator, the position of its write-out store if that
    /// store has been carried out ahead of its place.
    pub pending: Seq<Option<usize>>,
}

impl Plan {
    /// The plan before the first instruction: every hardware accumulator
    /// holds the accumulator of its own number.
    pub open spec fn initial(limbs: nat) -> Plan {
        Plan {
            out: Seq::empty(),
            resident: Seq::new(MAX_REGS as nat, |h: int| h as usize),
            pending: Seq::new(limbs, |k: int| None),
        }
    }

    /// Whether the tables have their sizes and every hardware accumulator
    /// holds one of its own accumulators.
    pub open spec fn shaped(self, limbs: nat) -> bool {
        &&& self.resident.len() == MAX_REGS
        &&& self.pending.len() == limbs
        &&& forall|h: int|
            0 <= h < MAX_REGS ==> (#[trigger] self.resident[h]) < limbs && home_register(
                limbs,
                self.resident[h] as nat,
            ) == h
    }

    pub open spec fn emit(self, instr: Instr) -> Plan {
        Plan { out: self.out.push(instr), ..self }
    }

    /// Brings accumulator `k` into its hardware accumulator if another one
    /// is there: that one goes to its scratch word, `k` comes from its own.
    pub open spec fn swap_in(self, limbs: nat, k: usize) -> Plan {
        let h = home_register(limbs, k as nat);
        let r = self.resident[h as int];
        if r == k {
            self
        } else {
            Plan {
                resident: self.resident.update(h as int, k),
                ..self.emit(
                    Instr::Store {
                        reg: Reg::Acc(h as usize),
                        buf: Buf::Spill,
                        index: spill_slot(limbs, r as nat) as usize,
                    },
                ).emit(
                    Instr::Move {
                        src: Src::Mem(Buf::Spill, spill_slot(limbs, k as nat) as usize),
                        dst: Reg::Acc(h as usize),
                    },
                )
            }
        }
    }

    /// Brings the first `n` of the accumulators `ks` into their registers.
    pub open spec fn swap_in_all(self, limbs: nat, ks: Seq<usize>, n: nat) -> Plan
        decreases n,
    {
        if n == 0 {
            self
        } else {
            self.swap_in_all(limbs, ks, (n - 1) as nat).swap_in(limbs, ks[n - 1])
        }
    }

    /// Makes room after the instruction at `p` has used accumulator `k`: if
    /// the accumulator that its hardware register is needed for next is
    /// another one, `k` is put away, to its word of the result where its
    /// write-out store can be carried out ahead, else to its scratch word,
    /// and the other one is fetched unless it has been written out already.
    pub open spec fn settle(self, code: Seq<Instr>, limbs: nat, p: int, k: usize) -> Plan {
        let h = home_register(limbs, k as nat);
        match next_use(code, limbs, h, p + 1) {
            None => self,
            Some(next) => if next == k {
                self
            } else {
                let stored = match write_ahead(code, k as nat, p) {
                    Some(w) => Plan {
                        pending: self.pending.update(k as int, Some(w)),
                        ..self.emit(
                            Instr::Store { reg: Reg::Acc(h as usize), buf: Buf::Operand, index: k },
                        )
                    },
                    None => self.emit(
                        Instr::Store {
                            reg: Reg::Acc(h as usize),
                            buf: Buf::Spill,
                            index: spill_slot(limbs, k as nat) as usize,
                        },
                    ),
                };
                if stored.pending[next as int] is Some {
                    stored
                } else {
                    Plan {
                        resident: stored.resident.update(h as int, next),
                        ..stored.emit(
                            Instr::Move {
                                src: Src::Mem(Buf::Spill, spill_slot(limbs, next as nat) as usize),
                                dst: Reg::Acc(h as usize),
                            },
                        )
                    }
                }
            },
        }
    }

    /// Makes room after the instruction at `p` for the first `n` of the
    /// accumulators `ks`.
    pub open spec fn settle_all(
        self,
        code: Seq<Instr>,
        limbs: nat,
        p: int,
        ks: Seq<usize>,
        n: nat,
    ) -> Plan
        decreases n,
    {
        if n == 0 {
            self
        } else {
            self.settle_all(code, limbs, p, ks, (n - 1) as nat).settle(code, limbs, p, ks[n - 1])
        }
    }

    /// Whether the instruction at `p` is a write-out store that has already
    /// been carried out.
    pub open spec fn done_ahead(self, code: Seq<Instr>, p: int) -> bool {
        match code[p] {
            Instr::Store { reg: Reg::Acc(k), .. } => due(self.pending[k as int], p),
            _ => false,
        }
    }

    /// The plan after the instruction at `p`: nothing is written for a store
    /// that was carried out ahead; else the accumulators that the
    /// instruction names are brought in, the instruction is written with
    /// hardware accumulators, and room is made for what comes next.
    pub open spec fn advance(self, code: Seq<Instr>, limbs: nat, p: int) -> Plan {
        let ks = accs(code[p]);
        if self.done_ahead(code, p) {
            self
        } else {
            self.swap_in_all(limbs, ks, ks.len()).emit(rehomed(code[p], limbs)).settle_all(
                code,
                limbs,
                p,
                ks,
                ks.len(),
            )
        }
    }

    /// The plan after the first `n` instructions of `code`.
    pub open spec fn after(code: Seq<Instr>, limbs: nat, n: nat) -> Plan
        decreases n,
    {
        if n == 0 {
            Plan::initial(limbs)
        } else {
            Plan::after(code, limbs, (n - 1) as nat).advance(code, limbs, n - 1)
        }
    }
}

/// The procedure `code` for `limbs` limbs, rewritten to use the hardware
/// accumulators only. With no more limbs than hardware accumulators it is
/// `code` itself.
pub open spec fn allocated(code: Seq<Instr>, limbs: nat) -> Seq<Instr> {
    if limbs <= MAX_REGS {
        code
    } else {
        Plan::after(code, limbs, code.len()).out
    }
}

/// The accumulators named by an instruction that fits are below the limb
/// count, at most three, and exactly those that the instruction mentions.
pub proof fn lemma_accs(instr: Instr, limbs: nat)
    requires
        instr.fits(limbs),
    ensures
        accs(instr).len() <= 3,
        forall|i: int| 0 <= i < accs(instr).len() ==> (#[trigger] accs(instr)[i]) < limbs,
        forall|k: nat| instr.mentions(k) <==> k <= usize::MAX && accs(instr).contains(k as usize),
{
    assert forall|k: nat| instr.mentions(k) <==> k <= usize::MAX && accs(instr).contains(
        k as usize,
    ) by {
        lemma_accs_mention(instr, k);
    }
    lemma_accs_bound(instr, limbs);
}

proof fn lemma_note(seen: Seq<usize>, r: Reg, k: usize)
    ensures
        note(seen, r).contains(k) <==> seen.contains(k) || r == Reg::Acc(k),
        note(seen, r).len() <= seen.len() + 1,
{
    match r {
        Reg::Acc(j) => {
            if !seen.contains(j) {
                let t = seen.push(j);
                assert(t[seen.len() as int] == j);
                if seen.contains(k) {
                    let i = choose|i: int| 0 <= i < seen.len() && seen[i] == k;
                    assert(t[i] == k);
                }
            }
        },
        _ => {},
    }
}

proof fn lemma_accs_mention(instr: Instr, k: nat)
    ensures
        instr.mentions(k) <==> k <= usize::MAX && accs(instr).contains(k as usize),
{
    let e = Seq::<usize>::empty();
    if k <= usize::MAX {
        let ku = k as usize;
        match instr {
            Instr::Move { src, dst } => {
                lemma_note(note_src(e, src), dst, ku);
                if let Src::Reg(r) = src {
                    lemma_note(e, r, ku);
                }
            },
            Instr::Store { reg, .. } => {
                lemma_note(e, reg, ku);
            },
            Instr::Clear { reg } => {
                lemma_note(e, reg, ku);
            },
            Instr::Mulx { src, lo, hi } => {
                lemma_note(note(note_src(e, src), lo), hi, ku);
                lemma_note(note_src(e, src), lo, ku);
                if let Src::Reg(r) = src {
                    lemma_note(e, r, ku);
                }
            },
            Instr::Adcx { src, dst } => {
                lemma_note(note_src(e, src), dst, ku);
                if let Src::Reg(r) = src {
                    lemma_note(e, r, ku);
                }
            },
            Instr::Adox { src, dst } => {
                lemma_note(note_src(e, src), dst, ku);
                if let Src::Reg(r) = src {
                    lemma_note(e, r, ku);
                }
            },
        }
    }
}

proof fn lemma_note_bound(seen: Seq<usize>, r: Reg, limbs: nat)
    requires
        r.within(limbs),
        forall|i: int| 0 <= i < seen.len() ==> (#[trigger] seen[i]) < limbs,
    ensures
        forall|i: int| 0 <= i < note(seen, r).len() ==> (#[trigger] note(seen, r)[i]) < limbs,
        note(seen, r).len() <= seen.len() + 1,
{
}

proof fn lemma_accs_bound(instr: Instr, limbs: nat)
    requires
        instr.fits(limbs),
    ensures
        accs(instr).len() <= 3,
        forall|i: int| 0 <= i < accs(instr).len() ==> (#[trigger] accs(instr)[i]) < limbs,
{
    let e = Seq::<usize>::empty();
    match instr {
        Instr::Move { src, dst } => {
            if let Src::Reg(r) = src {
                lemma_note_bound(e, r, limbs);
            }
            lemma_note_bound(note_src(e, src), dst, limbs);
        },
        Instr::Store { reg, .. } => {
            lemma_note_bound(e, reg, limbs);
        },
        Instr::Clear { reg } => {
            lemma_note_bound(e, reg, limbs);
        },
        Instr::Mulx { src, lo, hi } => {
            if let Src::Reg(r) = src {
                lemma_note_bound(e, r, limbs);
            }
            lemma_note_bound(note_src(e, src), lo, limbs);
            lemma_note_bound(note(note_src(e, src), lo), hi, limbs);
        },
        Instr::Adcx { src, dst } => {
            if let Src::Reg(r) = src {
                lemma_note_bound(e, r, limbs);
            }
            lemma_note_bound(note_src(e, src), dst, limbs);
        },
        Instr::Adox { src, dst } => {
            if let Src::Reg(r) = src {
                lemma_note_bound(e, r, limbs);
            }
            lemma_note_bound(note_src(e, src), dst, limbs);
        },
    }
}

fn note_reg(seen: &mut Vec<usize>, r: Reg)
    ensures
        final(seen)@ == note(old(seen)@, r),
{
    match r {
        Reg::Acc(k) => {
            let mut found: bool = false;
            let mut i: usize = 0;
            while i < seen.len()
                invariant
                    i <= seen.len(),
                    seen@ == old(seen)@,
                    found <==> exists|j: int| 0 <= j < i && seen@[j] == k,
                decreases seen.len() - i,
            {
                if seen[i] == k {
                    found = true;
                }
                i += 1;
            }
            if !found {
                seen.push(k);
            }
        },
        _ => {},
    }
}

fn note_source(seen: &mut Vec<usize>, s: Src)
    ensures
        final(seen)@ == note_src(old(seen)@, s),
{
    match s {
        Src::Reg(r) => {
            note_reg(seen, r);
        },
        _ => {},
    }
}

/// The accumulators that an instruction names, each once.
pub fn operands(instr: Instr) -> (ks: Vec<usize>)
    ensures
        ks@ == accs(instr),
{
    let mut ks: Vec<usize> = Vec::new();
    assert(ks@ =~= Seq::<usize>::empty());
    match instr {
        Instr::Move { src, dst } => {
            note_source(&mut ks, src);
            note_reg(&mut ks, dst);
        },
        Instr::Store { reg, .. } => {
            note_reg(&mut ks, reg);
        },
        Instr::Clear { reg } => {
            note_reg(&mut ks, reg);
        },
        Instr::Mulx { src, lo, hi } => {
            note_source(&mut ks, src);
            note_reg(&mut ks, lo);
            note_reg(&mut ks, hi);
        },
        Instr::Adcx { src, dst } => {
            note_source(&mut ks, src);
            note_reg(&mut ks, dst);
        },
        Instr::Adox { src, dst } => {
            note_source(&mut ks, src);
            note_reg(&mut ks, dst);
        },
    }
    ks
}

fn reg_within(r: Reg, limbs: usize) -> (b: bool)
    ensures
        b == r.within(limbs as nat),
{
    match r {
        Reg::Acc(k) => k < limbs,
        _ => true,
    }
}

fn src_fits(s: Src, limbs: usize) -> (b: bool)
    ensures
        b == s.fits(limbs as nat),
{
    match s {
        Src::Reg(r) => reg_within(r, limbs),
        Src::Mem(buf, index) => !matches!(buf, Buf::Spill) && index < limbs,
        _ => true,
    }
}

/// Whether the instruction can stand in a procedure for `limbs` limbs
/// before allocation.
pub fn fits(instr: Instr, limbs: usize) -> (b: bool)
    ensures
        b == instr.fits(limbs as nat),
{
    match instr {
        Instr::Move { src, dst } => src_fits(src, limbs) && reg_within(dst, limbs),
        Instr::Store { reg, buf, index } => reg_within(reg, limbs) && !matches!(buf, Buf::Spill)
            && index < limbs,
        Instr::Clear { reg } => reg_within(reg, limbs),
        Instr::Mulx { src, lo, hi } => src_fits(src, limbs) && reg_within(lo, limbs)
            && reg_within(hi, limbs),
        Instr::Adcx { src, dst } => src_fits(src, limbs) && reg_within(dst, limbs),
        Instr::Adox { src, dst } => src_fits(src, limbs) && reg_within(dst, limbs),
    }
}

fn conflict(ks: &Vec<usize>, homes: &Homes, limbs: usize) -> (b: bool)
    requires
        homes.describes(limbs as nat),
        ks.len() <= 3,
        forall|i: int| 0 <= i < ks.len() ==> (#[trigger] ks[i]) < limbs,
    ensures
        b == conflicting(ks@, limbs as nat),
{
    if ks.len() >= 2 && homes.homes[ks[0]] == homes.homes[ks[1]] {
        return true;
    }
    if ks.len() >= 3 && (homes.homes[ks[0]] == homes.homes[ks[2]] || homes.homes[ks[1]]
        == homes.homes[ks[2]]) {
        return true;
    }
    false
}

fn rehome_reg(r: Reg, homes: &Homes, limbs: usize) -> (out: Reg)
    requires
        homes.describes(limbs as nat),
        r.within(limbs as nat),
    ensures
        out == home_reg(r, limbs as nat),
{
    match r {
        Reg::Acc(k) => Reg::Acc(homes.homes[k]),
        _ => r,
    }
}

fn rehome_src(s: Src, homes: &Homes, limbs: usize) -> (out: Src)
    requires
        homes.describes(limbs as nat),
        s.fits(limbs as nat),
    ensures
        out == home_src(s, limbs as nat),
{
    match s {
        Src::Reg(r) => Src::Reg(rehome_reg(r, homes, limbs)),
        _ => s,
    }
}

fn rehome(instr: Instr, homes: &Homes, limbs: usize) -> (out: Instr)
    requires
        homes.describes(limbs as nat),
        instr.fits(limbs as nat),
    ensures
        out == rehomed(instr, limbs as nat),
{
    match instr {
        Instr::Move { src, dst } => Instr::Move {
            src: rehome_src(src, homes, limbs),
            dst: rehome_reg(dst, homes, limbs),
        },
        Instr::Store { reg, buf, index } => Instr::Store {
            reg: rehome_reg(reg, homes, limbs),
            buf,
            index,
        },
        Instr::Clear { reg } => Instr::Clear { reg: rehome_reg(reg, homes, limbs) },
        Instr::Mulx { src, lo, hi } => Instr::Mulx {
            src: rehome_src(src, homes, limbs),
            lo: rehome_reg(lo, homes, limbs),
            hi: rehome_reg(hi, homes, limbs),
        },
        Instr::Adcx { src, dst } => Instr::Adcx {
            src: rehome_src(src, homes, limbs),
            dst: rehome_reg(dst, homes, limbs),
        },
        Instr::Adox { src, dst } => Instr::Adox {
            src: rehome_src(src, homes, limbs),
            dst: rehome_reg(dst, homes, limbs),
        },
    }
}

fn reg_is(r: Reg, k: usize) -> (b: bool)
    ensures
        b == r.is_acc(k as nat),
{
    match r {
        Reg::Acc(j) => j == k,
        _ => false,
    }
}

fn src_is(s: Src, k: usize) -> (b: bool)
    ensures
        b == s.is_acc(k as nat),
{
    match s {
        Src::Reg(r) => reg_is(r, k),
        _ => false,
    }
}

/// Whether the instruction names accumulator `k`.
pub fn mentions(instr: Instr, k: usize) -> (b: bool)
    ensures
        b == instr.mentions(k as nat),
{
    match instr {
        Instr::Move { src, dst } => src_is(src, k) || reg_is(dst, k),
        Instr::Store { reg, .. } => reg_is(reg, k),
        Instr::Clear { reg } => reg_is(reg, k),
        Instr::Mulx { src, lo, hi } => src_is(src, k) || reg_is(lo, k) || reg_is(hi, k),
        Instr::Adcx { src, dst } => src_is(src, k) || reg_is(dst, k),
        Instr::Adox { src, dst } => src_is(src, k) || reg_is(dst, k),
    }
}

fn src_reads_result(s: Src, k: usize) -> (b: bool)
    ensures
        b == s.reads(Buf::Operand, k as nat),
{
    match s {
        Src::Mem(buf, index) => matches!(buf, Buf::Operand) && index == k,
        _ => false,
    }
}

/// Whether the instruction reads or writes word `k` of the result buffer.
pub fn touches_result(instr: Instr, k: usize) -> (b: bool)
    ensures
        b == instr.touches(Buf::Operand, k as nat),
{
    match instr {
        Instr::Move { src, .. } => src_reads_result(src, k),
        Instr::Store { buf, index, .. } => matches!(buf, Buf::Operand) && index == k,
        Instr::Mulx { src, .. } => src_reads_result(src, k),
        Instr::Adcx { src, .. } => src_reads_result(src, k),
        Instr::Adox { src, .. } => src_reads_result(src, k),
        Instr::Clear { .. } => false,
    }
}

fn find_sharing(ks: &Vec<usize>, homes: &Homes, limbs: usize, h: usize) -> (r: Option<usize>)
    requires
        homes.describes(limbs as nat),
        forall|i: int| 0 <= i < ks.len() ==> (#[trigger] ks[i]) < limbs,
    ensures
        r == sharing_from(ks@, limbs as nat, h as nat, 0),
{
    let mut i: usize = 0;
    while i < ks.len()
        invariant
            i <= ks.len(),
            homes.describes(limbs as nat),
            forall|j: int| 0 <= j < ks.len() ==> (#[trigger] ks[j]) < limbs,
            sharing_from(ks@, limbs as nat, h as nat, 0) == sharing_from(
                ks@,
                limbs as nat,
                h as nat,
                i as int,
            ),
        decreases ks.len() - i,
    {
        if homes.homes[ks[i]] == h {
            return Some(ks[i]);
        }
        i += 1;
    }
    None
}

fn find_next_use(code: &Vec<Instr>, homes: &Homes, limbs: usize, h: usize, from: usize) -> (r:
    Option<usize>)
    requires
        homes.describes(limbs as nat),
        forall|i: int| 0 <= i < code.len() ==> (#[trigger] code[i]).fits(limbs as nat),
    ensures
        r == next_use(code@, limbs as nat, h as nat, from as int),
{
    let mut q: usize = from;
    while q < code.len()
        invariant
            homes.describes(limbs as nat),
            forall|i: int| 0 <= i < code.len() ==> (#[trigger] code[i]).fits(limbs as nat),
            next_use(code@, limbs as nat, h as nat, from as int) == next_use(
                code@,
                limbs as nat,
                h as nat,
                q as int,
            ),
        decreases code.len() - q,
    {
        let ks: Vec<usize> = operands(code[q]);
        proof {
            lemma_accs(code@[q as int], limbs as nat);
        }
        match find_sharing(&ks, homes, limbs, h) {
            Some(k) => {
                return Some(k);
            },
            None => {},
        }
        q += 1;
    }
    None
}

fn find_next_mention(code: &Vec<Instr>, k: usize, from: usize) -> (r: Option<usize>)
    ensures
        match r {
            Some(w) => next_mention(code@, k as nat, from as int) == Some(w as int) && from <= w
                < code.len(),
            None => next_mention(code@, k as nat, from as int) is None,
        },
{
    let mut q: usize = from;
    while q < code.len()
        invariant
            from <= q,
            next_mention(code@, k as nat, from as int) == next_mention(
                code@,
                k as nat,
                q as int,
            ),
        decreases code.len() - q,
    {
        if mentions(code[q], k) {
            return Some(q);
        }
        q += 1;
    }
    None
}

fn find_write_ahead(code: &Vec<Instr>, k: usize, p: usize) -> (r: Option<usize>)
    requires
        p < code.len(),
    ensures
        r == write_ahead(code@, k as nat, p as int),
{
    let w: usize = match find_next_mention(code, k, p + 1) {
        Some(w) => w,
        None => {
            return None;
        },
    };
    let is_store: bool = match code[w] {
        Instr::Store { reg, buf, index } => reg_is(reg, k) && matches!(buf, Buf::Operand) && index
            == k,
        _ => false,
    };
    if !is_store {
        return None;
    }
    if find_next_mention(code, k, w + 1).is_some() {
        return None;
    }
    let mut q: usize = p + 1;
    while q < w
        invariant
            p + 1 <= q <= w < code.len(),
            next_mention(code@, k as nat, p + 1) == Some(w as int),
            untouched(code@, k as nat, p + 1, q as int),
        decreases w - q,
    {
        if touches_result(code[q], k) {
            assert(code@[q as int].touches(Buf::Operand, k as nat));
            return None;
        }
        q += 1;
    }
    Some(w)
}

/// Whether `code` can be carried out with the hardware accumulators and the
/// scratch words of a procedure for `limbs` limbs.
pub open spec fn hardware(code: Seq<Instr>, limbs: nat) -> bool {
    all_run_on(code, MAX_REGS as nat, limbs, spill_words(limbs))
}

/// The allocator's state while it walks through a procedure.
struct Allocation {
    out: Vec<Instr>,
    resident: Vec<usize>,
    pending: Vec<Option<usize>>,
}

impl View for Allocation {
    type V = Plan;

    closed spec fn view(&self) -> Plan {
        Plan { out: self.out@, resident: self.resident@, pending: self.pending@ }
    }
}

impl Allocation {
    fn new(limbs: usize) -> (a: Allocation)
        requires
            MAX_REGS < limbs <= MAX_LIMBS,
        ensures
            a@ == Plan::initial(limbs as nat),
            a@.shaped(limbs as nat),
            hardware(a@.out, limbs as nat),
    {
        let mut resident: Vec<usize> = Vec::new();
        let mut h: usize = 0;
        while h < MAX_REGS
            invariant
                h <= MAX_REGS,
                resident.len() == h,
                forall|j: int| 0 <= j < h ==> resident[j] == j,
            decreases MAX_REGS - h,
        {
            resident.push(h);
            h += 1;
        }
        let mut pending: Vec<Option<usize>> = Vec::new();
        let mut k: usize = 0;
        while k < limbs
            invariant
                k <= limbs,
                pending.len() == k,
                forall|j: int| 0 <= j < k ==> pending[j] == None::<usize>,
            decreases limbs - k,
        {
            pending.push(None);
            k += 1;
        }
        let a = Allocation { out: Vec::new(), resident, pending };
        assert(a@.out =~= Plan::initial(limbs as nat).out);
        assert(a@.resident =~= Plan::initial(limbs as nat).resident);
        assert(a@.pending =~= Plan::initial(limbs as nat).pending);
        a
    }

    fn swap_in(&mut self, homes: &Homes, limbs: usize, k: usize)
        requires
            limbs <= MAX_LIMBS,
            homes.describes(limbs as nat),
            old(self)@.shaped(limbs as nat),
            k < limbs,
            hardware(old(self)@.out, limbs as nat),
        ensures
            final(self)@ == old(self)@.swap_in(limbs as nat, k),
            final(self)@.shaped(limbs as nat),
            hardware(final(self)@.out, limbs as nat),
    {
        let h: usize = homes.homes[k];
        let r: usize = self.resident[h];
        if r != k {
            proof {
                lemma_shared_home(limbs as nat, r as nat, k as nat);
            }
            self.out.push(Instr::Store { reg: Reg::Acc(h), buf: Buf::Spill, index: homes.slots[r] });
            self.out.push(
                Instr::Move { src: Src::Mem(Buf::Spill, homes.slots[k]), dst: Reg::Acc(h) },
            );
            self.resident.set(h, k);
        }
    }

    fn settle(&mut self, code: &Vec<Instr>, homes: &Homes, limbs: usize, p: usize, k: usize)
        requires
            limbs <= MAX_LIMBS,
            homes.describes(limbs as nat),
            old(self)@.shaped(limbs as nat),
            k < limbs,
            p < code.len(),
            forall|i: int| 0 <= i < code.len() ==> (#[trigger] code[i]).fits(limbs as nat),
            hardware(old(self)@.out, limbs as nat),
        ensures
            final(self)@ == old(self)@.settle(code@, limbs as nat, p as int, k),
            final(self)@.shaped(limbs as nat),
            hardware(final(self)@.out, limbs as nat),
    {
        let h: usize = homes.homes[k];
        let next: usize = match find_next_use(code, homes, limbs, h, p + 1) {
            Some(next) => next,
            None => {
                return ;
            },
        };
        if next == k {
            return ;
        }
        proof {
            lemma_next_use(code@, limbs as nat, h as nat, p + 1);
            lemma_shared_home(limbs as nat, next as nat, k as nat);
        }
        match find_write_ahead(code, k, p) {
            Some(w) => {
                self.out.push(Instr::Store { reg: Reg::Acc(h), buf: Buf::Operand, index: k });
                self.pending.set(k, Some(w));
            },
            None => {
                self.out.push(
                    Instr::Store { reg: Reg::Acc(h), buf: Buf::Spill, index: homes.slots[k] },
                );
            },
        }
        if self.pending[next].is_none() {
            self.out.push(
                Instr::Move { src: Src::Mem(Buf::Spill, homes.slots[next]), dst: Reg::Acc(h) },
            );
            self.resident.set(h, next);
        }
    }

    fn swap_in_all(&mut self, homes: &Homes, limbs: usize, ks: &Vec<usize>)
        requires
            limbs <= MAX_LIMBS,
            homes.describes(limbs as nat),
            old(self)@.shaped(limbs as nat),
            forall|j: int| 0 <= j < ks.len() ==> (#[trigger] ks[j]) < limbs,
            hardware(old(self)@.out, limbs as nat),
        ensures
            final(self)@ == old(self)@.swap_in_all(limbs as nat, ks@, ks.len() as nat),
            final(self)@.shaped(limbs as nat),
            hardware(final(self)@.out, limbs as nat),
    {
        let mut i: usize = 0;
        while i < ks.len()
            invariant
                i <= ks.len(),
                limbs <= MAX_LIMBS,
                homes.describes(limbs as nat),
                forall|j: int| 0 <= j < ks.len() ==> (#[trigger] ks[j]) < limbs,
                self@ == old(self)@.swap_in_all(limbs as nat, ks@, i as nat),
                self@.shaped(limbs as nat),
                hardware(self@.out, limbs as nat),
            decreases ks.len() - i,
        {
            self.swap_in(homes, limbs, ks[i]);
            i += 1;
        }
    }

    fn settle_all(
        &mut self,
        code: &Vec<Instr>,
        homes: &Homes,
        limbs: usize,
        p: usize,
        ks: &Vec<usize>,
    )
        requires
            limbs <= MAX_LIMBS,
            homes.describes(limbs as nat),
            old(self)@.shaped(limbs as nat),
            p < code.len(),
            forall|j: int| 0 <= j < ks.len() ==> (#[trigger] ks[j]) < limbs,
            forall|j: int| 0 <= j < code.len() ==> (#[trigger] code[j]).fits(limbs as nat),
            hardware(old(self)@.out, limbs as nat),
        ensures
            final(self)@ == old(self)@.settle_all(
                code@,
                limbs as nat,
                p as int,
                ks@,
                ks.len() as nat,
            ),
            final(self)@.shaped(limbs as nat),
            hardware(final(self)@.out, limbs as nat),
    {
        let mut i: usize = 0;
        while i < ks.len()
            invariant
                i <= ks.len(),
                p < code.len(),
                limbs <= MAX_LIMBS,
                homes.describes(limbs as nat),
                forall|j: int| 0 <= j < ks.len() ==> (#[trigger] ks[j]) < limbs,
                forall|j: int| 0 <= j < code.len() ==> (#[trigger] code[j]).fits(limbs as nat),
                self@ == old(self)@.settle_all(code@, limbs as nat, p as int, ks@, i as nat),
                self@.shaped(limbs as nat),
                hardware(self@.out, limbs as nat),
            decreases ks.len() - i,
        {
            self.settle(code, homes, limbs, p, ks[i]);
            i += 1;
        }
    }

    fn advance(&mut self, code: &Vec<Instr>, homes: &Homes, limbs: usize, p: usize)
        requires
            limbs <= MAX_LIMBS,
            homes.describes(limbs as nat),
            old(self)@.shaped(limbs as nat),
            p < code.len(),
            forall|j: int| 0 <= j < code.len() ==> (#[trigger] code[j]).fits(limbs as nat),
            hardware(old(self)@.out, limbs as nat),
        ensures
            final(self)@ == old(self)@.advance(code@, limbs as nat, p as int),
            final(self)@.shaped(limbs as nat),
            hardware(final(self)@.out, limbs as nat),
    {
        let instr: Instr = code[p];
        if !self.done_ahead(instr, p, limbs) {
            let ks: Vec<usize> = operands(instr);
            proof {
                lemma_accs(instr, limbs as nat);
            }
            self.swap_in_all(homes, limbs, &ks);
            self.out.push(rehome(instr, homes, limbs));
            self.settle_all(code, homes, limbs, p, &ks);
        }
    }

    fn done_ahead(&self, instr: Instr, p: usize, limbs: usize) -> (b: bool)
        requires
            self@.shaped(limbs as nat),
            instr.fits(limbs as nat),
        ensures
            b == (match instr {
                Instr::Store { reg: Reg::Acc(k), .. } => due(self@.pending[k as int], p as int),
                _ => false,
            }),
    {
        match instr {
            Instr::Store { reg: Reg::Acc(k), .. } => match self.pending[k] {
                Some(w) => w == p,
                None => false,
            },
            _ => false,
        }
    }
}

/// The accumulator that `next_use` finds shares the hardware accumulator
/// asked for and is below the limb count.
pub proof fn lemma_next_use(code: Seq<Instr>, limbs: nat, h: nat, from: int)
    requires
        forall|i: int| 0 <= i < code.len() ==> (#[trigger] code[i]).fits(limbs),
    ensures
        next_use(code, limbs, h, from) matches Some(k) ==> k < limbs && home_register(
            limbs,
            k as nat,
        ) == h,
    decreases code.len() - from,
{
    if 0 <= from < code.len() {
        lemma_accs(code[from], limbs);
        lemma_sharing_from(accs(code[from]), limbs, h, 0);
        lemma_next_use(code, limbs, h, from + 1);
    }
}

proof fn lemma_sharing_from(ks: Seq<usize>, limbs: nat, h: nat, from: int)
    requires
        forall|i: int| 0 <= i < ks.len() ==> (#[trigger] ks[i]) < limbs,
    ensures
        sharing_from(ks, limbs, h, from) matches Some(k) ==> k < limbs && home_register(
            limbs,
            k as nat,
        ) == h,
    decreases ks.len() - from,
{
    if 0 <= from < ks.len() {
        lemma_sharing_from(ks, limbs, h, from + 1);
    }
}

/// Rewrites a procedure for `limbs` limbs so that it uses the hardware
/// accumulators only.
///
/// With no more limbs than hardware accumulators the procedure is returned
/// as it is. Otherwise accumulators that share a hardware accumulator take
/// turns in it: each is kept in a scratch word of its own while another is
/// computed on, and the last value of each goes straight to the result, so
/// that its write-out store is dropped.
///
/// The rewritten procedure computes what the given one computes.
///
/// Limb counts outside `2..=18` are rejected, and so is, beyond six limbs,
/// a procedure with an instruction that does not fit the limb count or
/// that names two accumulators which share a hardware accumulator: the
/// error gives the position of the first such instruction.
pub fn allocate(limbs: usize, code: &Vec<Instr>) -> (r: Result<Vec<Instr>, GenerationError>)
    ensures
        r is Ok <==> supported(limbs as nat) && (limbs <= MAX_REGS || sound(code@, limbs as nat)),
        r matches Ok(out) ==> out@ == allocated(code@, limbs as nat),
        r matches Ok(out) ==> limbs > MAX_REGS ==> hardware(out@, limbs as nat),
        r matches Ok(out) ==> faithful(code@, out@, limbs as nat),
        r matches Err(e) ==> match e {
            GenerationError::MalformedInstruction { position } => {
                &&& supported(limbs as nat)
                &&& position < code.len()
                &&& sound(code@.take(position as int), limbs as nat)
                &&& !code[position as int].fits(limbs as nat)
            },
            GenerationError::RegisterConflict { position } => {
                &&& supported(limbs as nat)
                &&& position < code.len()
                &&& sound(code@.take(position as int), limbs as nat)
                &&& code[position as int].fits(limbs as nat)
                &&& conflicting(accs(code[position as int]), limbs as nat)
            },
            _ => limb_verdict(limbs) == Err::<(), GenerationError>(e),
        },
{
    match check_limbs(limbs) {
        Err(e) => {
            return Err(e);
        },
        Ok(_) => {},
    }
    if limbs <= MAX_REGS {
        let mut copy: Vec<Instr> = Vec::new();
        let mut i: usize = 0;
        while i < code.len()
            invariant
                i <= code.len(),
                copy@ == code@.take(i as int),
            decreases code.len() - i,
        {
            copy.push(code[i]);
            assert(copy@ =~= code@.take(i + 1));
            i += 1;
        }
        assert(code@.take(code.len() as int) =~= code@);
        proof {
            lemma_allocation_faithful(code@, limbs as nat);
        }
        return Ok(copy);
    }
    let homes: Homes = assign_homes(limbs);
    let mut p: usize = 0;
    while p < code.len()
        invariant
            p <= code.len(),
            MAX_REGS < limbs <= MAX_LIMBS,
            homes.describes(limbs as nat),
            sound(code@.take(p as int), limbs as nat),
        decreases code.len() - p,
    {
        let instr: Instr = code[p];
        if !fits(instr, limbs) {
            assert(faulty(code@[p as int], limbs as nat));
            return Err(GenerationError::MalformedInstruction { position: p });
        }
        let ks: Vec<usize> = operands(instr);
        proof {
            lemma_accs(instr, limbs as nat);
        }
        if conflict(&ks, &homes, limbs) {
            assert(faulty(code@[p as int], limbs as nat));
            return Err(GenerationError::RegisterConflict { position: p });
        }
        assert forall|i: int| 0 <= i < p + 1 implies !faulty(
            #[trigger] code@.take(p + 1)[i],
            limbs as nat,
        ) by {
            if i < p {
                assert(code@.take(p as int)[i] == code@[i]);
            }
        }
        p += 1;
    }
    assert(code@.take(code.len() as int) =~= code@);
    assert forall|i: int| 0 <= i < code.len() implies (#[trigger] code[i]).fits(limbs as nat) by {
        assert(!faulty(code@[i], limbs as nat));
    }
    let mut state: Allocation = Allocation::new(limbs);
    let mut p: usize = 0;
    while p < code.len()
        invariant
            p <= code.len(),
            MAX_REGS < limbs <= MAX_LIMBS,
            homes.describes(limbs as nat),
            forall|i: int| 0 <= i < code.len() ==> (#[trigger] code[i]).fits(limbs as nat),
            state@ == Plan::after(code@, limbs as nat, p as nat),
            state@.shaped(limbs as nat),
            hardware(state@.out, limbs as nat),
        decreases code.len() - p,
    {
        state.advance(code, &homes, limbs, p);
        p += 1;
    }
    proof {
        lemma_allocation_faithful(code@, limbs as nat);
    }
    Ok(state.out)
}

} // verus!
