use vstd::prelude::*;
use crate::allocate::accs;
use crate::allocate::allocated;
use crate::allocate::conflicting;
use crate::allocate::due;
use crate::allocate::faulty;
use crate::allocate::home_reg;
use crate::allocate::home_src;
use crate::allocate::lemma_accs;
use crate::allocate::lemma_next_use;
use crate::allocate::next_mention;
use crate::allocate::next_use;
use crate::allocate::Plan;
use crate::allocate::rehomed;
use crate::allocate::sound;
use crate::allocate::untouched;
use crate::allocate::write_ahead;
use crate::allocate::write_out_of;
use crate::ir::Buf;
use crate::ir::Instr;
use crate::ir::Reg;
use crate::ir::Src;
use crate::limits::MAX_LIMBS;
use crate::limits::MAX_REGS;
use crate::machine::lemma_run_take;
use crate::machine::MachineState;
use crate::registers::hardware_registers;
use crate::registers::home_register;
use crate::registers::lemma_shared_home;
use crate::registers::spill_slot;
use crate::registers::spill_words;
use crate::registers::spillable;

verus! {

/// Whether no instruction of `code[from..]`, but perhaps the one at
/// `except`, names accumulator `k`.
pub open spec fn unmentioned(code: Seq<Instr>, k: nat, from: int, except: int) -> bool {
    forall|q: int|
        from <= q < code.len() && 0 <= q && q != except ==> !(#[trigger] code[q]).mentions(k)
}

/// What must hold at position `p` of an accumulator whose write-out store
/// was carried out ahead, or not: the store stands where the plan says, no
/// other instruction to come names the accumulator, and none before the
/// store touches the word that it writes.
pub open spec fn pending_ok(pending: Option<usize>, code: Seq<Instr>, k: int, p: int) -> bool {
    match pending {
        None => true,
        Some(w) => {
            &&& w < code.len()
            &&& code[w as int] == write_out_of(k as nat)
            &&& unmentioned(code, k as nat, p, w as int)
            &&& untouched(code, k as nat, p, w as int)
        },
    }
}

/// Whether the plan is consistent with the code from position `p` on.
pub open spec fn plan_ok(plan: Plan, code: Seq<Instr>, limbs: nat, p: int) -> bool {
    &&& plan.shaped(limbs)
    &&& forall|k: int| 0 <= k < limbs ==> #[trigger] pending_ok(plan.pending[k], code, k, p)
}

/// Where the allocated procedure keeps accumulator `k`: in its word of the
/// result if its store was carried out, in its hardware accumulator if it
/// is the one there, else in its scratch word.
pub open spec fn kept(bnd: MachineState, plan: Plan, limbs: nat, k: int) -> u64 {
    if plan.pending[k] is Some {
        bnd.operand[k]
    } else if plan.resident[home_register(limbs, k as nat) as int] == k {
        bnd.acc[home_register(limbs, k as nat) as int]
    } else {
        bnd.spill[spill_slot(limbs, k as nat) as int]
    }
}

/// Whether the store of accumulator `k` was carried out ahead and is still
/// to come at position `p`.
pub open spec fn ahead(plan: Plan, k: int, p: int) -> bool {
    match plan.pending[k] {
        Some(w) => w >= p,
        None => false,
    }
}

/// Whether the allocated procedure still keeps accumulator `k` at `p`.
pub open spec fn live(plan: Plan, k: int, p: int) -> bool {
    match plan.pending[k] {
        Some(w) => w >= p,
        None => true,
    }
}

/// Accumulator `k` has the same value in both machines.
pub open spec fn agrees(
    abs: MachineState,
    bnd: MachineState,
    plan: Plan,
    limbs: nat,
    p: int,
    k: int,
) -> bool {
    live(plan, k, p) ==> abs.acc[k] == kept(bnd, plan, limbs, k)
}

/// Word `k` of the result is the same in both machines, unless its store
/// was carried out ahead.
pub open spec fn settled(abs: MachineState, bnd: MachineState, plan: Plan, p: int, k: int) -> bool {
    !ahead(plan, k, p) ==> abs.operand[k] == bnd.operand[k]
}

/// The relation between the machine that runs the procedure as emitted and
/// the machine that runs the allocated one.
pub open spec fn related(
    abs: MachineState,
    bnd: MachineState,
    plan: Plan,
    limbs: nat,
    p: int,
) -> bool {
    &&& abs.rax == bnd.rax
    &&& abs.rbx == bnd.rbx
    &&& abs.rcx == bnd.rcx
    &&& abs.rdx == bnd.rdx
    &&& abs.cf == bnd.cf
    &&& abs.of == bnd.of
    &&& abs.inverse == bnd.inverse
    &&& abs.multiplier == bnd.multiplier
    &&& abs.modulus == bnd.modulus
    &&& abs.acc.len() == limbs
    &&& abs.operand.len() == limbs
    &&& bnd.operand.len() == limbs
    &&& bnd.acc.len() == MAX_REGS
    &&& bnd.spill.len() == spill_words(limbs)
    &&& forall|k: int| 0 <= k < limbs ==> #[trigger] agrees(abs, bnd, plan, limbs, p, k)
    &&& forall|k: int| 0 <= k < limbs ==> #[trigger] settled(abs, bnd, plan, p, k)
}

/// Whether the register, if it is an accumulator, is in its hardware
/// accumulator.
pub open spec fn ready(plan: Plan, limbs: nat, r: Reg) -> bool {
    match r {
        Reg::Acc(k) => k < limbs && plan.pending[k as int] is None && plan.resident[home_register(
            limbs,
            k as nat,
        ) as int] == k,
        _ => true,
    }
}

/// Whether the source can be read by the allocated procedure as it is.
pub open spec fn ready_src(plan: Plan, limbs: nat, p: int, s: Src) -> bool {
    match s {
        Src::Reg(r) => ready(plan, limbs, r),
        Src::Mem(buf, index) => buf != Buf::Spill && index < limbs && (buf == Buf::Operand
            ==> !ahead(plan, index as int, p)),
        _ => true,
    }
}

/// Scratch words of different accumulators differ.
pub proof fn lemma_slots_differ(limbs: nat, j: nat, k: nat)
    requires
        limbs <= MAX_LIMBS,
        spillable(limbs, j),
        spillable(limbs, k),
        j != k,
    ensures
        spill_slot(limbs, j) != spill_slot(limbs, k),
        spill_slot(limbs, j) < spill_words(limbs),
{
}

proof fn lemma_slot_bound(limbs: nat, k: nat)
    requires
        limbs <= MAX_LIMBS,
        spillable(limbs, k),
    ensures
        spill_slot(limbs, k) < spill_words(limbs),
{
}

proof fn lemma_home_bound(limbs: nat, k: nat)
    requires
        k < limbs <= MAX_LIMBS,
    ensures
        home_register(limbs, k) < MAX_REGS,
{
}

proof fn lemma_reg_agrees(
    abs: MachineState,
    bnd: MachineState,
    plan: Plan,
    limbs: nat,
    p: int,
    r: Reg,
)
    requires
        limbs <= MAX_LIMBS,
        related(abs, bnd, plan, limbs, p),
        ready(plan, limbs, r),
    ensures
        abs.reg(r) == bnd.reg(home_reg(r, limbs)),
{
    if let Reg::Acc(k) = r {
        assert(agrees(abs, bnd, plan, limbs, p, k as int));
        lemma_home_bound(limbs, k as nat);
    }
}

proof fn lemma_src_agrees(
    abs: MachineState,
    bnd: MachineState,
    plan: Plan,
    limbs: nat,
    p: int,
    s: Src,
)
    requires
        limbs <= MAX_LIMBS,
        related(abs, bnd, plan, limbs, p),
        ready_src(plan, limbs, p, s),
    ensures
        abs.src(s) == bnd.src(home_src(s, limbs)),
{
    match s {
        Src::Reg(r) => {
            lemma_reg_agrees(abs, bnd, plan, limbs, p, r);
        },
        Src::Mem(buf, index) => {
            if buf == Buf::Operand {
                assert(settled(abs, bnd, plan, p, index as int));
            }
        },
        _ => {},
    }
}

proof fn lemma_set_reg_related(
    abs: MachineState,
    bnd: MachineState,
    plan: Plan,
    limbs: nat,
    p: int,
    r: Reg,
    v: u64,
)
    requires
        limbs <= MAX_LIMBS,
        plan.shaped(limbs),
        related(abs, bnd, plan, limbs, p),
        ready(plan, limbs, r),
    ensures
        related(abs.set_reg(r, v), bnd.set_reg(home_reg(r, limbs), v), plan, limbs, p),
{
    let abs2 = abs.set_reg(r, v);
    let bnd2 = bnd.set_reg(home_reg(r, limbs), v);
    match r {
        Reg::Acc(k) => {
            lemma_home_bound(limbs, k as nat);
            let h = home_register(limbs, k as nat) as int;
            assert forall|j: int| 0 <= j < limbs implies #[trigger] agrees(
                abs2,
                bnd2,
                plan,
                limbs,
                p,
                j,
            ) by {
                assert(agrees(abs, bnd, plan, limbs, p, j));
                lemma_home_bound(limbs, j as nat);
            }
            assert forall|j: int| 0 <= j < limbs implies #[trigger] settled(
                abs2,
                bnd2,
                plan,
                p,
                j,
            ) by {
                assert(settled(abs, bnd, plan, p, j));
            }
        },
        _ => {
            assert forall|j: int| 0 <= j < limbs implies #[trigger] agrees(
                abs2,
                bnd2,
                plan,
                limbs,
                p,
                j,
            ) by {
                assert(agrees(abs, bnd, plan, limbs, p, j));
            }
            assert forall|j: int| 0 <= j < limbs implies #[trigger] settled(
                abs2,
                bnd2,
                plan,
                p,
                j,
            ) by {
                assert(settled(abs, bnd, plan, p, j));
            }
        },
    }
}

proof fn lemma_set_flags_related(
    abs: MachineState,
    bnd: MachineState,
    plan: Plan,
    limbs: nat,
    p: int,
    cf: bool,
    of: bool,
)
    requires
        related(abs, bnd, plan, limbs, p),
    ensures
        related(
            MachineState { cf, of, ..abs },
            MachineState { cf, of, ..bnd },
            plan,
            limbs,
            p,
        ),
{
    let abs2 = MachineState { cf, of, ..abs };
    let bnd2 = MachineState { cf, of, ..bnd };
    assert forall|j: int| 0 <= j < limbs implies #[trigger] agrees(abs2, bnd2, plan, limbs, p, j) by {
        assert(agrees(abs, bnd, plan, limbs, p, j));
    }
    assert forall|j: int| 0 <= j < limbs implies #[trigger] settled(abs2, bnd2, plan, p, j) by {
        assert(settled(abs, bnd, plan, p, j));
    }
}

proof fn lemma_set_word_related(
    abs: MachineState,
    bnd: MachineState,
    plan: Plan,
    limbs: nat,
    p: int,
    buf: Buf,
    index: usize,
    v: u64,
)
    requires
        related(abs, bnd, plan, limbs, p),
        buf != Buf::Spill,
        index < limbs,
        buf == Buf::Operand ==> !ahead(plan, index as int, p),
    ensures
        related(
            abs.set_word(buf, index as int, v),
            bnd.set_word(buf, index as int, v),
            plan,
            limbs,
            p,
        ),
{
    let abs2 = abs.set_word(buf, index as int, v);
    let bnd2 = bnd.set_word(buf, index as int, v);
    assert forall|j: int| 0 <= j < limbs implies #[trigger] agrees(abs2, bnd2, plan, limbs, p, j) by {
        assert(agrees(abs, bnd, plan, limbs, p, j));
    }
    assert forall|j: int| 0 <= j < limbs implies #[trigger] settled(abs2, bnd2, plan, p, j) by {
        assert(settled(abs, bnd, plan, p, j));
    }
}

/// Whether the allocated procedure can carry the instruction out as it is,
/// with hardware accumulators for its accumulators.
pub open spec fn instr_ready(plan: Plan, limbs: nat, p: int, instr: Instr) -> bool {
    match instr {
        Instr::Move { src, dst } => ready_src(plan, limbs, p, src) && ready(plan, limbs, dst),
        Instr::Store { reg, buf, index } => ready(plan, limbs, reg) && buf != Buf::Spill && index
            < limbs && (buf == Buf::Operand ==> !ahead(plan, index as int, p)),
        Instr::Clear { reg } => ready(plan, limbs, reg),
        Instr::Mulx { src, lo, hi } => ready_src(plan, limbs, p, src) && ready(plan, limbs, lo)
            && ready(plan, limbs, hi),
        Instr::Adcx { src, dst } => ready_src(plan, limbs, p, src) && ready(plan, limbs, dst),
        Instr::Adox { src, dst } => ready_src(plan, limbs, p, src) && ready(plan, limbs, dst),
    }
}

/// An instruction that is ready does the same to both machines.
proof fn lemma_step_related(
    abs: MachineState,
    bnd: MachineState,
    plan: Plan,
    limbs: nat,
    p: int,
    instr: Instr,
)
    requires
        limbs <= MAX_LIMBS,
        plan.shaped(limbs),
        related(abs, bnd, plan, limbs, p),
        instr_ready(plan, limbs, p, instr),
    ensures
        related(abs.step(instr), bnd.step(rehomed(instr, limbs)), plan, limbs, p),
{
    match instr {
        Instr::Move { src, dst } => {
            lemma_src_agrees(abs, bnd, plan, limbs, p, src);
            lemma_set_reg_related(abs, bnd, plan, limbs, p, dst, abs.src(src));
        },
        Instr::Store { reg, buf, index } => {
            lemma_reg_agrees(abs, bnd, plan, limbs, p, reg);
            lemma_set_word_related(abs, bnd, plan, limbs, p, buf, index, abs.reg(reg));
        },
        Instr::Clear { reg } => {
            lemma_set_reg_related(abs, bnd, plan, limbs, p, reg, 0);
            lemma_set_flags_related(
                abs.set_reg(reg, 0),
                bnd.set_reg(home_reg(reg, limbs), 0),
                plan,
                limbs,
                p,
                false,
                false,
            );
        },
        Instr::Mulx { src, lo, hi } => {
            lemma_src_agrees(abs, bnd, plan, limbs, p, src);
            let x = abs.src(src);
            let l = crate::machine::mul_lo(abs.rdx, x);
            let h = crate::machine::mul_hi(abs.rdx, x);
            lemma_set_reg_related(abs, bnd, plan, limbs, p, lo, l);
            lemma_set_reg_related(
                abs.set_reg(lo, l),
                bnd.set_reg(home_reg(lo, limbs), l),
                plan,
                limbs,
                p,
                hi,
                h,
            );
        },
        Instr::Adcx { src, dst } => {
            lemma_src_agrees(abs, bnd, plan, limbs, p, src);
            lemma_reg_agrees(abs, bnd, plan, limbs, p, dst);
            let v = crate::machine::sum_word(abs.reg(dst), abs.src(src), abs.cf);
            let c = crate::machine::sum_carry(abs.reg(dst), abs.src(src), abs.cf);
            lemma_set_reg_related(abs, bnd, plan, limbs, p, dst, v);
            let abs1 = abs.set_reg(dst, v);
            let bnd1 = bnd.set_reg(home_reg(dst, limbs), v);
            lemma_set_flags_related(abs1, bnd1, plan, limbs, p, c, abs1.of);
            assert(abs.step(instr) == MachineState { cf: c, of: abs1.of, ..abs1 });
            assert(bnd.step(rehomed(instr, limbs)) == MachineState { cf: c, of: bnd1.of, ..bnd1 });
        },
        Instr::Adox { src, dst } => {
            lemma_src_agrees(abs, bnd, plan, limbs, p, src);
            lemma_reg_agrees(abs, bnd, plan, limbs, p, dst);
            let v = crate::machine::sum_word(abs.reg(dst), abs.src(src), abs.of);
            let c = crate::machine::sum_carry(abs.reg(dst), abs.src(src), abs.of);
            lemma_set_reg_related(abs, bnd, plan, limbs, p, dst, v);
            let abs1 = abs.set_reg(dst, v);
            let bnd1 = bnd.set_reg(home_reg(dst, limbs), v);
            lemma_set_flags_related(abs1, bnd1, plan, limbs, p, abs1.cf, c);
            assert(abs.step(instr) == MachineState { cf: abs1.cf, of: c, ..abs1 });
            assert(bnd.step(rehomed(instr, limbs)) == MachineState { cf: bnd1.cf, of: c, ..bnd1 });
        },
    }
}

/// Whether the accumulators `ks[..n]` are all in their hardware accumulators.
pub open spec fn all_ready(plan: Plan, limbs: nat, ks: Seq<usize>, n: int) -> bool {
    forall|i: int| 0 <= i < n && i < ks.len() ==> ready(plan, limbs, Reg::Acc(#[trigger] ks[i]))
}

/// Where a store was carried out ahead and is due at `p`, the instruction
/// at `p` is that store.
proof fn lemma_due(plan: Plan, code: Seq<Instr>, limbs: nat, p: int, k: int)
    requires
        limbs <= MAX_LIMBS,
        plan_ok(plan, code, limbs, p),
        0 <= p < code.len(),
        0 <= k < limbs,
        due(plan.pending[k], p),
    ensures
        code[p] == write_out_of(k as nat),
        plan.done_ahead(code, p),
{
    assert(pending_ok(plan.pending[k], code, k, p));
}

/// An instruction whose accumulators are all in their hardware
/// accumulators is ready, unless it is a store that was carried out ahead.
proof fn lemma_instr_ready(plan: Plan, code: Seq<Instr>, limbs: nat, p: int)
    requires
        limbs <= MAX_LIMBS,
        0 <= p < code.len(),
        plan_ok(plan, code, limbs, p),
        code[p].fits(limbs),
        !plan.done_ahead(code, p),
        all_ready(plan, limbs, accs(code[p]), accs(code[p]).len() as int),
    ensures
        instr_ready(plan, limbs, p, code[p]),
{
    let instr = code[p];
    lemma_accs(instr, limbs);
    assert forall|r: Reg|
        r.within(limbs) && (forall|k: nat| r.is_acc(k) ==> instr.mentions(k)) implies ready(
        plan,
        limbs,
        r,
    ) by {
        if let Reg::Acc(k) = r {
            assert(r.is_acc(k as nat));
            assert(instr.mentions(k as nat));
            assert(accs(instr).contains(k));
            let i = choose|i: int| 0 <= i < accs(instr).len() && accs(instr)[i] == k;
            assert(ready(plan, limbs, Reg::Acc(accs(instr)[i])));
        }
    }
    assert forall|index: usize|
        index < limbs && instr.touches(Buf::Operand, index as nat) implies !ahead(
        plan,
        index as int,
        p,
    ) by {
        if ahead(plan, index as int, p) {
            assert(pending_ok(plan.pending[index as int], code, index as int, p));
            let w = plan.pending[index as int]->Some_0;
            if w == p {
                lemma_due(plan, code, limbs, p, index as int);
            } else {
                assert(!code[p].touches(Buf::Operand, index as nat));
            }
        }
    }
    match instr {
        Instr::Move { src, dst } => {
            lemma_ready_src(plan, limbs, p, instr, src);
        },
        Instr::Store { reg, buf, index } => {},
        Instr::Clear { reg } => {},
        Instr::Mulx { src, lo, hi } => {
            lemma_ready_src(plan, limbs, p, instr, src);
        },
        Instr::Adcx { src, dst } => {
            lemma_ready_src(plan, limbs, p, instr, src);
        },
        Instr::Adox { src, dst } => {
            lemma_ready_src(plan, limbs, p, instr, src);
        },
    }
}

proof fn lemma_ready_src(plan: Plan, limbs: nat, p: int, instr: Instr, s: Src)
    requires
        s.fits(limbs),
        forall|r: Reg|
            r.within(limbs) && (forall|k: nat| r.is_acc(k) ==> instr.mentions(k)) ==> ready(
                plan,
                limbs,
                r,
            ),
        forall|index: usize|
            index < limbs && instr.touches(Buf::Operand, index as nat) ==> !ahead(
                plan,
                index as int,
                p,
            ),
        forall|k: nat| s.is_acc(k) ==> instr.mentions(k),
        forall|index: nat| s.reads(Buf::Operand, index) ==> instr.touches(Buf::Operand, index),
    ensures
        ready_src(plan, limbs, p, s),
{
    match s {
        Src::Reg(r) => {
            assert forall|k: nat| r.is_acc(k) implies instr.mentions(k) by {
                assert(s.is_acc(k));
            }
        },
        Src::Mem(buf, index) => {
            if buf == Buf::Operand {
                assert(s.reads(Buf::Operand, index as nat));
            }
        },
        _ => {},
    }
}

/// Moving on from position `p` keeps the relation, where no store that was
/// carried out ahead is due at `p`.
proof fn lemma_move_on(
    abs: MachineState,
    bnd: MachineState,
    plan: Plan,
    code: Seq<Instr>,
    limbs: nat,
    p: int,
)
    requires
        limbs <= MAX_LIMBS,
        0 <= p < code.len(),
        plan_ok(plan, code, limbs, p),
        related(abs, bnd, plan, limbs, p),
        !plan.done_ahead(code, p),
    ensures
        plan_ok(plan, code, limbs, p + 1),
        related(abs, bnd, plan, limbs, p + 1),
{
    assert forall|k: int| 0 <= k < limbs implies #[trigger] pending_ok(
        plan.pending[k],
        code,
        k,
        p + 1,
    ) by {
        assert(pending_ok(plan.pending[k], code, k, p));
    }
    assert forall|k: int| 0 <= k < limbs implies #[trigger] agrees(abs, bnd, plan, limbs, p + 1, k) by {
        assert(agrees(abs, bnd, plan, limbs, p, k));
    }
    assert forall|k: int| 0 <= k < limbs implies #[trigger] settled(abs, bnd, plan, p + 1, k) by {
        assert(settled(abs, bnd, plan, p, k));
        if due(plan.pending[k], p) {
            lemma_due(plan, code, limbs, p, k);
        }
    }
}

/// A store that was carried out ahead needs no instruction when it is due.
proof fn lemma_skip(
    abs: MachineState,
    bnd: MachineState,
    plan: Plan,
    code: Seq<Instr>,
    limbs: nat,
    p: int,
)
    requires
        limbs <= MAX_LIMBS,
        0 <= p < code.len(),
        plan_ok(plan, code, limbs, p),
        related(abs, bnd, plan, limbs, p),
        code[p].fits(limbs),
        plan.done_ahead(code, p),
    ensures
        plan_ok(plan, code, limbs, p + 1),
        related(abs.step(code[p]), bnd, plan, limbs, p + 1),
{
    let k = match code[p] {
        Instr::Store { reg: Reg::Acc(k), .. } => k as int,
        _ => 0,
    };
    assert(pending_ok(plan.pending[k], code, k, p));
    let abs2 = abs.step(code[p]);
    assert(agrees(abs, bnd, plan, limbs, p, k));
    assert forall|j: int| 0 <= j < limbs implies #[trigger] pending_ok(
        plan.pending[j],
        code,
        j,
        p + 1,
    ) by {
        assert(pending_ok(plan.pending[j], code, j, p));
    }
    assert forall|j: int| 0 <= j < limbs implies #[trigger] agrees(abs2, bnd, plan, limbs, p + 1, j) by {
        assert(agrees(abs, bnd, plan, limbs, p, j));
    }
    assert forall|j: int| 0 <= j < limbs implies #[trigger] settled(abs2, bnd, plan, p + 1, j) by {
        assert(settled(abs, bnd, plan, p, j));
        if j != k && due(plan.pending[j], p) {
            lemma_due(plan, code, limbs, p, j);
        }
    }
}

/// Writing one more instruction makes the allocated procedure take one
/// more step.
proof fn lemma_emit(bnd0: MachineState, plan: Plan, instr: Instr)
    ensures
        bnd0.run(plan.emit(instr).out) == bnd0.run(plan.out).step(instr),
{
    assert(plan.out.push(instr).drop_last() =~= plan.out);
}

/// Putting the accumulator in a hardware accumulator away to its scratch
/// word changes nothing that the relation speaks of.
proof fn lemma_put_away(
    abs: MachineState,
    bnd: MachineState,
    plan: Plan,
    limbs: nat,
    p: int,
    h: int,
)
    requires
        limbs <= MAX_LIMBS,
        plan.shaped(limbs),
        related(abs, bnd, plan, limbs, p),
        0 <= h < MAX_REGS,
        spillable(limbs, plan.resident[h] as nat),
    ensures
        ({
            let r = plan.resident[h];
            let slot = spill_slot(limbs, r as nat);
            let bnd2 = bnd.step(
                Instr::Store { reg: Reg::Acc(h as usize), buf: Buf::Spill, index: slot as usize },
            );
            &&& related(abs, bnd2, plan, limbs, p)
            &&& bnd2.spill[slot as int] == bnd.acc[h]
            &&& bnd2.acc == bnd.acc
        }),
{
    let r = plan.resident[h];
    let slot = spill_slot(limbs, r as nat);
    let bnd2 = bnd.step(
        Instr::Store { reg: Reg::Acc(h as usize), buf: Buf::Spill, index: slot as usize },
    );
    lemma_slot_bound(limbs, r as nat);
    assert forall|j: int| 0 <= j < limbs implies #[trigger] agrees(abs, bnd2, plan, limbs, p, j) by {
        assert(agrees(abs, bnd, plan, limbs, p, j));
        lemma_home_bound(limbs, j as nat);
        let hj = home_register(limbs, j as nat) as int;
        if plan.pending[j] is None && plan.resident[hj] != j {
            lemma_shared_home(limbs, j as nat, plan.resident[hj] as nat);
            lemma_slots_differ(limbs, j as nat, r as nat);
        }
    }
    assert forall|j: int| 0 <= j < limbs implies #[trigger] settled(abs, bnd2, plan, p, j) by {
        assert(settled(abs, bnd, plan, p, j));
    }
}

/// Fetching accumulator `k` into its hardware accumulator keeps the
/// relation, where the accumulator that was there is kept elsewhere.
proof fn lemma_fetch(
    abs: MachineState,
    bnd: MachineState,
    plan: Plan,
    limbs: nat,
    p: int,
    k: usize,
)
    requires
        limbs <= MAX_LIMBS,
        plan.shaped(limbs),
        related(abs, bnd, plan, limbs, p),
        k < limbs,
        plan.pending[k as int] is None,
        plan.resident[home_register(limbs, k as nat) as int] != k,
        ({
            let h = home_register(limbs, k as nat) as int;
            let r = plan.resident[h];
            plan.pending[r as int] is Some || bnd.spill[spill_slot(limbs, r as nat) as int]
                == bnd.acc[h]
        }),
    ensures
        ({
            let h = home_register(limbs, k as nat);
            let bnd2 = bnd.step(
                Instr::Move {
                    src: Src::Mem(Buf::Spill, spill_slot(limbs, k as nat) as usize),
                    dst: Reg::Acc(h as usize),
                },
            );
            let plan2 = Plan { resident: plan.resident.update(h as int, k), ..plan };
            &&& related(abs, bnd2, plan2, limbs, p)
            &&& plan2.shaped(limbs)
            &&& ready(plan2, limbs, Reg::Acc(k))
        }),
{
    let h = home_register(limbs, k as nat);
    lemma_home_bound(limbs, k as nat);
    let r = plan.resident[h as int];
    lemma_shared_home(limbs, r as nat, k as nat);
    let bnd2 = bnd.step(
        Instr::Move {
            src: Src::Mem(Buf::Spill, spill_slot(limbs, k as nat) as usize),
            dst: Reg::Acc(h as usize),
        },
    );
    let plan2 = Plan { resident: plan.resident.update(h as int, k), ..plan };
    assert forall|j: int| 0 <= j < limbs implies #[trigger] agrees(abs, bnd2, plan2, limbs, p, j) by {
        assert(agrees(abs, bnd, plan, limbs, p, j));
        lemma_home_bound(limbs, j as nat);
    }
    assert forall|j: int| 0 <= j < limbs implies #[trigger] settled(abs, bnd2, plan2, p, j) by {
        assert(settled(abs, bnd, plan, p, j));
    }
}

/// Bringing an accumulator in keeps the relation and leaves it ready.
proof fn lemma_swap_in(
    abs: MachineState,
    bnd0: MachineState,
    plan: Plan,
    code: Seq<Instr>,
    limbs: nat,
    p: int,
    k: usize,
)
    requires
        limbs <= MAX_LIMBS,
        plan_ok(plan, code, limbs, p),
        related(abs, bnd0.run(plan.out), plan, limbs, p),
        k < limbs,
        plan.pending[k as int] is None,
    ensures
        ({
            let plan2 = plan.swap_in(limbs, k);
            &&& plan_ok(plan2, code, limbs, p)
            &&& related(abs, bnd0.run(plan2.out), plan2, limbs, p)
            &&& ready(plan2, limbs, Reg::Acc(k))
            &&& plan2.pending == plan.pending
            &&& forall|h: int|
                0 <= h < MAX_REGS && h != home_register(limbs, k as nat) ==> plan2.resident[h]
                    == plan.resident[h]
        }),
{
    let h = home_register(limbs, k as nat);
    lemma_home_bound(limbs, k as nat);
    let r = plan.resident[h as int];
    let plan2 = plan.swap_in(limbs, k);
    if r != k {
        lemma_shared_home(limbs, r as nat, k as nat);
        let store = Instr::Store {
            reg: Reg::Acc(h as usize),
            buf: Buf::Spill,
            index: spill_slot(limbs, r as nat) as usize,
        };
        let fetch = Instr::Move {
            src: Src::Mem(Buf::Spill, spill_slot(limbs, k as nat) as usize),
            dst: Reg::Acc(h as usize),
        };
        let bnd = bnd0.run(plan.out);
        lemma_put_away(abs, bnd, plan, limbs, p, h as int);
        lemma_fetch(abs, bnd.step(store), plan, limbs, p, k);
        lemma_emit(bnd0, plan, store);
        lemma_emit(bnd0, plan.emit(store), fetch);
        assert(plan2.out == plan.emit(store).emit(fetch).out);
        assert(plan2 == Plan { resident: plan.resident.update(h as int, k), ..plan.emit(store).emit(fetch) });
        assert forall|j: int| 0 <= j < limbs implies #[trigger] pending_ok(
            plan2.pending[j],
            code,
            j,
            p,
        ) by {
            assert(pending_ok(plan.pending[j], code, j, p));
        }
        let bnd2 = bnd.step(store).step(fetch);
        let plan1 = Plan { resident: plan.resident.update(h as int, k), ..plan };
        assert forall|j: int| 0 <= j < limbs implies #[trigger] agrees(
            abs,
            bnd2,
            plan2,
            limbs,
            p,
            j,
        ) by {
            assert(agrees(abs, bnd2, plan1, limbs, p, j));
        }
        assert forall|j: int| 0 <= j < limbs implies #[trigger] settled(abs, bnd2, plan2, p, j) by {
            assert(settled(abs, bnd2, plan1, p, j));
        }
    }
}

/// The relation does not look at the instructions that the plan holds.
proof fn lemma_related_tables(
    abs: MachineState,
    bnd: MachineState,
    plan: Plan,
    other: Plan,
    limbs: nat,
    p: int,
)
    requires
        related(abs, bnd, plan, limbs, p),
        plan.resident == other.resident,
        plan.pending == other.pending,
    ensures
        related(abs, bnd, other, limbs, p),
{
    assert forall|j: int| 0 <= j < limbs implies #[trigger] agrees(abs, bnd, other, limbs, p, j) by {
        assert(agrees(abs, bnd, plan, limbs, p, j));
    }
    assert forall|j: int| 0 <= j < limbs implies #[trigger] settled(abs, bnd, other, p, j) by {
        assert(settled(abs, bnd, plan, p, j));
    }
}

/// What `next_mention` finds is the first instruction from `from` on that
/// names the accumulator.
pub proof fn lemma_next_mention(code: Seq<Instr>, k: nat, from: int)
    requires
        0 <= from,
    ensures
        match next_mention(code, k, from) {
            Some(w) => from <= w < code.len() && code[w].mentions(k) && forall|q: int|
                from <= q < w ==> !(#[trigger] code[q]).mentions(k),
            None => forall|q: int| from <= q < code.len() ==> !(#[trigger] code[q]).mentions(k),
        },
    decreases code.len() - from,
{
    if from < code.len() {
        lemma_next_mention(code, k, from + 1);
    }
}

/// Carrying the write-out store of accumulator `k` out ahead keeps the
/// relation.
proof fn lemma_store_ahead(
    abs: MachineState,
    bnd: MachineState,
    plan: Plan,
    limbs: nat,
    p: int,
    k: usize,
    w: usize,
)
    requires
        limbs <= MAX_LIMBS,
        plan.shaped(limbs),
        related(abs, bnd, plan, limbs, p),
        ready(plan, limbs, Reg::Acc(k)),
        w >= p,
    ensures
        ({
            let h = home_register(limbs, k as nat);
            let bnd2 = bnd.step(
                Instr::Store { reg: Reg::Acc(h as usize), buf: Buf::Operand, index: k },
            );
            let plan2 = Plan { pending: plan.pending.update(k as int, Some(w)), ..plan };
            related(abs, bnd2, plan2, limbs, p)
        }),
{
    let h = home_register(limbs, k as nat);
    lemma_home_bound(limbs, k as nat);
    let bnd2 = bnd.step(Instr::Store { reg: Reg::Acc(h as usize), buf: Buf::Operand, index: k });
    let plan2 = Plan { pending: plan.pending.update(k as int, Some(w)), ..plan };
    assert forall|j: int| 0 <= j < limbs implies #[trigger] agrees(abs, bnd2, plan2, limbs, p, j) by {
        assert(agrees(abs, bnd, plan, limbs, p, j));
    }
    assert forall|j: int| 0 <= j < limbs implies #[trigger] settled(abs, bnd2, plan2, p, j) by {
        assert(settled(abs, bnd, plan, p, j));
    }
}

/// Making room after an instruction keeps the relation.
proof fn lemma_settle(
    abs: MachineState,
    bnd0: MachineState,
    plan: Plan,
    code: Seq<Instr>,
    limbs: nat,
    p: int,
    k: usize,
)
    requires
        limbs <= MAX_LIMBS,
        code.len() <= usize::MAX,
        0 <= p < code.len(),
        forall|i: int| 0 <= i < code.len() ==> (#[trigger] code[i]).fits(limbs),
        plan_ok(plan, code, limbs, p + 1),
        related(abs, bnd0.run(plan.out), plan, limbs, p + 1),
        ready(plan, limbs, Reg::Acc(k)),
    ensures
        ({
            let plan2 = plan.settle(code, limbs, p, k);
            &&& plan_ok(plan2, code, limbs, p + 1)
            &&& related(abs, bnd0.run(plan2.out), plan2, limbs, p + 1)
            &&& forall|j: int| 0 <= j < limbs && j != k ==> plan2.pending[j] == plan.pending[j]
            &&& forall|h: int|
                0 <= h < MAX_REGS && h != home_register(limbs, k as nat) ==> plan2.resident[h]
                    == plan.resident[h]
        }),
{
    let h = home_register(limbs, k as nat);
    lemma_home_bound(limbs, k as nat);
    let plan2 = plan.settle(code, limbs, p, k);
    let bnd = bnd0.run(plan.out);
    lemma_next_use(code, limbs, h, p + 1);
    if let Some(next) = next_use(code, limbs, h, p + 1) {
        if next != k {
            lemma_shared_home(limbs, next as nat, k as nat);
            // First the accumulator in the register is put away.
            let store = match write_ahead(code, k as nat, p) {
                Some(w) => Instr::Store { reg: Reg::Acc(h as usize), buf: Buf::Operand, index: k },
                None => Instr::Store {
                    reg: Reg::Acc(h as usize),
                    buf: Buf::Spill,
                    index: spill_slot(limbs, k as nat) as usize,
                },
            };
            let stored = match write_ahead(code, k as nat, p) {
                Some(w) => Plan {
                    pending: plan.pending.update(k as int, Some(w)),
                    ..plan.emit(store)
                },
                None => plan.emit(store),
            };
            let bnd1 = bnd.step(store);
            lemma_emit(bnd0, plan, store);
            assert(bnd0.run(stored.out) == bnd1);
            match write_ahead(code, k as nat, p) {
                Some(w) => {
                    lemma_next_mention(code, k as nat, p + 1);
                    lemma_next_mention(code, k as nat, w + 1);
                    lemma_store_ahead(abs, bnd, plan, limbs, p + 1, k, w);
                    lemma_related_tables(
                        abs,
                        bnd1,
                        Plan { pending: plan.pending.update(k as int, Some(w)), ..plan },
                        stored,
                        limbs,
                        p + 1,
                    );
                    assert forall|j: int| 0 <= j < limbs implies #[trigger] pending_ok(
                        stored.pending[j],
                        code,
                        j,
                        p + 1,
                    ) by {
                        assert(pending_ok(plan.pending[j], code, j, p + 1));
                    }
                },
                None => {
                    lemma_put_away(abs, bnd, plan, limbs, p + 1, h as int);
                    lemma_related_tables(abs, bnd1, plan, stored, limbs, p + 1);
                    assert forall|j: int| 0 <= j < limbs implies #[trigger] pending_ok(
                        stored.pending[j],
                        code,
                        j,
                        p + 1,
                    ) by {
                        assert(pending_ok(plan.pending[j], code, j, p + 1));
                    }
                },
            }
            assert(plan_ok(stored, code, limbs, p + 1));
            assert(related(abs, bnd1, stored, limbs, p + 1));
            // Then the one that is needed next is fetched.
            if stored.pending[next as int] is None {
                let fetch = Instr::Move {
                    src: Src::Mem(Buf::Spill, spill_slot(limbs, next as nat) as usize),
                    dst: Reg::Acc(h as usize),
                };
                lemma_fetch(abs, bnd1, stored, limbs, p + 1, next);
                lemma_emit(bnd0, stored, fetch);
                let moved = Plan { resident: stored.resident.update(h as int, next), ..stored };
                lemma_related_tables(abs, bnd1.step(fetch), moved, plan2, limbs, p + 1);
                assert forall|j: int| 0 <= j < limbs implies #[trigger] pending_ok(
                    plan2.pending[j],
                    code,
                    j,
                    p + 1,
                ) by {
                    assert(pending_ok(stored.pending[j], code, j, p + 1));
                }
            }
        }
    }
}

/// Whether the accumulators of `ks` have hardware accumulators of their
/// own, each a different one.
pub open spec fn distinct_homes(ks: Seq<usize>, limbs: nat) -> bool {
    forall|i: int, j: int|
        0 <= i < j < ks.len() ==> home_register(limbs, #[trigger] ks[i] as nat) != home_register(
            limbs,
            #[trigger] ks[j] as nat,
        )
}

/// Whether none of the accumulators of `ks` has had its store carried out.
pub open spec fn none_pending(plan: Plan, ks: Seq<usize>, limbs: nat) -> bool {
    forall|i: int| 0 <= i < ks.len() ==> (#[trigger] ks[i]) < limbs && plan.pending[ks[i] as int] is None
}

/// Bringing accumulators with different homes in keeps the relation and
/// leaves them all ready.
proof fn lemma_swap_in_all(
    abs: MachineState,
    bnd0: MachineState,
    plan: Plan,
    code: Seq<Instr>,
    limbs: nat,
    p: int,
    ks: Seq<usize>,
    n: nat,
)
    requires
        limbs <= MAX_LIMBS,
        plan_ok(plan, code, limbs, p),
        related(abs, bnd0.run(plan.out), plan, limbs, p),
        n <= ks.len(),
        distinct_homes(ks, limbs),
        none_pending(plan, ks, limbs),
    ensures
        ({
            let plan2 = plan.swap_in_all(limbs, ks, n);
            &&& plan_ok(plan2, code, limbs, p)
            &&& related(abs, bnd0.run(plan2.out), plan2, limbs, p)
            &&& all_ready(plan2, limbs, ks, n as int)
            &&& plan2.pending == plan.pending
        }),
    decreases n,
{
    if n > 0 {
        lemma_swap_in_all(abs, bnd0, plan, code, limbs, p, ks, (n - 1) as nat);
        let plan1 = plan.swap_in_all(limbs, ks, (n - 1) as nat);
        let k = ks[n - 1];
        assert(ks[n - 1] < limbs && plan.pending[ks[n - 1] as int] is None);
        lemma_swap_in(abs, bnd0, plan1, code, limbs, p, k);
        let plan2 = plan1.swap_in(limbs, k);
        assert forall|i: int| 0 <= i < n && i < ks.len() implies ready(
            plan2,
            limbs,
            Reg::Acc(#[trigger] ks[i]),
        ) by {
            if i < n - 1 {
                assert(ready(plan1, limbs, Reg::Acc(ks[i])));
                assert(home_register(limbs, ks[i] as nat) != home_register(limbs, ks[n - 1] as nat));
                lemma_home_bound(limbs, ks[i] as nat);
            }
        }
    }
}

/// Making room for accumulators with different homes, which are all in
/// their hardware accumulators, keeps the relation.
proof fn lemma_settle_all(
    abs: MachineState,
    bnd0: MachineState,
    plan: Plan,
    code: Seq<Instr>,
    limbs: nat,
    p: int,
    ks: Seq<usize>,
    n: nat,
)
    requires
        limbs <= MAX_LIMBS,
        code.len() <= usize::MAX,
        0 <= p < code.len(),
        forall|i: int| 0 <= i < code.len() ==> (#[trigger] code[i]).fits(limbs),
        plan_ok(plan, code, limbs, p + 1),
        related(abs, bnd0.run(plan.out), plan, limbs, p + 1),
        n <= ks.len(),
        distinct_homes(ks, limbs),
        all_ready(plan, limbs, ks, ks.len() as int),
    ensures
        ({
            let plan2 = plan.settle_all(code, limbs, p, ks, n);
            &&& plan_ok(plan2, code, limbs, p + 1)
            &&& related(abs, bnd0.run(plan2.out), plan2, limbs, p + 1)
            &&& forall|i: int|
                n <= i < ks.len() ==> ready(plan2, limbs, Reg::Acc(#[trigger] ks[i]))
        }),
    decreases n,
{
    if n > 0 {
        lemma_settle_all(abs, bnd0, plan, code, limbs, p, ks, (n - 1) as nat);
        let plan1 = plan.settle_all(code, limbs, p, ks, (n - 1) as nat);
        let k = ks[n - 1];
        assert(ready(plan1, limbs, Reg::Acc(ks[n - 1])));
        lemma_settle(abs, bnd0, plan1, code, limbs, p, k);
        let plan2 = plan1.settle(code, limbs, p, k);
        assert forall|i: int| n <= i < ks.len() implies ready(
            plan2,
            limbs,
            Reg::Acc(#[trigger] ks[i]),
        ) by {
            assert(ready(plan1, limbs, Reg::Acc(ks[i])));
            assert(home_register(limbs, ks[n - 1] as nat) != home_register(limbs, ks[i] as nat));
            lemma_home_bound(limbs, ks[i] as nat);
        }
    }
}

/// Up to three accumulators of which no two conflict have different homes.
proof fn lemma_distinct_homes(ks: Seq<usize>, limbs: nat)
    requires
        ks.len() <= 3,
        !conflicting(ks, limbs),
    ensures
        distinct_homes(ks, limbs),
{
}

/// One instruction of the procedure, carried out by the one machine, and
/// what the allocator writes for it, carried out by the other, keep the
/// relation.
proof fn lemma_advance(
    abs: MachineState,
    bnd0: MachineState,
    plan: Plan,
    code: Seq<Instr>,
    limbs: nat,
    p: int,
)
    requires
        limbs <= MAX_LIMBS,
        code.len() <= usize::MAX,
        0 <= p < code.len(),
        sound(code, limbs),
        plan_ok(plan, code, limbs, p),
        related(abs, bnd0.run(plan.out), plan, limbs, p),
    ensures
        ({
            let plan2 = plan.advance(code, limbs, p);
            &&& plan_ok(plan2, code, limbs, p + 1)
            &&& related(abs.step(code[p]), bnd0.run(plan2.out), plan2, limbs, p + 1)
        }),
{
    let instr = code[p];
    assert(!faulty(instr, limbs));
    assert forall|i: int| 0 <= i < code.len() implies (#[trigger] code[i]).fits(limbs) by {
        assert(!faulty(code[i], limbs));
    }
    if plan.done_ahead(code, p) {
        lemma_skip(abs, bnd0.run(plan.out), plan, code, limbs, p);
    } else {
        let ks = accs(instr);
        lemma_accs(instr, limbs);
        lemma_distinct_homes(ks, limbs);
        assert forall|i: int| 0 <= i < ks.len() implies (#[trigger] ks[i]) < limbs
            && plan.pending[ks[i] as int] is None by {
            let k = ks[i];
            assert(ks.contains(k));
            assert(instr.mentions(k as nat));
            assert(pending_ok(plan.pending[k as int], code, k as int, p));
            if plan.pending[k as int] is Some {
                if due(plan.pending[k as int], p) {
                    lemma_due(plan, code, limbs, p, k as int);
                }
            }
        }
        lemma_swap_in_all(abs, bnd0, plan, code, limbs, p, ks, ks.len());
        let plan_a = plan.swap_in_all(limbs, ks, ks.len());
        let bnd_a = bnd0.run(plan_a.out);
        assert(!plan_a.done_ahead(code, p));
        lemma_instr_ready(plan_a, code, limbs, p);
        lemma_step_related(abs, bnd_a, plan_a, limbs, p, instr);
        let plan_b = plan_a.emit(rehomed(instr, limbs));
        lemma_emit(bnd0, plan_a, rehomed(instr, limbs));
        let bnd_b = bnd0.run(plan_b.out);
        let abs2 = abs.step(instr);
        lemma_related_tables(abs2, bnd_b, plan_a, plan_b, limbs, p);
        assert forall|j: int| 0 <= j < limbs implies #[trigger] pending_ok(
            plan_b.pending[j],
            code,
            j,
            p,
        ) by {
            assert(pending_ok(plan_a.pending[j], code, j, p));
        }
        assert(!plan_b.done_ahead(code, p));
        lemma_move_on(abs2, bnd_b, plan_b, code, limbs, p);
        assert(all_ready(plan_b, limbs, ks, ks.len() as int)) by {
            assert forall|i: int| 0 <= i < ks.len() implies ready(
                plan_b,
                limbs,
                Reg::Acc(#[trigger] ks[i]),
            ) by {
                assert(ready(plan_a, limbs, Reg::Acc(ks[i])));
            }
        }
        lemma_settle_all(abs2, bnd0, plan_b, code, limbs, p, ks, ks.len());
    }
}

/// After any number of instructions the two machines are related.
proof fn lemma_after(
    abs0: MachineState,
    bnd0: MachineState,
    code: Seq<Instr>,
    limbs: nat,
    n: nat,
)
    requires
        MAX_REGS < limbs <= MAX_LIMBS,
        code.len() <= usize::MAX,
        n <= code.len(),
        sound(code, limbs),
        related(abs0, bnd0, Plan::initial(limbs), limbs, 0),
    ensures
        plan_ok(Plan::after(code, limbs, n), code, limbs, n as int),
        related(
            abs0.run(code.take(n as int)),
            bnd0.run(Plan::after(code, limbs, n).out),
            Plan::after(code, limbs, n),
            limbs,
            n as int,
        ),
    decreases n,
{
    if n == 0 {
        let plan = Plan::initial(limbs);
        assert(code.take(0) =~= Seq::<Instr>::empty());
        assert(plan.out =~= Seq::<Instr>::empty());
        assert forall|k: int| 0 <= k < limbs implies #[trigger] pending_ok(
            plan.pending[k],
            code,
            k,
            0,
        ) by {}
    } else {
        lemma_after(abs0, bnd0, code, limbs, (n - 1) as nat);
        let plan = Plan::after(code, limbs, (n - 1) as nat);
        lemma_advance(abs0.run(code.take(n - 1)), bnd0, plan, code, limbs, n - 1);
        lemma_run_take(abs0, code, n - 1);
    }
}

/// Whether `out` computes what `code` computes: run on the same operands
/// of `limbs` limbs, `out` on the hardware accumulators and scratch words
/// and `code` on an accumulator for every limb, they leave the same result.
pub open spec fn faithful(code: Seq<Instr>, out: Seq<Instr>, limbs: nat) -> bool {
    forall|operand: Seq<u64>, multiplier: Seq<u64>, modulus: Seq<u64>, inverse: u64|
        operand.len() == limbs ==> (#[trigger] MachineState::start(
            operand,
            multiplier,
            modulus,
            inverse,
            hardware_registers(limbs),
            spill_words(limbs),
        )).run(out).operand == MachineState::start(
            operand,
            multiplier,
            modulus,
            inverse,
            limbs,
            0,
        ).run(code).operand
}

/// The machine with an accumulator for every limb that a hardware machine
/// stands for when a procedure is entered: the accumulators that have a
/// hardware accumulator of their number hold what it holds, the others what
/// their scratch words hold.
pub open spec fn unfolded(h: MachineState, limbs: nat) -> MachineState {
    MachineState {
        acc: Seq::new(
            limbs,
            |k: int|
                if k < MAX_REGS {
                    h.acc[k]
                } else {
                    h.spill[spill_slot(limbs, k as nat) as int]
                },
        ),
        spill: Seq::empty(),
        ..h
    }
}

/// Allocation does not change what a procedure computes, whatever the
/// registers, the carry flags and the scratch words hold when it is
/// entered: the allocated procedure leaves the result that the procedure
/// leaves on the machine with an accumulator for every limb.
pub proof fn lemma_allocation_from_any_state(code: Seq<Instr>, limbs: nat, h: MachineState)
    requires
        MAX_REGS < limbs <= MAX_LIMBS,
        code.len() <= usize::MAX,
        sound(code, limbs),
        h.acc.len() == MAX_REGS,
        h.spill.len() == spill_words(limbs),
        h.operand.len() == limbs,
    ensures
        h.run(allocated(code, limbs)).operand == unfolded(h, limbs).run(code).operand,
{
    let abs0 = unfolded(h, limbs);
    let plan = Plan::initial(limbs);
    assert forall|k: int| 0 <= k < limbs implies #[trigger] agrees(abs0, h, plan, limbs, 0, k) by {
        lemma_home_bound(limbs, k as nat);
        if k >= MAX_REGS {
            lemma_slot_bound(limbs, k as nat);
        }
    }
    assert forall|k: int| 0 <= k < limbs implies #[trigger] settled(abs0, h, plan, 0, k) by {}
    lemma_after(abs0, h, code, limbs, code.len());
    assert(code.take(code.len() as int) =~= code);
    let last = Plan::after(code, limbs, code.len());
    let abs = abs0.run(code);
    let bnd = h.run(last.out);
    assert forall|k: int| 0 <= k < limbs implies abs.operand[k] == bnd.operand[k] by {
        assert(settled(abs, bnd, last, code.len() as int, k));
        assert(pending_ok(last.pending[k], code, k, code.len() as int));
    }
    assert(abs.operand =~= bnd.operand);
}

/// Allocation does not change what a procedure computes: run on the same
/// operands, the allocated procedure, which has the hardware accumulators
/// and its scratch words only, leaves the same result as the procedure that
/// has an accumulator for every limb.
pub proof fn lemma_allocation_keeps_result(
    code: Seq<Instr>,
    limbs: nat,
    operand: Seq<u64>,
    multiplier: Seq<u64>,
    modulus: Seq<u64>,
    inverse: u64,
)
    requires
        limbs <= MAX_LIMBS,
        code.len() <= usize::MAX,
        limbs > MAX_REGS ==> sound(code, limbs),
        operand.len() == limbs,
    ensures
        MachineState::start(
            operand,
            multiplier,
            modulus,
            inverse,
            hardware_registers(limbs),
            spill_words(limbs),
        ).run(allocated(code, limbs)).operand == MachineState::start(
            operand,
            multiplier,
            modulus,
            inverse,
            limbs,
            0,
        ).run(code).operand,
{
    if limbs > MAX_REGS {
        let wide = MachineState::start(operand, multiplier, modulus, inverse, limbs, 0);
        let h = MachineState::start(
            operand,
            multiplier,
            modulus,
            inverse,
            MAX_REGS as nat,
            spill_words(limbs),
        );
        lemma_allocation_from_any_state(code, limbs, h);
        assert(unfolded(h, limbs).acc =~= wide.acc) by {
            assert forall|k: int| 0 <= k < limbs implies unfolded(h, limbs).acc[k] == 0 by {
                if k >= MAX_REGS {
                    lemma_slot_bound(limbs, k as nat);
                }
            }
        }
        assert(unfolded(h, limbs).spill =~= wide.spill);
        assert(unfolded(h, limbs) == wide);
    }
}

/// The allocated procedure computes what the procedure computes,
/// whatever the operands are.
pub proof fn lemma_allocation_faithful(code: Seq<Instr>, limbs: nat)
    requires
        limbs <= MAX_LIMBS,
        code.len() <= usize::MAX,
        limbs > MAX_REGS ==> sound(code, limbs),
    ensures
        faithful(code, allocated(code, limbs), limbs),
{
    assert forall|operand: Seq<u64>, multiplier: Seq<u64>, modulus: Seq<u64>, inverse: u64|
        operand.len() == limbs implies (#[trigger] MachineState::start(
        operand,
        multiplier,
        modulus,
        inverse,
        hardware_registers(limbs),
        spill_words(limbs),
    )).run(allocated(code, limbs)).operand == MachineState::start(
        operand,
        multiplier,
        modulus,
        inverse,
        limbs,
        0,
    ).run(code).operand by {
        lemma_allocation_keeps_result(code, limbs, operand, multiplier, modulus, inverse);
    }
}

} // verus!
