use vstd::prelude::*;
use crate::limits::MAX_LIMBS;
use crate::limits::MAX_REGS;

verus! {

/// Number of hardware accumulators that are shared when a procedure has
/// `limbs` logical accumulators.
pub open spec fn spill_count(limbs: nat) -> nat {
    if limbs <= 6 {
        0
    } else if limbs <= 12 {
        (limbs - 6) as nat
    } else {
        6
    }
}

/// The lowest accumulator that is shared. With up to three accumulators too
/// many the sharing starts in the middle of the register file, otherwise at
/// its bottom.
pub open spec fn spill_base(limbs: nat) -> nat {
    if 7 <= limbs <= 9 {
        3
    } else {
        0
    }
}

/// The accumulators that take turns in the `g`-th shared hardware register:
/// the register's own accumulator first, then the one six above it, then,
/// where the limb count calls for it, the one twelve above.
pub open spec fn spill_group(limbs: nat, g: nat) -> Seq<usize> {
    if limbs > 12 && g + 12 < limbs {
        seq![g as usize, (6 + g) as usize, (12 + g) as usize]
    } else {
        seq![(spill_base(limbs) + g) as usize, (6 + g) as usize]
    }
}

/// All spill groups of a procedure with `limbs` accumulators.
pub open spec fn spill_groups(limbs: nat) -> Seq<Seq<usize>> {
    Seq::new(spill_count(limbs), |g: int| spill_group(limbs, g as nat))
}

/// Number of hardware accumulators that a procedure for `limbs` limbs uses:
/// one per limb while they last.
pub open spec fn hardware_registers(limbs: nat) -> nat {
    if limbs <= MAX_REGS {
        limbs
    } else {
        MAX_REGS as nat
    }
}

/// Number of scratch words that a procedure with `limbs` accumulators needs.
pub open spec fn spill_words(limbs: nat) -> nat {
    if limbs <= 6 {
        0
    } else if limbs <= 12 {
        (2 * (limbs - 6)) as nat
    } else {
        limbs
    }
}

/// Whether accumulator `k` shares its hardware register with another.
pub open spec fn spillable(limbs: nat, k: nat) -> bool {
    limbs > 6 && k < limbs && (k >= 6 || (spill_base(limbs) <= k && k - spill_base(limbs)
        < spill_count(limbs)))
}

/// The hardware accumulator in which accumulator `k` is computed on.
pub open spec fn home_register(limbs: nat, k: nat) -> nat {
    if k < 6 {
        k
    } else if k < 12 {
        (spill_base(limbs) + k - 6) as nat
    } else {
        (k - 12) as nat
    }
}

/// The scratch word that keeps accumulator `k` while it is out of its
/// register.
pub open spec fn spill_slot(limbs: nat, k: nat) -> nat {
    if limbs > 12 {
        k
    } else if k >= 6 {
        (spill_count(limbs) + k - 6) as nat
    } else {
        (k - spill_base(limbs)) as nat
    }
}

/// Number of hardware accumulators that a procedure for `limbs` limbs uses.
pub fn hardware_count(limbs: usize) -> (n: usize)
    ensures
        n == hardware_registers(limbs as nat),
{
    if limbs <= MAX_REGS {
        limbs
    } else {
        MAX_REGS
    }
}

/// Number of scratch words of a procedure for `limbs` limbs.
pub fn scratch_words(limbs: usize) -> (n: usize)
    ensures
        n == spill_words(limbs as nat),
{
    if limbs <= MAX_REGS {
        0
    } else if limbs <= 2 * MAX_REGS {
        2 * (limbs - MAX_REGS)
    } else {
        limbs
    }
}

/// The position of accumulator `k` in the list of spill groups.
pub open spec fn group_index(limbs: nat, k: nat) -> nat {
    if k < 6 {
        (k - spill_base(limbs)) as nat
    } else if k < 12 {
        (k - 6) as nat
    } else {
        (k - 12) as nat
    }
}

/// Whether `j` is among the first `m` members of `group`.
pub open spec fn among(group: Seq<usize>, m: int, j: int) -> bool {
    exists|t: int| 0 <= t < m && t < group.len() && group[t] == j
}

/// Where each accumulator lives: `homes[k]` is the hardware accumulator of
/// accumulator `k`, and `slots[k]` its scratch word if it shares that
/// register, else zero.
pub struct Homes {
    pub homes: Vec<usize>,
    pub slots: Vec<usize>,
}

impl Homes {
    /// Whether the tables are those of a procedure with `limbs` accumulators.
    pub open spec fn describes(&self, limbs: nat) -> bool {
        &&& self.homes.len() == limbs
        &&& self.slots.len() == limbs
        &&& forall|k: int|
            0 <= k < limbs ==> #[trigger] self.homes[k] == home_register(limbs, k as nat)
        &&& forall|k: int|
            0 <= k < limbs ==> #[trigger] self.slots[k] == (if spillable(limbs, k as nat) {
                spill_slot(limbs, k as nat)
            } else {
                0
            })
    }
}

/// Lays the spill groups of `get_registers` out per accumulator.
pub fn assign_homes(limbs: usize) -> (r: Homes)
    requires
        limbs <= MAX_LIMBS,
    ensures
        r.describes(limbs as nat),
{
    let (n_spills, groups) = get_registers(limbs);
    let mut homes: Vec<usize> = Vec::new();
    let mut slots: Vec<usize> = Vec::new();
    let mut k: usize = 0;
    while k < limbs
        invariant
            k <= limbs,
            homes.len() == k,
            slots.len() == k,
            forall|j: int| 0 <= j < k ==> homes[j] == j,
            forall|j: int| 0 <= j < k ==> slots[j] == 0,
        decreases limbs - k,
    {
        homes.push(k);
        slots.push(0);
        k += 1;
    }
    let mut g: usize = 0;
    while g < n_spills
        invariant
            limbs <= MAX_LIMBS,
            g <= n_spills,
            n_spills == spill_count(limbs as nat),
            groups.deep_view() == spill_groups(limbs as nat),
            groups.len() == n_spills,
            homes.len() == limbs,
            slots.len() == limbs,
            forall|j: int|
                0 <= j < limbs ==> #[trigger] homes[j] == (if j < 6 || group_index(
                    limbs as nat,
                    j as nat,
                ) < g {
                    home_register(limbs as nat, j as nat)
                } else {
                    j as nat
                }),
            forall|j: int|
                0 <= j < limbs ==> #[trigger] slots[j] == (if spillable(limbs as nat, j as nat)
                    && group_index(limbs as nat, j as nat) < g {
                    spill_slot(limbs as nat, j as nat)
                } else {
                    0
                }),
        decreases n_spills - g,
    {
        let group: &Vec<usize> = &groups[g];
        assert(group@ == spill_group(limbs as nat, g as nat)) by {
            assert(groups.deep_view()[g as int] == group@);
        }
        let first: usize = group[0];
        let mut m: usize = 0;
        while m < group.len()
            invariant
                limbs <= MAX_LIMBS,
                g < n_spills,
                n_spills == spill_count(limbs as nat),
                group@ == spill_group(limbs as nat, g as nat),
                first == group@[0],
                m <= group.len(),
                homes.len() == limbs,
                slots.len() == limbs,
                forall|j: int|
                    0 <= j < limbs ==> #[trigger] homes[j] == (if j < 6 || group_index(
                        limbs as nat,
                        j as nat,
                    ) < g || among(group@, m as int, j) {
                        home_register(limbs as nat, j as nat)
                    } else {
                        j as nat
                    }),
                forall|j: int|
                    0 <= j < limbs ==> #[trigger] slots[j] == (if spillable(
                        limbs as nat,
                        j as nat,
                    ) && (group_index(limbs as nat, j as nat) < g || among(group@, m as int, j)) {
                        spill_slot(limbs as nat, j as nat)
                    } else {
                        0
                    }),
            decreases group.len() - m,
        {
            let member: usize = group[m];
            proof {
                lemma_group_shares_home(limbs as nat, g as nat, m as int);
            }
            let slot: usize = if group.len() <= 2 {
                if member >= MAX_REGS {
                    n_spills + g
                } else {
                    g
                }
            } else {
                member
            };
            homes.set(member, first);
            slots.set(member, slot);
            assert forall|j: int| 0 <= j < limbs implies (#[trigger] among(
                group@,
                m as int + 1,
                j,
            ) <==> (among(group@, m as int, j) || j == member)) by {
                if j == member {
                    assert(group@[m as int] == j);
                }
            }
            m += 1;
        }
        assert forall|j: int| 0 <= j < limbs implies (#[trigger] among(
            group@,
            group.len() as int,
            j,
        ) <==> (group_index(limbs as nat, j as nat) == g && (j >= 6 || spillable(
            limbs as nat,
            j as nat,
        )))) by {
            if group_index(limbs as nat, j as nat) == g && (j >= 6 || spillable(
                limbs as nat,
                j as nat,
            )) {
                if j < 6 {
                    assert(group@[0] == j);
                } else if j < 12 {
                    assert(group@[1] == j);
                } else {
                    assert(group@[2] == j);
                }
            }
        }
        g += 1;
    }
    Homes { homes, slots }
}

/// Two accumulators that share a hardware register are both spillable, and
/// their scratch words differ.
pub proof fn lemma_shared_home(limbs: nat, j: nat, k: nat)
    requires
        limbs <= MAX_LIMBS,
        j < limbs,
        k < limbs,
        j != k,
        home_register(limbs, j) == home_register(limbs, k),
    ensures
        spillable(limbs, j),
        spillable(limbs, k),
        spill_slot(limbs, j) != spill_slot(limbs, k),
        spill_slot(limbs, j) < spill_words(limbs),
        spill_slot(limbs, k) < spill_words(limbs),
{
}

/// The accumulators of one spill group are exactly those that share the
/// group's hardware register, which is the group's first member.
pub proof fn lemma_group_shares_home(limbs: nat, g: nat, m: int)
    requires
        limbs <= MAX_LIMBS,
        g < spill_count(limbs),
        0 <= m < spill_group(limbs, g).len(),
    ensures
        spill_group(limbs, g)[m] < limbs,
        spillable(limbs, spill_group(limbs, g)[m] as nat),
        home_register(limbs, spill_group(limbs, g)[m] as nat) == spill_group(limbs, g)[0],
{
}

/// The spill groups for a limb count: how many hardware accumulators are
/// shared, and which logical accumulators share each of them.
pub fn get_registers(limbs: usize) -> (r: (usize, Vec<Vec<usize>>))
    requires
        limbs <= MAX_LIMBS,
    ensures
        r.0 == spill_count(limbs as nat),
        r.1.len() == r.0,
        r.1.deep_view() == spill_groups(limbs as nat),
{
    let mut values: Vec<Vec<usize>> = Vec::new();
    if limbs <= MAX_REGS {
        assert(values.deep_view() =~= spill_groups(limbs as nat));
        return (0, values);
    }
    let n_spills: usize = if limbs <= 2 * MAX_REGS { limbs - MAX_REGS } else { MAX_REGS };
    let base: usize = if limbs <= MAX_REGS + 3 { MAX_REGS / 2 } else { 0 };
    let mut i: usize = 0;
    while i < n_spills
        invariant
            MAX_REGS < limbs <= MAX_LIMBS,
            n_spills == spill_count(limbs as nat),
            base == spill_base(limbs as nat),
            i <= n_spills,
            values.len() == i,
            forall|g: int| 0 <= g < i ==> (#[trigger] values[g])@ == spill_group(limbs as nat, g as nat),
        decreases n_spills - i,
    {
        let mut group: Vec<usize> = Vec::new();
        if limbs > 2 * MAX_REGS && i < limbs - 2 * MAX_REGS {
            group.push(i);
            group.push(MAX_REGS + i);
            group.push(2 * MAX_REGS + i);
        } else {
            group.push(base + i);
            group.push(MAX_REGS + i);
        }
        assert(group@ =~= spill_group(limbs as nat, i as nat));
        values.push(group);
        i += 1;
    }
    assert(values.deep_view() =~= spill_groups(limbs as nat)) by {
        assert forall|g: int| 0 <= g < values.len() implies values.deep_view()[g] == spill_groups(
            limbs as nat,
        )[g] by {
            assert(values.deep_view()[g] == values[g]@);
        }
    }
    (n_spills, values)
}

} // verus!
