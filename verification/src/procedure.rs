use vstd::prelude::*;
use crate::allocate::allocate;
use crate::allocate::allocated;
use crate::allocate::faulty;
use crate::emit::emit;
use crate::emit::lemma_template_sound;
use crate::emit::template;
use crate::fidelity::lemma_allocation_keeps_result;
use crate::interp::Machine;
use crate::ir::all_run_on;
use crate::ir::Buf;
use crate::ir::Instr;
use crate::ir::lemma_fits_runs;
use crate::limits::GenerationError;
use crate::limits::limb_verdict;
use crate::limits::MAX_REGS;
use crate::limits::supported;
use crate::machine::lemma_admits_runs_on;
use crate::machine::MachineState;
use crate::registers::hardware_count;
use crate::registers::hardware_registers;
use crate::registers::scratch_words;
use crate::registers::spill_words;

verus! {

/// The buffer that a procedure reads its second factor from: operand `a`
/// again when it squares.
pub open spec fn factor_buffer(squaring: bool) -> Buf {
    if squaring {
        Buf::Operand
    } else {
        Buf::Multiplier
    }
}

/// What the procedure for `limbs` limbs leaves in the result buffer when it
/// is run on operand `a`, second factor `b`, the modulus and the inverse:
/// the outcome of the emitted instructions on a machine with one
/// accumulator per limb.
pub open spec fn computed(
    limbs: nat,
    squaring: bool,
    a: Seq<u64>,
    b: Seq<u64>,
    modulus: Seq<u64>,
    inverse: u64,
) -> Seq<u64> {
    MachineState::start(a, b, modulus, inverse, limbs, 0).run(
        template(limbs, factor_buffer(squaring)),
    ).operand
}

/// A generated procedure: the multiplication, or the squaring, for one limb
/// count, allocated to the hardware accumulators.
pub struct Procedure {
    pub limbs: usize,
    pub squaring: bool,
    pub code: Vec<Instr>,
}

fn copy_words(words: &Vec<u64>) -> (r: Vec<u64>)
    ensures
        r@ == words@,
{
    let mut r: Vec<u64> = Vec::new();
    let mut i: usize = 0;
    while i < words.len()
        invariant
            i <= words.len(),
            r@ == words@.take(i as int),
        decreases words.len() - i,
    {
        r.push(words[i]);
        assert(r@ =~= words@.take(i + 1));
        i += 1;
    }
    assert(words@.take(words.len() as int) =~= words@);
    r
}

impl Procedure {
    /// Whether this is the generated procedure for its limb count.
    pub open spec fn wf(&self) -> bool {
        &&& supported(self.limbs as nat)
        &&& self.code@ == allocated(
            template(self.limbs as nat, factor_buffer(self.squaring)),
            self.limbs as nat,
        )
        &&& all_run_on(
            self.code@,
            hardware_registers(self.limbs as nat),
            self.limbs as nat,
            spill_words(self.limbs as nat),
        )
    }

    /// Generates the procedure for `limbs` limbs: the template is emitted
    /// and allocated to the hardware accumulators. Limb counts outside
    /// `2..=18` are rejected.
    pub fn generate(limbs: usize, squaring: bool) -> (r: Result<Procedure, GenerationError>)
        ensures
            r is Ok <==> supported(limbs as nat),
            r matches Ok(p) ==> p.wf() && p.limbs == limbs && p.squaring == squaring,
            r matches Err(e) ==> limb_verdict(limbs) == Err::<(), GenerationError>(e),
    {
        let b: Buf = if squaring {
            Buf::Operand
        } else {
            Buf::Multiplier
        };
        let abstract_code: Vec<Instr> = match emit(limbs, b) {
            Ok(code) => code,
            Err(e) => {
                return Err(e);
            },
        };
        proof {
            lemma_template_sound(limbs as nat, b);
        }
        match allocate(limbs, &abstract_code) {
            Ok(code) => {
                proof {
                    if limbs <= MAX_REGS {
                        assert forall|i: int| 0 <= i < code@.len() implies (#[trigger] code@[i]).runs_on(
                            limbs as nat,
                            limbs as nat,
                            0,
                        ) by {
                            assert(!faulty(abstract_code@[i], limbs as nat));
                            lemma_fits_runs(code@[i], limbs as nat);
                        }
                    }
                }
                Ok(Procedure { limbs, squaring, code })
            },
            Err(e) => {
                // The allocator accepts every emitted procedure.
                assert(false);
                Err(e)
            },
        }
    }

    /// Number of scratch words that the procedure needs.
    pub fn spills(&self) -> (n: usize)
        requires
            self.wf(),
        ensures
            n == spill_words(self.limbs as nat),
    {
        scratch_words(self.limbs)
    }

    /// Runs the procedure on the register machine and returns the result
    /// buffer. A squaring procedure does not read `b`.
    pub fn run(&self, a: &Vec<u64>, b: &Vec<u64>, modulus: &Vec<u64>, inverse: u64) -> (r: Vec<u64>)
        requires
            self.wf(),
            a.len() == self.limbs,
            b.len() == self.limbs,
            modulus.len() == self.limbs,
        ensures
            r@ == computed(self.limbs as nat, self.squaring, a@, b@, modulus@, inverse),
            r.len() == self.limbs,
    {
        let registers: usize = hardware_count(self.limbs);
        let mut machine: Machine = Machine::new(
            copy_words(a),
            copy_words(b),
            copy_words(modulus),
            inverse,
            registers,
            scratch_words(self.limbs),
        );
        let ghost start = machine@;
        proof {
            let limbs = self.limbs as nat;
            let code = template(limbs, factor_buffer(self.squaring));
            assert forall|i: int| 0 <= i < self.code@.len() implies start.admits(
                #[trigger] self.code@[i],
            ) by {
                lemma_admits_runs_on(start, self.code@[i], limbs);
            }
            lemma_template_sound(limbs, factor_buffer(self.squaring));
            lemma_template_len(limbs, factor_buffer(self.squaring));
            lemma_allocation_keeps_result(code, limbs, a@, b@, modulus@, inverse);
            crate::machine::lemma_run_shape(start, self.code@);
        }
        match machine.run(&self.code) {
            Ok(_) => {},
            Err(_) => {
                assert(false);
            },
        }
        machine.operand
    }
}

/// A template is short enough for a vector.
proof fn lemma_template_len(limbs: nat, b: Buf)
    requires
        supported(limbs),
    ensures
        template(limbs, b).len() <= usize::MAX,
{
    crate::emit::lemma_template_size(limbs, b);
    assert(6 * limbs * limbs + 8 * limbs <= 6 * 18 * 18 + 8 * 18) by (nonlinear_arith)
        requires
            limbs <= 18,
    ;
}

} // verus!
