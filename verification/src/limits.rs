use vstd::prelude::*;
use vstd::string::StringExecFns;
use crate::render::decimal;
use crate::render::push_decimal;

verus! {

/// Number of hardware accumulator registers (`%r8` and up) that a generated
/// procedure may occupy.
pub const MAX_REGS: usize = 6;

/// The smallest limb count for which a procedure is generated.
pub const MIN_LIMBS: usize = 2;

/// The largest limb count for which a procedure can be generated: every
/// hardware accumulator is shared by at most three logical accumulators.
pub const MAX_LIMBS: usize = 18;

/// Why a procedure could not be generated.
#[derive(Clone, Copy, Debug, PartialEq, Eq, Structural)]
pub enum GenerationError {
    /// A limb count outside `2..=max` was asked for.
    UnsupportedLimbs { got: usize, max: usize },
    /// The instruction at `position` does not fit the limb count: it names an
    /// accumulator or a buffer word at or beyond the limb count, or touches
    /// the spill area, which belongs to the allocator.
    MalformedInstruction { position: usize },
    /// The instruction at `position` names two different accumulators that
    /// share one hardware register.
    RegisterConflict { position: usize },
}

impl GenerationError {
    /// The error in words, with the offending value.
    pub open spec fn message_text(self) -> Seq<char> {
        match self {
            GenerationError::UnsupportedLimbs { got, max } =>
                "unsupported number of limbs: got "@ + decimal(got as nat) + ", supported 2..="@
                    + decimal(max as nat),
            GenerationError::MalformedInstruction { position } => "instruction "@ + decimal(
                position as nat,
            ) + " does not fit the limb count"@,
            GenerationError::RegisterConflict { position } => "instruction "@ + decimal(
                position as nat,
            ) + " names two accumulators that share a register"@,
        }
    }

    /// The error in words, with the offending value.
    pub fn message(&self) -> (text: String)
        ensures
            text@ == self.message_text(),
    {
        let mut out: String = String::new();
        match *self {
            GenerationError::UnsupportedLimbs { got, max } => {
                out.append("unsupported number of limbs: got ");
                push_decimal(&mut out, got as u128);
                out.append(", supported 2..=");
                push_decimal(&mut out, max as u128);
            },
            GenerationError::MalformedInstruction { position } => {
                out.append("instruction ");
                push_decimal(&mut out, position as u128);
                out.append(" does not fit the limb count");
            },
            GenerationError::RegisterConflict { position } => {
                out.append("instruction ");
                push_decimal(&mut out, position as u128);
                out.append(" names two accumulators that share a register");
            },
        }
        assert(out@ =~= self.message_text());
        out
    }
}

/// Whether a procedure can be generated for `limbs` limbs.
pub open spec fn supported(limbs: nat) -> bool {
    MIN_LIMBS as nat <= limbs <= MAX_LIMBS as nat
}

/// The verdict on a limb count: `Ok` exactly for the supported ones, and
/// otherwise the error that carries the offending value.
pub open spec fn limb_verdict(limbs: usize) -> Result<(), GenerationError> {
    if limbs < MIN_LIMBS || limbs > MAX_LIMBS {
        Err(GenerationError::UnsupportedLimbs { got: limbs, max: MAX_LIMBS })
    } else {
        Ok(())
    }
}

/// Accepts the limb counts `MIN_LIMBS..=MAX_LIMBS` and rejects every other.
pub fn check_limbs(limbs: usize) -> (r: Result<(), GenerationError>)
    ensures
        r == limb_verdict(limbs),
        r is Ok <==> supported(limbs as nat),
{
    if limbs < MIN_LIMBS || limbs > MAX_LIMBS {
        Err(GenerationError::UnsupportedLimbs { got: limbs, max: MAX_LIMBS })
    } else {
        Ok(())
    }
}

} // verus!
