use vstd::prelude::*;
use vstd::string::StringExecFns;
use crate::allocate::accs;
use crate::allocate::allocate;
use crate::allocate::allocated;
use crate::allocate::conflicting;
use crate::allocate::sound;
use crate::emit::emit;
use crate::emit::template;
use crate::ir::Buf;
use crate::ir::Instr;
use crate::limits::check_limbs;
use crate::limits::GenerationError;
use crate::limits::limb_verdict;
use crate::limits::MAX_LIMBS;
use crate::limits::MAX_REGS;
use crate::limits::supported;
use crate::procedure::factor_buffer;
use crate::procedure::Procedure;
use crate::registers::hardware_count;
use crate::registers::hardware_registers;
use crate::registers::scratch_words;
use crate::registers::spill_words;
use crate::render::asm_text;
use crate::render::decimal;
use crate::render::Names;
use crate::render::NameTexts;
use crate::render::push_asm;
use crate::render::push_decimal;
use crate::render::render;

verus! {

/// The head of the multiplication macro.
pub const MUL_HEAD: &'static str =
    "macro_rules! asm_mul {\n        ($limbs:expr, $a:expr, $b:expr, $modulus:expr, $inverse:expr) => {\n            match $limbs {";

/// The head of the squaring macro.
pub const SQUARE_HEAD: &'static str =
    "macro_rules! asm_square {\n        ($limbs:expr, $a:expr, $modulus:expr, $inverse:expr) => {\n            match $limbs {";

pub const ARM_OPEN: &'static str = "\n                ";

pub const ARM_ARROW: &'static str = " => {";

pub const SPILLS_OPEN: &'static str = "\n                    let mut spills = [0u64; ";

pub const SPILLS_CLOSE: &'static str = "];";

pub const ASM_OPEN: &'static str = "\n                    unsafe {\n                        asm!(";

pub const OPERANDS: &'static str =
    "\n                            :\n                            : \"r\"(&mut $a),                   // $0\n                              \"r\"(&$modulus),                 // $1\n                              \"i\"(0u64),                      // $2\n                              \"i\"($inverse)";

pub const FACTOR_MUL: &'static str =
    ",                  // $3\n                              \"r\"(&$b)";

pub const FACTOR_SQUARE: &'static str = "                   // $3";

pub const SPILLS_MUL: &'static str =
    ",                       // $4\n                              \"r\"(&mut spills)                // $5";

pub const SPILLS_SQUARE: &'static str =
    ",                       // $3\n                              \"r\"(&mut spills)                // $4";

pub const NO_SPILLS_MUL: &'static str = "                        // $4";

pub const CLOBBER_OPEN: &'static str =
    "\n                            : \"rcx\", \"rbx\", \"rdx\", \"rax\", ";

pub const CLOBBER_REG_OPEN: &'static str = "\"r";

pub const CLOBBER_REG_CLOSE: &'static str = "\", ";

pub const ARM_CLOSE: &'static str =
    "\"cc\", \"memory\"\n                        );\n                    }\n                }";

pub const FALLBACK_OPEN: &'static str =
    "\n            x => panic!(\"unsupported number of limbs: got {}, supported 2..=";

pub const FALLBACK_CLOSE: &'static str = "\", x)\n        };\n    }\n}\n\n";

/// The placeholders of the macros' assembly templates: `$0` for `a`, `$1`
/// for the modulus, and after the two immediates `$4` for `b` and `$5` for
/// the scratch words, or `$4` for the scratch words where there is no `b`.
pub open spec fn macro_names(is_mul: bool) -> NameTexts {
    NameTexts {
        operand: "$0"@,
        multiplier: "$4"@,
        modulus: "$1"@,
        spill: if is_mul {
            "$5"@
        } else {
            "$4"@
        },
    }
}

/// The accumulators `%r8..` that an arm declares as clobbered, the first
/// `n` of them.
pub open spec fn clobber_text(n: nat) -> Seq<char>
    decreases n,
{
    if n == 0 {
        Seq::empty()
    } else {
        clobber_text((n - 1) as nat) + CLOBBER_REG_OPEN@ + decimal(8 + (n - 1) as nat)
            + CLOBBER_REG_CLOSE@
    }
}

/// The declaration of the scratch words in an arm, if it has any.
pub open spec fn scratch_text(limbs: nat) -> Seq<char> {
    if limbs > MAX_REGS {
        SPILLS_OPEN@ + decimal(spill_words(limbs)) + SPILLS_CLOSE@
    } else {
        Seq::empty()
    }
}

/// The operands of an arm after the inverse: the second factor, if there is
/// one, and the scratch words, if there are any.
pub open spec fn tail_operands_text(limbs: nat, is_mul: bool) -> Seq<char> {
    (if is_mul {
        FACTOR_MUL@
    } else {
        FACTOR_SQUARE@
    }) + (if limbs > MAX_REGS {
        if is_mul {
            SPILLS_MUL@
        } else {
            SPILLS_SQUARE@
        }
    } else if is_mul {
        NO_SPILLS_MUL@
    } else {
        Seq::empty()
    })
}

/// The start of the match arm for `limbs` limbs, up to the assembly
/// template.
pub open spec fn arm_head_text(limbs: nat) -> Seq<char> {
    ARM_OPEN@ + decimal(limbs) + ARM_ARROW@ + scratch_text(limbs) + ASM_OPEN@
}

/// The end of the match arm for `limbs` limbs, after the assembly template:
/// the operands and the registers that the procedure clobbers.
pub open spec fn arm_tail_text(limbs: nat, is_mul: bool) -> Seq<char> {
    OPERANDS@ + tail_operands_text(limbs, is_mul) + CLOBBER_OPEN@ + clobber_text(
        hardware_registers(limbs),
    ) + ARM_CLOSE@
}

/// The match arm for `limbs` limbs: the allocated procedure as inline
/// assembly, with its operands and the registers it clobbers.
pub open spec fn arm_text(limbs: nat, is_mul: bool) -> Seq<char> {
    arm_head_text(limbs) + asm_text(
        allocated(template(limbs, factor_buffer(!is_mul)), limbs),
        macro_names(is_mul),
    ) + arm_tail_text(limbs, is_mul)
}

/// The arms for `2..=n` limbs.
pub open spec fn arms_text(n: nat, is_mul: bool) -> Seq<char>
    decreases n,
{
    if n < 2 {
        Seq::empty()
    } else {
        arms_text((n - 1) as nat, is_mul) + arm_text(n, is_mul)
    }
}

/// The arm that refuses every other limb count, and the end of the macro.
pub open spec fn fallback_text(max_limbs: nat) -> Seq<char> {
    FALLBACK_OPEN@ + decimal(max_limbs) + FALLBACK_CLOSE@
}

/// The arms of one macro for `2..=max_limbs` limbs and its end.
pub open spec fn matches_text(max_limbs: nat, is_mul: bool) -> Seq<char> {
    arms_text(max_limbs, is_mul) + fallback_text(max_limbs)
}

/// The two macros that dispatch on the limb count, `asm_mul` and
/// `asm_square`, with an arm for each of `2..=max_limbs` limbs.
pub open spec fn macro_text(max_limbs: nat) -> Seq<char> {
    MUL_HEAD@ + matches_text(max_limbs, true) + SQUARE_HEAD@ + matches_text(max_limbs, false)
}

/// The assembly template of the multiplication for `limbs` limbs before
/// allocation, with one accumulator per limb: `a` and `b` are the
/// placeholders of the two factors, `$1` is that of the modulus. Limb counts
/// outside `2..=18` are rejected.
pub fn generate_asm_mul_string(limbs: usize, a: &str, b: &str) -> (r: Result<
    String,
    GenerationError,
>)
    ensures
        r is Ok <==> supported(limbs as nat),
        r matches Ok(text) ==> text@ == asm_text(
            template(limbs as nat, Buf::Multiplier),
            (NameTexts { operand: a@, multiplier: b@, modulus: "$1"@, spill: ""@ }),
        ),
        r matches Err(e) ==> limb_verdict(limbs) == Err::<(), GenerationError>(e),
{
    match emit(limbs, Buf::Multiplier) {
        Ok(code) => {
            let names = Names { operand: a, multiplier: b, modulus: "$1", spill: "" };
            Ok(render(&code, &names))
        },
        Err(e) => Err(e),
    }
}

/// Allocates a procedure for `limbs` limbs to the hardware accumulators and
/// returns its assembly template. Fails as `allocate` does.
pub fn transform_asm_mul_string(limbs: usize, code: &Vec<Instr>, names: &Names) -> (r: Result<
    String,
    GenerationError,
>)
    ensures
        r is Ok <==> supported(limbs as nat) && (limbs <= MAX_REGS || sound(code@, limbs as nat)),
        r matches Ok(text) ==> text@ == asm_text(allocated(code@, limbs as nat), names@),
        r matches Err(e) ==> match e {
            GenerationError::MalformedInstruction { position } => {
                &&& supported(limbs as nat)
                &&& position < code.len()
                &&& sound(code@.take(position as int), limbs as nat)
                &&& !code[position as int].fits(limbs as nat)
            },
            GenerationError::RegisterConflict { position } => {
                &&& supported(limbs as nat)
                &&& position < code.len()
                &&& sound(code@.take(position as int), limbs as nat)
                &&& code[position as int].fits(limbs as nat)
                &&& conflicting(accs(code[position as int]), limbs as nat)
            },
            _ => limb_verdict(limbs) == Err::<(), GenerationError>(e),
        },
{
    match allocate(limbs, code) {
        Ok(bound) => Ok(render(&bound, names)),
        Err(e) => Err(e),
    }
}

fn push_clobbers(out: &mut String, n: usize)
    requires
        n <= MAX_REGS,
    ensures
        final(out)@ == old(out)@ + clobber_text(n as nat),
{
    let mut k: usize = 0;
    while k < n
        invariant
            k <= n <= MAX_REGS,
            out@ == old(out)@ + clobber_text(k as nat),
        decreases n - k,
    {
        out.append(CLOBBER_REG_OPEN);
        push_decimal(out, 8 + k as u128);
        out.append(CLOBBER_REG_CLOSE);
        assert(out@ =~= old(out)@ + clobber_text((k + 1) as nat));
        k += 1;
    }
}

fn push_scratch(out: &mut String, limbs: usize)
    requires
        limbs <= MAX_LIMBS,
    ensures
        final(out)@ == old(out)@ + scratch_text(limbs as nat),
{
    if limbs > MAX_REGS {
        out.append(SPILLS_OPEN);
        push_decimal(out, scratch_words(limbs) as u128);
        out.append(SPILLS_CLOSE);
    }
    assert(out@ =~= old(out)@ + scratch_text(limbs as nat));
}

fn push_tail_operands(out: &mut String, limbs: usize, is_mul: bool)
    ensures
        final(out)@ == old(out)@ + tail_operands_text(limbs as nat, is_mul),
{
    if is_mul {
        out.append(FACTOR_MUL);
    } else {
        out.append(FACTOR_SQUARE);
    }
    if limbs > MAX_REGS {
        if is_mul {
            out.append(SPILLS_MUL);
        } else {
            out.append(SPILLS_SQUARE);
        }
    } else if is_mul {
        out.append(NO_SPILLS_MUL);
    }
    assert(out@ =~= old(out)@ + tail_operands_text(limbs as nat, is_mul));
}

fn push_arm_head(out: &mut String, limbs: usize)
    requires
        limbs <= MAX_LIMBS,
    ensures
        final(out)@ == old(out)@ + arm_head_text(limbs as nat),
{
    let ghost start = out@;
    out.append(ARM_OPEN);
    let ghost mut piece = ARM_OPEN@;
    push_decimal(out, limbs as u128);
    proof {
        assert(out@ =~= start + (piece + decimal(limbs as nat)));
        piece = piece + decimal(limbs as nat);
    }
    out.append(ARM_ARROW);
    proof {
        assert(out@ =~= start + (piece + ARM_ARROW@));
        piece = piece + ARM_ARROW@;
    }
    push_scratch(out, limbs);
    proof {
        assert(out@ =~= start + (piece + scratch_text(limbs as nat)));
        piece = piece + scratch_text(limbs as nat);
    }
    out.append(ASM_OPEN);
    proof {
        assert(out@ =~= start + (piece + ASM_OPEN@));
    }
}

fn push_arm_tail(out: &mut String, limbs: usize, is_mul: bool)
    requires
        limbs <= MAX_LIMBS,
    ensures
        final(out)@ == old(out)@ + arm_tail_text(limbs as nat, is_mul),
{
    let used: usize = hardware_count(limbs);
    let ghost start = out@;
    out.append(OPERANDS);
    let ghost mut piece = OPERANDS@;
    push_tail_operands(out, limbs, is_mul);
    proof {
        assert(out@ =~= start + (piece + tail_operands_text(limbs as nat, is_mul)));
        piece = piece + tail_operands_text(limbs as nat, is_mul);
    }
    out.append(CLOBBER_OPEN);
    proof {
        assert(out@ =~= start + (piece + CLOBBER_OPEN@));
        piece = piece + CLOBBER_OPEN@;
    }
    push_clobbers(out, used);
    proof {
        assert(out@ =~= start + (piece + clobber_text(used as nat)));
        piece = piece + clobber_text(used as nat);
    }
    out.append(ARM_CLOSE);
    proof {
        assert(out@ =~= start + (piece + ARM_CLOSE@));
    }
}

fn macro_operand_names(is_mul: bool) -> (names: Names<'static>)
    ensures
        names@ == macro_names(is_mul),
{
    Names {
        operand: "$0",
        multiplier: "$4",
        modulus: "$1",
        spill: if is_mul {
            "$5"
        } else {
            "$4"
        },
    }
}

fn push_arm(out: &mut String, limbs: usize, is_mul: bool)
    requires
        supported(limbs as nat),
    ensures
        final(out)@ == old(out)@ + arm_text(limbs as nat, is_mul),
{
    let procedure: Procedure = match Procedure::generate(limbs, !is_mul) {
        Ok(p) => p,
        Err(_) => {
            assert(false);
            return ;
        },
    };
    let names = macro_operand_names(is_mul);
    let ghost start = out@;
    let ghost body = asm_text(procedure.code@, names@);
    push_arm_head(out, limbs);
    push_asm(out, &procedure.code, &names);
    assert(out@ =~= start + (arm_head_text(limbs as nat) + body));
    push_arm_tail(out, limbs, is_mul);
    assert(out@ =~= start + (arm_head_text(limbs as nat) + body + arm_tail_text(
        limbs as nat,
        is_mul,
    )));
}

/// Appends to `macro_string` the arms of one macro: for each limb count in
/// `2..=num_limbs` the generated procedure as inline assembly, and last the
/// arm that refuses every other limb count. `is_mul` chooses between the
/// multiplication and the squaring. Limb counts outside `2..=18` are
/// rejected.
pub fn generate_matches(num_limbs: usize, macro_string: String, is_mul: bool) -> (r: Result<
    String,
    GenerationError,
>)
    ensures
        r is Ok <==> supported(num_limbs as nat),
        r matches Ok(text) ==> text@ == macro_string@ + matches_text(num_limbs as nat, is_mul),
        r matches Err(e) ==> limb_verdict(num_limbs) == Err::<(), GenerationError>(e),
{
    match check_limbs(num_limbs) {
        Err(e) => {
            return Err(e);
        },
        Ok(_) => {},
    }
    let mut out: String = macro_string;
    let mut i: usize = 2;
    while i <= num_limbs
        invariant
            2 <= i <= num_limbs + 1,
            num_limbs <= MAX_LIMBS,
            out@ == macro_string@ + arms_text((i - 1) as nat, is_mul),
        decreases num_limbs + 1 - i,
    {
        push_arm(&mut out, i, is_mul);
        assert(out@ =~= macro_string@ + arms_text(i as nat, is_mul));
        i += 1;
    }
    out.append(FALLBACK_OPEN);
    push_decimal(&mut out, num_limbs as u128);
    out.append(FALLBACK_CLOSE);
    assert(out@ =~= macro_string@ + matches_text(num_limbs as nat, is_mul));
    Ok(out)
}

/// The source text of the two dispatch macros, `asm_mul` and `asm_square`,
/// with a generated procedure for each limb count in `2..=num_limbs`. Limb
/// counts outside `2..=18` are rejected, with the offending value in the
/// error.
pub fn generate_macro_string(num_limbs: usize) -> (r: Result<String, GenerationError>)
    ensures
        r is Ok <==> supported(num_limbs as nat),
        r matches Ok(text) ==> text@ == macro_text(num_limbs as nat),
        r matches Err(e) ==> limb_verdict(num_limbs) == Err::<(), GenerationError>(e),
{
    let head: String = String::from_str(MUL_HEAD);
    let with_mul: String = match generate_matches(num_limbs, head, true) {
        Ok(text) => text,
        Err(e) => {
            return Err(e);
        },
    };
    let mut with_head: String = with_mul;
    with_head.append(SQUARE_HEAD);
    match generate_matches(num_limbs, with_head, false) {
        Ok(text) => {
            assert(text@ =~= macro_text(num_limbs as nat));
            Ok(text)
        },
        Err(e) => Err(e),
    }
}

} // verus!
