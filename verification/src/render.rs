use vstd::prelude::*;
use vstd::string::StringExecFns;
use crate::ir::Buf;
use crate::ir::Instr;
use crate::ir::Reg;
use crate::ir::Src;

verus! {

/// What stands before each instruction of an assembly template.
pub const LINE_OPEN: &'static str = "\n                                ";

/// What closes an assembly template.
pub const TEMPLATE_CLOSE: &'static str = "\n                        \"";

/// The character of a decimal digit.
pub open spec fn digit(d: nat) -> char {
    if d == 0 {
        '0'
    } else if d == 1 {
        '1'
    } else if d == 2 {
        '2'
    } else if d == 3 {
        '3'
    } else if d == 4 {
        '4'
    } else if d == 5 {
        '5'
    } else if d == 6 {
        '6'
    } else if d == 7 {
        '7'
    } else if d == 8 {
        '8'
    } else {
        '9'
    }
}

/// The decimal numeral of `n`.
pub open spec fn decimal(n: nat) -> Seq<char>
    decreases n,
{
    if n < 10 {
        seq![digit(n)]
    } else {
        decimal(n / 10).push(digit(n % 10))
    }
}

fn digit_str(d: usize) -> (s: &'static str)
    requires
        d < 10,
    ensures
        s@ == seq![digit(d as nat)],
{
    proof {
        reveal_strlit("0");
        reveal_strlit("1");
        reveal_strlit("2");
        reveal_strlit("3");
        reveal_strlit("4");
        reveal_strlit("5");
        reveal_strlit("6");
        reveal_strlit("7");
        reveal_strlit("8");
        reveal_strlit("9");
    }
    let s: &'static str = if d == 0 {
        "0"
    } else if d == 1 {
        "1"
    } else if d == 2 {
        "2"
    } else if d == 3 {
        "3"
    } else if d == 4 {
        "4"
    } else if d == 5 {
        "5"
    } else if d == 6 {
        "6"
    } else if d == 7 {
        "7"
    } else if d == 8 {
        "8"
    } else {
        "9"
    };
    assert(s@ =~= seq![digit(d as nat)]);
    s
}

/// Appends the decimal numeral of `n`.
pub fn push_decimal(out: &mut String, n: u128)
    ensures
        final(out)@ == old(out)@ + decimal(n as nat),
    decreases n,
{
    if n >= 10 {
        push_decimal(out, n / 10);
    }
    let d: u128 = n % 10;
    out.append(digit_str(d as usize));
    assert(out@ =~= old(out)@ + decimal(n as nat));
}

/// The placeholders under which an assembly template names its buffers.
pub struct Names<'a> {
    pub operand: &'a str,
    pub multiplier: &'a str,
    pub modulus: &'a str,
    pub spill: &'a str,
}

/// The placeholders of a template, as texts.
pub struct NameTexts {
    pub operand: Seq<char>,
    pub multiplier: Seq<char>,
    pub modulus: Seq<char>,
    pub spill: Seq<char>,
}

impl<'a> View for Names<'a> {
    type V = NameTexts;

    open spec fn view(&self) -> NameTexts {
        NameTexts {
            operand: self.operand@,
            multiplier: self.multiplier@,
            modulus: self.modulus@,
            spill: self.spill@,
        }
    }
}

impl NameTexts {
    pub open spec fn of(self, buf: Buf) -> Seq<char> {
        match buf {
            Buf::Operand => self.operand,
            Buf::Multiplier => self.multiplier,
            Buf::Modulus => self.modulus,
            Buf::Spill => self.spill,
        }
    }
}

/// The name of a register in assembly.
pub open spec fn reg_text(r: Reg) -> Seq<char> {
    match r {
        Reg::Rax => "%rax"@,
        Reg::Rbx => "%rbx"@,
        Reg::Rcx => "%rcx"@,
        Reg::Rdx => "%rdx"@,
        Reg::Acc(k) => "%r"@ + decimal(8 + k as nat),
    }
}

/// Word `index` of the buffer called `name`, as a memory operand.
pub open spec fn word_text(name: Seq<char>, index: nat) -> Seq<char> {
    decimal(8 * index) + "("@ + name + ")"@
}

/// A source operand in assembly.
pub open spec fn src_text(s: Src, names: NameTexts) -> Seq<char> {
    match s {
        Src::Reg(r) => reg_text(r),
        Src::Mem(buf, index) => word_text(names.of(buf), index as nat),
        Src::Zero => "$2"@,
        Src::Inverse => "$3"@,
    }
}

/// An instruction in assembly.
pub open spec fn instr_text(instr: Instr, names: NameTexts) -> Seq<char> {
    match instr {
        Instr::Move { src, dst } => (if src == Src::Zero {
            "mov "@
        } else {
            "movq "@
        }) + src_text(src, names) + ", "@ + reg_text(dst),
        Instr::Store { reg, buf, index } => "movq "@ + reg_text(reg) + ", "@ + word_text(
            names.of(buf),
            index as nat,
        ),
        Instr::Clear { reg } => "xorq "@ + reg_text(reg) + ", "@ + reg_text(reg),
        Instr::Mulx { src, lo, hi } => "mulxq "@ + src_text(src, names) + ", "@ + reg_text(lo)
            + ", "@ + reg_text(hi),
        Instr::Adcx { src, dst } => "adcxq "@ + src_text(src, names) + ", "@ + reg_text(dst),
        Instr::Adox { src, dst } => "adoxq "@ + src_text(src, names) + ", "@ + reg_text(dst),
    }
}

/// The first `n` instructions of `code`, one to a line.
pub open spec fn lines_text(code: Seq<Instr>, names: NameTexts, n: nat) -> Seq<char>
    decreases n,
{
    if n == 0 {
        Seq::empty()
    } else {
        lines_text(code, names, (n - 1) as nat) + LINE_OPEN@ + instr_text(code[n - 1], names)
    }
}

/// The assembly template of `code`: a string literal with one instruction
/// to a line.
pub open spec fn asm_text(code: Seq<Instr>, names: NameTexts) -> Seq<char> {
    "\""@ + lines_text(code, names, code.len()) + TEMPLATE_CLOSE@
}

fn push_reg(out: &mut String, r: Reg)
    ensures
        final(out)@ == old(out)@ + reg_text(r),
{
    match r {
        Reg::Rax => {
            out.append("%rax");
        },
        Reg::Rbx => {
            out.append("%rbx");
        },
        Reg::Rcx => {
            out.append("%rcx");
        },
        Reg::Rdx => {
            out.append("%rdx");
        },
        Reg::Acc(k) => {
            out.append("%r");
            push_decimal(out, 8 + k as u128);
            assert(out@ =~= old(out)@ + reg_text(r));
        },
    }
}

fn push_word(out: &mut String, name: &str, index: usize)
    ensures
        final(out)@ == old(out)@ + word_text(name@, index as nat),
{
    push_decimal(out, 8 * (index as u128));
    out.append("(");
    out.append(name);
    out.append(")");
    assert(out@ =~= old(out)@ + word_text(name@, index as nat));
}

fn name_of<'a>(names: &Names<'a>, buf: Buf) -> (name: &'a str)
    ensures
        name@ == names@.of(buf),
{
    match buf {
        Buf::Operand => names.operand,
        Buf::Multiplier => names.multiplier,
        Buf::Modulus => names.modulus,
        Buf::Spill => names.spill,
    }
}

fn push_src(out: &mut String, s: Src, names: &Names)
    ensures
        final(out)@ == old(out)@ + src_text(s, names@),
{
    match s {
        Src::Reg(r) => {
            push_reg(out, r);
        },
        Src::Mem(buf, index) => {
            push_word(out, name_of(names, buf), index);
        },
        Src::Zero => {
            out.append("$2");
        },
        Src::Inverse => {
            out.append("$3");
        },
    }
}

fn push_instr(out: &mut String, instr: Instr, names: &Names)
    ensures
        final(out)@ == old(out)@ + instr_text(instr, names@),
{
    match instr {
        Instr::Move { src, dst } => {
            if matches!(src, Src::Zero) {
                out.append("mov ");
            } else {
                out.append("movq ");
            }
            push_src(out, src, names);
            out.append(", ");
            push_reg(out, dst);
        },
        Instr::Store { reg, buf, index } => {
            out.append("movq ");
            push_reg(out, reg);
            out.append(", ");
            push_word(out, name_of(names, buf), index);
        },
        Instr::Clear { reg } => {
            out.append("xorq ");
            push_reg(out, reg);
            out.append(", ");
            push_reg(out, reg);
        },
        Instr::Mulx { src, lo, hi } => {
            out.append("mulxq ");
            push_src(out, src, names);
            out.append(", ");
            push_reg(out, lo);
            out.append(", ");
            push_reg(out, hi);
        },
        Instr::Adcx { src, dst } => {
            out.append("adcxq ");
            push_src(out, src, names);
            out.append(", ");
            push_reg(out, dst);
        },
        Instr::Adox { src, dst } => {
            out.append("adoxq ");
            push_src(out, src, names);
            out.append(", ");
            push_reg(out, dst);
        },
    }
    assert(out@ =~= old(out)@ + instr_text(instr, names@));
}

/// Appends the assembly template of `code`.
pub fn push_asm(out: &mut String, code: &Vec<Instr>, names: &Names)
    ensures
        final(out)@ == old(out)@ + asm_text(code@, names@),
{
    out.append("\"");
    let ghost opened = out@;
    let mut i: usize = 0;
    while i < code.len()
        invariant
            i <= code.len(),
            out@ == opened + lines_text(code@, names@, i as nat),
        decreases code.len() - i,
    {
        out.append(LINE_OPEN);
        push_instr(out, code[i], names);
        assert(out@ =~= opened + lines_text(code@, names@, (i + 1) as nat));
        i += 1;
    }
    out.append(TEMPLATE_CLOSE);
    assert(out@ =~= old(out)@ + asm_text(code@, names@));
}

/// The assembly template of `code`.
pub fn render(code: &Vec<Instr>, names: &Names) -> (text: String)
    ensures
        text@ == asm_text(code@, names@),
{
    let mut out: String = String::new();
    push_asm(&mut out, code, names);
    assert(out@ =~= asm_text(code@, names@));
    out
}

} // verus!
