//! A second register allocator, which works on the text of a template: it
//! finds the registers by their names, rotates each shared register where
//! the names change, and renames at the end. It must produce, character for
//! character, the text of the procedure that the library allocates.

use field_assembly::emit::emit;
use field_assembly::generator::generate_asm_mul_string;
use field_assembly::generator::transform_asm_mul_string;
use field_assembly::ir::Buf;
use field_assembly::registers::get_registers;
use field_assembly::render::Names;
use regex::Regex;

const MAX_REGS: usize = 6;
const LINE_OPEN: &str = "\n                                ";

fn allocate_text(limbs: usize, template: &str, spills: &str, a: &str) -> String {
    let (n_spills, spillable) = get_registers(limbs);
    let register = Regex::new(r"%r\d+").unwrap();
    let number = Regex::new(r"\d+").unwrap();

    let mut lines: Vec<String> = Vec::new();
    let mut uses: Vec<Vec<(usize, usize)>> = vec![Vec::new(); n_spills];
    for (at, line) in template.split('\n').enumerate() {
        lines.push(line.to_string());
        for word in line.split(' ') {
            if register.is_match(word) {
                let found = number.captures(word).unwrap();
                let reg = found[0].parse::<usize>().unwrap() - 8;
                for group in 0..n_spills {
                    if spillable[group].contains(&reg) {
                        uses[group].push((at, reg));
                    }
                }
            }
        }
    }

    for group in 0..n_spills {
        let home = 8 + spillable[group][0];
        let mut swaps: Vec<(usize, usize, usize)> = Vec::new();
        for pair in uses[group].windows(2) {
            if pair[0].1 != pair[1].1 {
                swaps.push((pair[0].0, pair[0].1, pair[1].1));
            }
        }
        let last = *uses[group].last().unwrap();
        swaps.push((last.0, last.1, last.1));

        let members = spillable[group].len();
        let slot = |reg: usize| -> usize {
            if members > 2 {
                reg
            } else if reg >= MAX_REGS {
                n_spills + group
            } else {
                group
            }
        };
        let count = swaps.len();
        // The last value of each member goes to the result, and its store is dropped.
        let first_final = count - 2 * members;
        for (j, swap) in swaps.iter().enumerate() {
            if j < first_final {
                lines[swap.0] += &format!(
                    "{}movq %r{}, {}({}){}movq {}({}), %r{}",
                    LINE_OPEN,
                    home,
                    8 * slot(swap.1),
                    spills,
                    LINE_OPEN,
                    8 * slot(swap.2),
                    spills,
                    home
                );
            } else if j < count - members - 1 {
                lines[swap.0] += &format!(
                    "{}movq %r{}, {}({}){}movq {}({}), %r{}",
                    LINE_OPEN,
                    home,
                    8 * swap.1,
                    a,
                    LINE_OPEN,
                    8 * slot(swap.2),
                    spills,
                    home
                );
            } else if j < count - members {
                lines[swap.0] += &format!("{}movq %r{}, {}({})", LINE_OPEN, home, 8 * swap.1, a);
            } else {
                lines[swap.0] = String::new();
            }
        }
    }

    let length = lines.len();
    for i in 0..limbs + 1 {
        if lines[length - 1 - i].is_empty() {
            lines.remove(length - 1 - i);
        }
    }
    let mut text = lines.join("\n");
    for group in 0..n_spills {
        for member in 1..spillable[group].len() {
            text = text.replace(
                &format!("%r{}", 8 + spillable[group][member]),
                &format!("%r{}", 8 + spillable[group][0]),
            );
        }
    }
    text
}

fn compare(limbs: usize, squaring: bool) {
    let b = if squaring { "$0" } else { "$4" };
    let spills = if squaring { "$4" } else { "$5" };
    let template = generate_asm_mul_string(limbs, "$0", b).unwrap();
    let expected = allocate_text(limbs, &template, spills, "$0");
    let buf = if squaring { Buf::Operand } else { Buf::Multiplier };
    let names = Names { operand: "$0", multiplier: "$4", modulus: "$1", spill: spills };
    let got = transform_asm_mul_string(limbs, &emit(limbs, buf).unwrap(), &names).unwrap();
    assert_eq!(got, expected, "limbs = {}, squaring = {}", limbs, squaring);
}

#[test]
fn text_pass_agrees_without_spills() {
    for limbs in 2..=6 {
        compare(limbs, false);
        compare(limbs, true);
    }
}

#[test]
fn text_pass_agrees_with_pairs_in_the_middle() {
    for limbs in 7..=9 {
        compare(limbs, false);
        compare(limbs, true);
    }
}

#[test]
fn text_pass_agrees_with_pairs_from_the_bottom() {
    for limbs in 10..=12 {
        compare(limbs, false);
        compare(limbs, true);
    }
}

#[test]
fn text_pass_agrees_with_triples() {
    for limbs in 13..=18 {
        compare(limbs, false);
        compare(limbs, true);
    }
}
