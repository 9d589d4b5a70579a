use field_assembly::allocate::allocate;
use field_assembly::emit::emit;
use field_assembly::generator::generate_asm_mul_string;
use field_assembly::generator::generate_macro_string;
use field_assembly::generator::generate_matches;
use field_assembly::generator::transform_asm_mul_string;
use field_assembly::ir::Buf;
use field_assembly::ir::Instr;
use field_assembly::ir::Reg;
use field_assembly::ir::Src;
use field_assembly::limits::check_limbs;
use field_assembly::limits::GenerationError;
use field_assembly::procedure::Procedure;
use field_assembly::registers::assign_homes;
use field_assembly::registers::get_registers;
use field_assembly::render::render;
use field_assembly::render::Names;

const MACRO_FOR_TWO_LIMBS: &str = r#"macro_rules! asm_mul {
        ($limbs:expr, $a:expr, $b:expr, $modulus:expr, $inverse:expr) => {
            match $limbs {
                2 => {
                    unsafe {
                        asm!("
                                movq 0($0), %rdx
                                xorq %rcx, %rcx
                                mulxq 0($4), %r8, %r9
                                mulxq 8($4), %rax, %rcx
                                mov $2, %rbx
                                adcxq %rax, %r9
                                adcxq %rbx, %rcx
                                movq $3, %rdx
                                mulxq %r8, %rdx, %rax
                                mulxq 0($1), %rax, %rbx
                                adcxq %r8, %rax
                                adoxq %rbx, %r9
                                mulxq 8($1), %rax, %r8
                                mov $2, %rbx
                                adcxq %rax, %r9
                                adoxq %rcx, %r8
                                adcxq %rbx, %r8
                                movq 8($0), %rdx
                                mulxq 0($4), %rax, %rbx
                                adcxq %rax, %r9
                                adoxq %rbx, %r8
                                mulxq 8($4), %rax, %rcx
                                mov $2, %rbx
                                adcxq %rax, %r8
                                adoxq %rbx, %rcx
                                adcxq %rbx, %rcx
                                movq $3, %rdx
                                mulxq %r9, %rdx, %rax
                                mulxq 0($1), %rax, %rbx
                                adcxq %r9, %rax
                                adoxq %rbx, %r8
                                mulxq 8($1), %rax, %r9
                                mov $2, %rbx
                                adcxq %rax, %r8
                                adoxq %rcx, %r9
                                adcxq %rbx, %r9
                                movq %r8, 0($0)
                                movq %r9, 8($0)
                        "
                            :
                            : "r"(&mut $a),                   // $0
                              "r"(&$modulus),                 // $1
                              "i"(0u64),                      // $2
                              "i"($inverse),                  // $3
                              "r"(&$b)                        // $4
                            : "rcx", "rbx", "rdx", "rax", "r8", "r9", "cc", "memory"
                        );
                    }
                }
            x => panic!("unsupported number of limbs: got {}, supported 2..=2", x)
        };
    }
}

macro_rules! asm_square {
        ($limbs:expr, $a:expr, $modulus:expr, $inverse:expr) => {
            match $limbs {
                2 => {
                    unsafe {
                        asm!("
                                movq 0($0), %rdx
                                xorq %rcx, %rcx
                                mulxq 0($0), %r8, %r9
                                mulxq 8($0), %rax, %rcx
                                mov $2, %rbx
                                adcxq %rax, %r9
                                adcxq %rbx, %rcx
                                movq $3, %rdx
                                mulxq %r8, %rdx, %rax
                                mulxq 0($1), %rax, %rbx
                                adcxq %r8, %rax
                                adoxq %rbx, %r9
                                mulxq 8($1), %rax, %r8
                                mov $2, %rbx
                                adcxq %rax, %r9
                                adoxq %rcx, %r8
                                adcxq %rbx, %r8
                                movq 8($0), %rdx
                                mulxq 0($0), %rax, %rbx
                                adcxq %rax, %r9
                                adoxq %rbx, %r8
                                mulxq 8($0), %rax, %rcx
                                mov $2, %rbx
                                adcxq %rax, %r8
                                adoxq %rbx, %rcx
                                adcxq %rbx, %rcx
                                movq $3, %rdx
                                mulxq %r9, %rdx, %rax
                                mulxq 0($1), %rax, %rbx
                                adcxq %r9, %rax
                                adoxq %rbx, %r8
                                mulxq 8($1), %rax, %r9
                                mov $2, %rbx
                                adcxq %rax, %r8
                                adoxq %rcx, %r9
                                adcxq %rbx, %r9
                                movq %r8, 0($0)
                                movq %r9, 8($0)
                        "
                            :
                            : "r"(&mut $a),                   // $0
                              "r"(&$modulus),                 // $1
                              "i"(0u64),                      // $2
                              "i"($inverse)                   // $3
                            : "rcx", "rbx", "rdx", "rax", "r8", "r9", "cc", "memory"
                        );
                    }
                }
            x => panic!("unsupported number of limbs: got {}, supported 2..=2", x)
        };
    }
}

"#;

#[test]
fn macro_for_two_limbs_is_exact() {
    let text = generate_macro_string(2).unwrap();
    assert_eq!(text, MACRO_FOR_TWO_LIMBS);
}

#[test]
fn macro_has_an_arm_for_each_limb_count() {
    let text = generate_macro_string(8).unwrap();
    for limbs in 2..=8 {
        let arm = format!("\n                {} => {{", limbs);
        assert_eq!(text.matches(arm.as_str()).count(), 2);
    }
    assert_eq!(text.matches("\n                9 => {").count(), 0);
    assert_eq!(
        text.matches("x => panic!(\"unsupported number of limbs: got {}, supported 2..=8\", x)").count(),
        2
    );
    assert_eq!(text.matches("let mut spills = [0u64; 2];").count(), 2);
    assert_eq!(text.matches("let mut spills = [0u64; 4];").count(), 2);
    assert!(text.starts_with("macro_rules! asm_mul {"));
    assert!(text.contains("macro_rules! asm_square {"));
}

#[test]
fn rejects_limb_counts_out_of_range() {
    assert_eq!(generate_macro_string(0), Err(GenerationError::UnsupportedLimbs { got: 0, max: 18 }));
    assert_eq!(generate_macro_string(1), Err(GenerationError::UnsupportedLimbs { got: 1, max: 18 }));
    assert_eq!(
        generate_macro_string(19),
        Err(GenerationError::UnsupportedLimbs { got: 19, max: 18 })
    );
    assert_eq!(
        generate_macro_string(1000),
        Err(GenerationError::UnsupportedLimbs { got: 1000, max: 18 })
    );
    assert_eq!(check_limbs(2), Ok(()));
    assert_eq!(check_limbs(18), Ok(()));
    assert_eq!(emit(1, Buf::Multiplier), Err(GenerationError::UnsupportedLimbs { got: 1, max: 18 }));
    assert_eq!(emit(19, Buf::Multiplier), Err(GenerationError::UnsupportedLimbs { got: 19, max: 18 }));
    assert_eq!(
        allocate(19, &Vec::new()),
        Err(GenerationError::UnsupportedLimbs { got: 19, max: 18 })
    );
    assert_eq!(allocate(0, &Vec::new()), Err(GenerationError::UnsupportedLimbs { got: 0, max: 18 }));
    assert!(Procedure::generate(0, false).is_err());
    assert!(Procedure::generate(19, true).is_err());
    assert_eq!(
        generate_matches(19, String::new(), true),
        Err(GenerationError::UnsupportedLimbs { got: 19, max: 18 })
    );
    assert_eq!(
        generate_asm_mul_string(1, "$0", "$4"),
        Err(GenerationError::UnsupportedLimbs { got: 1, max: 18 })
    );
}

#[test]
fn spill_groups_follow_the_limb_count() {
    assert_eq!(get_registers(2), (0, vec![]));
    assert_eq!(get_registers(6), (0, vec![]));
    assert_eq!(get_registers(7), (1, vec![vec![3, 6]]));
    assert_eq!(get_registers(8), (2, vec![vec![3, 6], vec![4, 7]]));
    assert_eq!(get_registers(9), (3, vec![vec![3, 6], vec![4, 7], vec![5, 8]]));
    assert_eq!(
        get_registers(10),
        (4, vec![vec![0, 6], vec![1, 7], vec![2, 8], vec![3, 9]])
    );
    assert_eq!(
        get_registers(12),
        (6, vec![vec![0, 6], vec![1, 7], vec![2, 8], vec![3, 9], vec![4, 10], vec![5, 11]])
    );
    assert_eq!(
        get_registers(13),
        (6, vec![vec![0, 6, 12], vec![1, 7], vec![2, 8], vec![3, 9], vec![4, 10], vec![5, 11]])
    );
    assert_eq!(
        get_registers(18),
        (
            6,
            vec![
                vec![0, 6, 12],
                vec![1, 7, 13],
                vec![2, 8, 14],
                vec![3, 9, 15],
                vec![4, 10, 16],
                vec![5, 11, 17]
            ]
        )
    );
}

#[test]
fn homes_and_scratch_words_follow_the_groups() {
    let seven = assign_homes(7);
    assert_eq!(seven.homes, vec![0, 1, 2, 3, 4, 5, 3]);
    assert_eq!(seven.slots[3], 0);
    assert_eq!(seven.slots[6], 1);
    let ten = assign_homes(10);
    assert_eq!(ten.homes, vec![0, 1, 2, 3, 4, 5, 0, 1, 2, 3]);
    assert_eq!(ten.slots[2], 2);
    assert_eq!(ten.slots[8], 6);
    let fourteen = assign_homes(14);
    assert_eq!(fourteen.homes, vec![0, 1, 2, 3, 4, 5, 0, 1, 2, 3, 4, 5, 0, 1]);
    assert_eq!(fourteen.slots[13], 13);
    assert_eq!(fourteen.slots[5], 5);
    assert_eq!(fourteen.slots[11], 11);
}

#[test]
fn template_sizes() {
    let emitted = [
        38, 75, 124, 185, 258, 343, 440, 549, 670, 803, 948, 1105, 1274, 1455, 1648, 1853, 2070,
    ];
    let allocated = [
        38, 75, 124, 185, 258, 400, 570, 768, 994, 1248, 1530, 1792, 2066, 2364, 2682, 3020, 3378,
    ];
    for limbs in 2..=18usize {
        let code = emit(limbs, Buf::Multiplier).unwrap();
        assert_eq!(code.len(), emitted[limbs - 2]);
        let bound = allocate(limbs, &code).unwrap();
        assert_eq!(bound.len(), allocated[limbs - 2]);
        let squaring = emit(limbs, Buf::Operand).unwrap();
        assert_eq!(allocate(limbs, &squaring).unwrap().len(), allocated[limbs - 2]);
    }
}

#[test]
fn template_for_two_limbs() {
    let text = generate_asm_mul_string(2, "$0", "$4").unwrap();
    let expected = [
        "\"",
        "movq 0($0), %rdx",
        "xorq %rcx, %rcx",
        "mulxq 0($4), %r8, %r9",
        "mulxq 8($4), %rax, %rcx",
        "mov $2, %rbx",
        "adcxq %rax, %r9",
        "adcxq %rbx, %rcx",
        "movq $3, %rdx",
        "mulxq %r8, %rdx, %rax",
        "mulxq 0($1), %rax, %rbx",
        "adcxq %r8, %rax",
        "adoxq %rbx, %r9",
        "mulxq 8($1), %rax, %r8",
        "mov $2, %rbx",
        "adcxq %rax, %r9",
        "adoxq %rcx, %r8",
        "adcxq %rbx, %r8",
        "movq 8($0), %rdx",
        "mulxq 0($4), %rax, %rbx",
        "adcxq %rax, %r9",
        "adoxq %rbx, %r8",
        "mulxq 8($4), %rax, %rcx",
        "mov $2, %rbx",
        "adcxq %rax, %r8",
        "adoxq %rbx, %rcx",
        "adcxq %rbx, %rcx",
        "movq $3, %rdx",
        "mulxq %r9, %rdx, %rax",
        "mulxq 0($1), %rax, %rbx",
        "adcxq %r9, %rax",
        "adoxq %rbx, %r8",
        "mulxq 8($1), %rax, %r9",
        "mov $2, %rbx",
        "adcxq %rax, %r8",
        "adoxq %rcx, %r9",
        "adcxq %rbx, %r9",
        "movq %r8, 0($0)",
        "movq %r9, 8($0)",
        "\"",
    ];
    let lines: Vec<&str> = text.split('\n').map(|l| l.trim()).collect();
    assert_eq!(lines, expected);
}

#[test]
fn first_spill_rotates_one_register() {
    let code = emit(7, Buf::Multiplier).unwrap();
    let names = Names { operand: "$0", multiplier: "$4", modulus: "$1", spill: "$5" };
    let text = transform_asm_mul_string(7, &code, &names).unwrap();
    let lines: Vec<&str> = text.split('\n').map(|l| l.trim()).collect();
    assert_eq!(lines.len(), 402);
    assert_eq!(
        &lines[..12],
        &[
            "\"",
            "movq 0($0), %rdx",
            "xorq %rcx, %rcx",
            "mulxq 0($4), %r8, %r9",
            "mulxq 8($4), %rax, %r10",
            "adcxq %rax, %r9",
            "mulxq 16($4), %rax, %r11",
            "adcxq %rax, %r10",
            "mulxq 24($4), %rax, %r12",
            "adcxq %rax, %r11",
            "movq %r11, 0($5)",
            "movq 8($5), %r11",
        ]
    );
    assert_eq!(
        &lines[lines.len() - 8..],
        &[
            "adcxq %rbx, %r11",
            "movq %r11, 48($0)",
            "movq %r8, 0($0)",
            "movq %r9, 8($0)",
            "movq %r10, 16($0)",
            "movq %r12, 32($0)",
            "movq %r13, 40($0)",
            "\"",
        ]
    );
    for line in lines.iter() {
        assert!(!line.contains("%r14"));
    }
    assert_eq!(text, render(&allocate(7, &code).unwrap(), &names));
}

#[test]
fn allocation_leaves_small_procedures_alone() {
    for limbs in 2..=6usize {
        let code = emit(limbs, Buf::Multiplier).unwrap();
        assert_eq!(allocate(limbs, &code).unwrap(), code);
    }
    let odd = vec![Instr::Store { reg: Reg::Acc(40), buf: Buf::Spill, index: 9 }];
    assert_eq!(allocate(4, &odd).unwrap(), odd);
}

#[test]
fn allocation_uses_hardware_accumulators_only() {
    for limbs in 7..=18usize {
        let code = allocate(limbs, &emit(limbs, Buf::Multiplier).unwrap()).unwrap();
        for instr in code.iter() {
            let regs: Vec<Reg> = match *instr {
                Instr::Move { src, dst } => vec![dst, source_register(src)],
                Instr::Store { reg, .. } => vec![reg],
                Instr::Clear { reg } => vec![reg],
                Instr::Mulx { src, lo, hi } => vec![lo, hi, source_register(src)],
                Instr::Adcx { src, dst } => vec![dst, source_register(src)],
                Instr::Adox { src, dst } => vec![dst, source_register(src)],
            };
            for reg in regs {
                if let Reg::Acc(k) = reg {
                    assert!(k < 6);
                }
            }
        }
    }
}

fn source_register(src: Src) -> Reg {
    match src {
        Src::Reg(r) => r,
        _ => Reg::Rax,
    }
}

#[test]
fn allocation_reports_the_first_bad_instruction() {
    let mut code = emit(8, Buf::Multiplier).unwrap();
    code[5] = Instr::Move { src: Src::Mem(Buf::Operand, 8), dst: Reg::Rdx };
    code[9] = Instr::Adcx { src: Src::Reg(Reg::Acc(4)), dst: Reg::Acc(7) };
    assert_eq!(allocate(8, &code), Err(GenerationError::MalformedInstruction { position: 5 }));
    code[5] = Instr::Move { src: Src::Mem(Buf::Operand, 7), dst: Reg::Rdx };
    assert_eq!(allocate(8, &code), Err(GenerationError::RegisterConflict { position: 9 }));
    code[9] = Instr::Adcx { src: Src::Reg(Reg::Acc(4)), dst: Reg::Acc(6) };
    assert!(allocate(8, &code).is_ok());
    code[20] = Instr::Store { reg: Reg::Rax, buf: Buf::Spill, index: 0 };
    assert_eq!(allocate(8, &code), Err(GenerationError::MalformedInstruction { position: 20 }));
    code[20] = Instr::Clear { reg: Reg::Acc(8) };
    assert_eq!(allocate(8, &code), Err(GenerationError::MalformedInstruction { position: 20 }));
}
