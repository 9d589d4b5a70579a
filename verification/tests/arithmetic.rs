use field_assembly::allocate::allocate;
use field_assembly::emit::emit;
use field_assembly::interp::add_carry;
use field_assembly::interp::mul_wide;
use field_assembly::interp::Machine;
use field_assembly::ir::Buf;
use field_assembly::ir::Instr;
use field_assembly::ir::Reg;
use field_assembly::ir::Src;
use field_assembly::multiply;
use field_assembly::procedure::Procedure;
use field_assembly::square;
use field_assembly::GenerationError;

struct Lcg(u64);

impl Lcg {
    fn next(&mut self) -> u64 {
        self.0 = self.0.wrapping_mul(6364136223846793005).wrapping_add(1442695040888963407);
        let hi = self.0 >> 32;
        self.0 = self.0.wrapping_mul(6364136223846793005).wrapping_add(1442695040888963407);
        (hi << 32) | (self.0 >> 32)
    }

    fn words(&mut self, n: usize) -> Vec<u64> {
        (0..n).map(|_| self.next()).collect()
    }
}

fn less(x: &[u64], y: &[u64]) -> bool {
    for i in (0..x.len()).rev() {
        if x[i] != y[i] {
            return x[i] < y[i];
        }
    }
    false
}

fn sub_in_place(x: &mut [u64], y: &[u64]) {
    let mut borrow = 0u64;
    for i in 0..x.len() {
        let (d, b1) = x[i].overflowing_sub(y[i]);
        let (d, b2) = d.overflowing_sub(borrow);
        x[i] = d;
        borrow = (b1 || b2) as u64;
    }
}

fn product(x: &[u64], y: &[u64]) -> Vec<u64> {
    let mut out = vec![0u64; x.len() + y.len()];
    for i in 0..x.len() {
        let mut carry = 0u128;
        for j in 0..y.len() {
            let t = (x[i] as u128) * (y[j] as u128) + (out[i + j] as u128) + carry;
            out[i + j] = t as u64;
            carry = t >> 64;
        }
        out[i + y.len()] = carry as u64;
    }
    out
}

/// `x mod m` by shifting and subtracting, one bit at a time.
fn remainder(x: &[u64], m: &[u64]) -> Vec<u64> {
    let n = m.len();
    let mut r = vec![0u64; n + 1];
    let mut wide_m = m.to_vec();
    wide_m.push(0);
    for bit in (0..64 * x.len()).rev() {
        for i in (1..=n).rev() {
            r[i] = (r[i] << 1) | (r[i - 1] >> 63);
        }
        r[0] = (r[0] << 1) | ((x[bit / 64] >> (bit % 64)) & 1);
        if !less(&r, &wide_m) {
            sub_in_place(&mut r, &wide_m);
        }
    }
    r.truncate(n);
    r
}

fn reduced(mut t: Vec<u64>, m: &[u64]) -> Vec<u64> {
    if !less(&t, m) {
        sub_in_place(&mut t, m);
    }
    t
}

fn inverse_of(m0: u64) -> u64 {
    let mut inv = 1u64;
    for _ in 0..6 {
        inv = inv.wrapping_mul(2u64.wrapping_sub(m0.wrapping_mul(inv)));
    }
    inv.wrapping_neg()
}

fn modulus(rng: &mut Lcg, limbs: usize) -> Vec<u64> {
    let mut m = rng.words(limbs);
    m[0] |= 1;
    m[limbs - 1] = (m[limbs - 1] >> 1) | (1 << 62);
    m
}

fn below(rng: &mut Lcg, m: &[u64]) -> Vec<u64> {
    let mut x = rng.words(m.len());
    x[m.len() - 1] >>= 2;
    assert!(less(&x, m));
    x
}

/// Checks `reduced(t) * R = a * b (mod m)` with `R = 2^(64 * limbs)`.
fn is_montgomery_product(t: &[u64], a: &[u64], b: &[u64], m: &[u64]) -> bool {
    let r = reduced(t.to_vec(), m);
    if !less(&r, m) {
        return false;
    }
    let mut shifted = vec![0u64; m.len()];
    shifted.extend_from_slice(&r);
    remainder(&shifted, m) == remainder(&product(a, b), m)
}

fn check_limb_count(limbs: usize, rounds: usize) {
    let mut rng = Lcg(0x5eed + limbs as u64);
    for _ in 0..rounds {
        let m = modulus(&mut rng, limbs);
        let a = below(&mut rng, &m);
        let b = below(&mut rng, &m);
        let inv = inverse_of(m[0]);
        let t = multiply(&a, &b, &m, inv).unwrap();
        assert_eq!(t.len(), limbs);
        assert!(is_montgomery_product(&t, &a, &b, &m));
    }
}

#[test]
fn multiplies_with_two_limbs() {
    check_limb_count(2, 20);
}

#[test]
fn multiplies_with_as_many_limbs_as_registers() {
    check_limb_count(6, 10);
}

#[test]
fn multiplies_with_the_first_spill() {
    check_limb_count(7, 10);
}

#[test]
fn multiplies_with_every_register_shared() {
    check_limb_count(12, 6);
}

#[test]
fn multiplies_with_the_first_triple_share() {
    check_limb_count(13, 6);
}

#[test]
fn multiplies_with_every_limb_count() {
    for limbs in 2..=18 {
        check_limb_count(limbs, 2);
    }
}

#[test]
fn allocated_procedure_computes_what_the_template_computes() {
    let mut rng = Lcg(77);
    for limbs in 2..=18usize {
        for squaring in [false, true] {
            let buf = if squaring { Buf::Operand } else { Buf::Multiplier };
            let code = emit(limbs, buf).unwrap();
            let procedure = Procedure::generate(limbs, squaring).unwrap();
            assert_eq!(procedure.code, allocate(limbs, &code).unwrap());
            for _ in 0..2 {
                let m = rng.words(limbs);
                let a = rng.words(limbs);
                let b = rng.words(limbs);
                let inv = rng.next();
                let mut wide = Machine::new(a.clone(), b.clone(), m.clone(), inv, limbs, 0);
                assert_eq!(wide.run(&code), Ok(()));
                assert_eq!(procedure.run(&a, &b, &m, inv), wide.operand);
            }
        }
    }
}

#[test]
fn leftovers_in_registers_and_scratch_words_do_not_matter() {
    let mut rng = Lcg(2024);
    for limbs in [2usize, 5, 6, 7, 9, 11, 12, 13, 16, 18] {
        let m = modulus(&mut rng, limbs);
        let a = below(&mut rng, &m);
        let b = below(&mut rng, &m);
        let inv = inverse_of(m[0]);
        let expected = multiply(&a, &b, &m, inv).unwrap();
        let procedure = Procedure::generate(limbs, false).unwrap();
        let mut machine =
            Machine::new(a.clone(), b.clone(), m.clone(), inv, limbs.min(6), procedure.spills());
        machine.rax = rng.next();
        machine.rbx = rng.next();
        machine.rcx = rng.next();
        machine.rdx = rng.next();
        machine.cf = true;
        machine.of = true;
        machine.acc = rng.words(limbs.min(6));
        machine.spill = rng.words(procedure.spills());
        assert_eq!(machine.run(&procedure.code), Ok(()));
        assert_eq!(machine.operand, expected);
        assert_eq!(machine.multiplier, b);
        assert_eq!(machine.modulus, m);
    }
}

#[test]
fn squaring_is_multiplying_by_itself() {
    let mut rng = Lcg(99);
    for limbs in 2..=18usize {
        let m = modulus(&mut rng, limbs);
        let a = below(&mut rng, &m);
        let inv = inverse_of(m[0]);
        assert_eq!(square(&a, &m, inv).unwrap(), multiply(&a, &a, &m, inv).unwrap());
        let wild = rng.words(limbs);
        let inv = rng.next();
        assert_eq!(square(&wild, &m, inv).unwrap(), multiply(&wild, &wild, &m, inv).unwrap());
    }
}

#[test]
fn zero_times_anything_is_zero() {
    let mut rng = Lcg(5);
    for limbs in 2..=18usize {
        let m = modulus(&mut rng, limbs);
        let b = below(&mut rng, &m);
        let inv = inverse_of(m[0]);
        let zero = vec![0u64; limbs];
        assert_eq!(multiply(&zero, &b, &m, inv).unwrap(), zero);
        assert_eq!(square(&zero, &m, inv).unwrap(), zero);
    }
}

#[test]
fn one_times_one_modulo_a_255_bit_prime() {
    let m = vec![0xffff_ffff_ffff_ffedu64, u64::MAX, u64::MAX, 0x7fff_ffff_ffff_ffff];
    let inv = inverse_of(m[0]);
    assert_eq!(inv, 0x86bc_a1af_286b_ca1b);
    // The plain number one: the product is the inverse of R.
    let one = vec![1u64, 0, 0, 0];
    let t = multiply(&one, &one, &m, inv).unwrap();
    assert_eq!(
        t,
        vec![
            0x435e_50d7_9435_e50a,
            0x5e50_d794_35e5_0d79,
            0x50d7_9435_e50d_7943,
            0x1794_35e5_0d79_435e
        ]
    );
    assert!(is_montgomery_product(&t, &one, &one, &m));
    // One in Montgomery form, R mod m = 38: the product is one in Montgomery form again.
    let mont_one = vec![38u64, 0, 0, 0];
    assert_eq!(multiply(&mont_one, &mont_one, &m, inv).unwrap(), mont_one);
    assert_eq!(square(&mont_one, &m, inv).unwrap(), mont_one);
}

#[test]
fn a_modulus_that_fills_the_top_word_loses_a_carry() {
    // Modulus 2^128 - 159 and both factors one below it: the sum outgrows
    // the two accumulators, and the procedure, like the hardware, drops the
    // carry.
    let m = vec![0xffff_ffff_ffff_ff61u64, u64::MAX];
    let a = vec![0xffff_ffff_ffff_ff60u64, u64::MAX];
    let inv = inverse_of(m[0]);
    let t = multiply(&a, &a, &m, inv).unwrap();
    assert_eq!(t, vec![0xb5ef_e63d_2eb1_1a53, 0xb11b_5efe_63d2_eb10]);
    assert!(!is_montgomery_product(&t, &a, &a, &m));
    assert_eq!(square(&a, &m, inv).unwrap(), t);
    // With a factor small enough for the sum to fit, the same modulus is fine.
    let small = vec![158u64, 0];
    let t = multiply(&a, &small, &m, inv).unwrap();
    assert!(is_montgomery_product(&t, &a, &small, &m));
}

#[test]
fn limb_counts_out_of_range_have_no_product() {
    let one = vec![1u64];
    assert_eq!(multiply(&one, &one, &one, 1), Err(GenerationError::UnsupportedLimbs { got: 1, max: 18 }));
    assert_eq!(square(&one, &one, 1), Err(GenerationError::UnsupportedLimbs { got: 1, max: 18 }));
    let none: Vec<u64> = Vec::new();
    assert_eq!(multiply(&none, &none, &none, 1), Err(GenerationError::UnsupportedLimbs { got: 0, max: 18 }));
    let wide = vec![1u64; 19];
    assert_eq!(
        multiply(&wide, &wide, &wide, 1),
        Err(GenerationError::UnsupportedLimbs { got: 19, max: 18 })
    );
    assert_eq!(square(&wide, &wide, 1), Err(GenerationError::UnsupportedLimbs { got: 19, max: 18 }));
}

#[test]
fn word_arithmetic() {
    assert_eq!(mul_wide(u64::MAX, u64::MAX), (1, u64::MAX - 1));
    assert_eq!(mul_wide(1 << 32, 1 << 32), (0, 1));
    assert_eq!(mul_wide(3, 5), (15, 0));
    assert_eq!(add_carry(u64::MAX, 0, true), (0, true));
    assert_eq!(add_carry(u64::MAX, u64::MAX, true), (u64::MAX, true));
    assert_eq!(add_carry(1, 2, false), (3, false));
}

#[test]
fn machine_carries_instructions_out() {
    let mut machine = Machine::new(vec![7, 9], vec![3, 0], vec![0, 0], 11, 2, 1);
    let code = vec![
        Instr::Move { src: Src::Mem(Buf::Operand, 1), dst: Reg::Rdx },
        Instr::Mulx { src: Src::Mem(Buf::Multiplier, 0), lo: Reg::Acc(0), hi: Reg::Acc(1) },
        Instr::Move { src: Src::Inverse, dst: Reg::Rax },
        Instr::Adcx { src: Src::Reg(Reg::Rax), dst: Reg::Acc(0) },
        Instr::Store { reg: Reg::Acc(0), buf: Buf::Spill, index: 0 },
        Instr::Store { reg: Reg::Acc(1), buf: Buf::Operand, index: 0 },
    ];
    assert_eq!(machine.run(&code), Ok(()));
    assert_eq!(machine.spill, vec![38]);
    assert_eq!(machine.operand, vec![0, 9]);
    assert_eq!(machine.rdx, 9);
    assert!(!machine.cf);
    let bad = vec![
        Instr::Clear { reg: Reg::Rcx },
        Instr::Move { src: Src::Mem(Buf::Spill, 1), dst: Reg::Rax },
        Instr::Clear { reg: Reg::Rax },
    ];
    machine.rcx = 5;
    assert_eq!(machine.run(&bad), Err(1));
    assert_eq!(machine.rcx, 0);
    assert_eq!(machine.run(&vec![Instr::Clear { reg: Reg::Acc(2) }]), Err(0));
}

#[test]
fn mulx_into_one_register_keeps_the_high_word() {
    let mut machine = Machine::new(vec![0], vec![0], vec![0], 0, 1, 0);
    machine.rdx = 1 << 63;
    machine.rax = 6;
    let code = vec![Instr::Mulx { src: Src::Reg(Reg::Rax), lo: Reg::Acc(0), hi: Reg::Acc(0) }];
    assert_eq!(machine.run(&code), Ok(()));
    assert_eq!(machine.acc, vec![3]);
}

#[test]
fn carries_run_on_separate_chains() {
    let mut machine = Machine::new(vec![0], vec![0], vec![0], 0, 2, 0);
    machine.rax = u64::MAX;
    machine.rbx = 1;
    let code = vec![
        Instr::Move { src: Src::Reg(Reg::Rax), dst: Reg::Acc(0) },
        Instr::Adcx { src: Src::Reg(Reg::Rbx), dst: Reg::Acc(0) },
        Instr::Adox { src: Src::Reg(Reg::Rbx), dst: Reg::Acc(1) },
        Instr::Adcx { src: Src::Reg(Reg::Rbx), dst: Reg::Acc(1) },
    ];
    assert_eq!(machine.run(&code), Ok(()));
    assert_eq!(machine.acc, vec![0, 3]);
    assert!(!machine.cf);
    assert!(!machine.of);
}
