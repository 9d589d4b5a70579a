use field_assembly::batch::assign_buckets;
use field_assembly::batch::get_max_bucket;
use field_assembly::batch::next_step;
use field_assembly::batch::round_verdict;
use field_assembly::batch::NextStep;
use field_assembly::build_dispatch_table;
use field_assembly::limits::GenerationError;
use field_assembly::registers::scratch_words;
use field_assembly::procedure::Procedure;
use field_assembly::VerificationError;
use rand::rngs::StdRng;
use rand::SeedableRng;

#[test]
fn table_holds_one_procedure_of_each_kind_per_limb_count() {
    let table = build_dispatch_table(9).unwrap();
    assert_eq!(table.max_limbs, 9);
    assert_eq!(table.multiply.len(), 8);
    assert_eq!(table.square.len(), 8);
    for limbs in 2..=9usize {
        let p = table.lookup(limbs, false).unwrap();
        assert_eq!(p.limbs, limbs);
        assert!(!p.squaring);
        assert_eq!(p.code, Procedure::generate(limbs, false).unwrap().code);
        let q = table.lookup(limbs, true).unwrap();
        assert_eq!(q.limbs, limbs);
        assert!(q.squaring);
        assert_eq!(q.code, Procedure::generate(limbs, true).unwrap().code);
    }
}

#[test]
fn table_refuses_limb_counts_it_does_not_hold() {
    let table = build_dispatch_table(8).unwrap();
    assert_eq!(
        table.lookup(9, false).err(),
        Some(GenerationError::UnsupportedLimbs { got: 9, max: 8 })
    );
    assert_eq!(
        table.lookup(1, true).err(),
        Some(GenerationError::UnsupportedLimbs { got: 1, max: 8 })
    );
    assert_eq!(
        table.lookup(0, false).err(),
        Some(GenerationError::UnsupportedLimbs { got: 0, max: 8 })
    );
    assert!(table.lookup(8, false).is_ok());
    assert!(table.lookup(2, true).is_ok());
}

#[test]
fn no_table_beyond_the_largest_limb_count() {
    assert_eq!(
        build_dispatch_table(19).err(),
        Some(GenerationError::UnsupportedLimbs { got: 19, max: 18 })
    );
    assert_eq!(
        build_dispatch_table(1).err(),
        Some(GenerationError::UnsupportedLimbs { got: 1, max: 18 })
    );
    assert_eq!(
        build_dispatch_table(0).err(),
        Some(GenerationError::UnsupportedLimbs { got: 0, max: 18 })
    );
    assert!(build_dispatch_table(18).is_ok());
    assert!(build_dispatch_table(2).is_ok());
}

#[test]
fn table_procedures_multiply() {
    let table = build_dispatch_table(7).unwrap();
    let m = vec![0xffff_ffff_ffff_ffedu64, u64::MAX, u64::MAX, 0x7fff_ffff_ffff_ffff];
    let one = vec![38u64, 0, 0, 0];
    let inv = 0x86bc_a1af_286b_ca1bu64;
    let p = table.lookup(4, false).unwrap();
    assert_eq!(p.run(&one, &one, &m, inv), one);
    let q = table.lookup(4, true).unwrap();
    let unused = vec![9u64, 9, 9, 9];
    assert_eq!(q.run(&one, &unused, &m, inv), one);
}

#[test]
fn scratch_words_per_limb_count() {
    let expected = [0, 0, 0, 0, 0, 2, 4, 6, 8, 10, 12, 13, 14, 15, 16, 17, 18];
    for limbs in 2..=18usize {
        assert_eq!(scratch_words(limbs), expected[limbs - 2]);
        assert_eq!(Procedure::generate(limbs, false).unwrap().spills(), expected[limbs - 2]);
    }
}

#[test]
fn errors_say_what_was_asked_for() {
    assert_eq!(
        GenerationError::UnsupportedLimbs { got: 19, max: 18 }.message(),
        "unsupported number of limbs: got 19, supported 2..=18"
    );
    assert_eq!(
        GenerationError::UnsupportedLimbs { got: 0, max: 8 }.message(),
        "unsupported number of limbs: got 0, supported 2..=8"
    );
    assert_eq!(
        GenerationError::MalformedInstruction { position: 1205 }.message(),
        "instruction 1205 does not fit the limb count"
    );
    assert_eq!(
        GenerationError::RegisterConflict { position: 7 }.message(),
        "instruction 7 names two accumulators that share a register"
    );
    assert_eq!(VerificationError.message(), "Verification Error. Not in subgroup");
}

#[test]
fn buckets_for_a_security_parameter() {
    // One bucket exponent is enough when the rounds already cost as much as the elements.
    assert_eq!(get_max_bucket(128, 1000, 256), (2, 128, 1));
    // 2^l * rounds(l) * 256 >= 2^20 first holds at l = 8: 256 * 16 * 256.
    assert_eq!(get_max_bucket(128, 1 << 20, 256), (256, 16, 8));
    assert_eq!(get_max_bucket(128, (1 << 20) + 1, 256), (512, 15, 9));
    // With one round left the search stops.
    assert_eq!(get_max_bucket(3, 1 << 31, 1), (8, 1, 3));
    assert_eq!(get_max_bucket(1, 1 << 31, 1), (2, 1, 1));
    assert_eq!(get_max_bucket(1, 0, 1), (2, 1, 1));
    assert_eq!(get_max_bucket(40, 1 << 31, 1), (1 << 30, 2, 30));
    assert_eq!(get_max_bucket(usize::MAX, 5, usize::MAX), (2, usize::MAX, 1));
}

#[test]
fn buckets_are_drawn_within_range() {
    let mut rng = StdRng::seed_from_u64(42);
    let assign = assign_buckets(&mut rng, 1000, 7);
    assert_eq!(assign.len(), 1000);
    for &b in assign.iter() {
        assert!(b < 7);
    }
    for bucket in 0..7 {
        assert!(assign.contains(&bucket));
    }
    assert_eq!(assign_buckets(&mut rng, 20, 1), vec![0; 20]);
    assert_eq!(assign_buckets(&mut rng, 0, 3), Vec::<usize>::new());
}

#[test]
fn a_round_fails_on_the_first_bucket_outside_the_subgroup() {
    assert_eq!(round_verdict(&vec![true, true, true]), Ok(()));
    assert_eq!(round_verdict(&vec![]), Ok(()));
    assert_eq!(round_verdict(&vec![true, false, true]), Err(VerificationError));
    assert_eq!(round_verdict(&vec![false]), Err(VerificationError));
}

#[test]
fn rounds_stop_at_the_first_failure() {
    assert_eq!(next_step(3, None), NextStep::Verify);
    assert_eq!(next_step(0, None), NextStep::Accept);
    assert_eq!(next_step(2, Some(true)), NextStep::Verify);
    assert_eq!(next_step(0, Some(true)), NextStep::Accept);
    assert_eq!(next_step(2, Some(false)), NextStep::Reject);
    assert_eq!(next_step(0, Some(false)), NextStep::Reject);
}
