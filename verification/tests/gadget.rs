use field_bits::bits::{Bit, Mode};
use field_bits::circuit::Circuit;
use field_bits::field::{BitCache, CacheStatus, FieldConstants, FieldElement};
use field_bits::oracle::{count, output_type, BitType, OutputType};
use field_bits::reconstruct::from_bits_le;

fn shape_of(bits: &[Bit]) -> Vec<BitType> {
    bits.iter()
        .map(|b| match b.mode {
            Mode::Constant => BitType::Constant(b.value),
            Mode::Public => BitType::Public,
            Mode::Private => BitType::Private,
        })
        .collect()
}

fn check_from_bits_le(mode: Mode) {
    let fc = FieldConstants::new(11);
    for value in 0..11u64 {
        let mut decompose_circuit = Circuit::new();
        let mut element = FieldElement::new(&fc, mode, value);
        let given_bits = element.to_bits_le(&mut decompose_circuit, &fc);
        let expected_len = given_bits.len();
        assert_eq!(expected_len, 4);

        let mut circuit = Circuit::new();
        let candidate = from_bits_le(&mut circuit, &fc, &given_bits);
        assert_eq!(candidate.value, value);
        assert!(circuit.satisfied);
        match candidate.cached_bits() {
            Some(cached) => assert_eq!(cached.len(), expected_len),
            None => panic!("caching failed"),
        }

        let case = shape_of(&given_bits);
        let predicted = count(&fc, &case);
        assert_eq!(predicted.private, circuit.private_count);
        assert_eq!(predicted.constraints, circuit.constraint_count);
        match output_type(&fc, case) {
            OutputType::Constant(v) => {
                assert_eq!(mode, Mode::Constant);
                assert_eq!(v, value);
            }
            OutputType::Public => assert_eq!(mode, Mode::Public),
            OutputType::Private => assert_eq!(mode, Mode::Private),
        }

        // A second decomposition hits the cache and adds no constraints.
        let private_before = circuit.private_count;
        let constraints_before = circuit.constraint_count;
        let mut candidate = candidate;
        let candidate_bits = candidate.to_bits_le(&mut circuit, &fc);
        assert_eq!(candidate_bits.len(), expected_len);
        assert_eq!(circuit.private_count, private_before);
        assert_eq!(circuit.constraint_count, constraints_before);
        for (a, b) in candidate_bits.iter().zip(given_bits.iter()) {
            assert_eq!(a.value, b.value);
        }

        // Excess constant-false padding changes nothing about the value.
        for extra in [1usize, 3, 9] {
            let mut padded = given_bits.clone();
            for _ in 0..extra {
                padded.push(Bit::new(mode, false));
            }
            let mut excess_circuit = Circuit::new();
            let excess_candidate = from_bits_le(&mut excess_circuit, &fc, &padded);
            assert_eq!(excess_candidate.value, value);
            assert!(excess_circuit.satisfied);
            match excess_candidate.cached_bits() {
                Some(cached) => assert_eq!(cached.len(), expected_len),
                None => panic!("caching failed"),
            }
            let case = shape_of(&padded);
            let predicted = count(&fc, &case);
            assert_eq!(predicted.private, excess_circuit.private_count);
            assert_eq!(predicted.constraints, excess_circuit.constraint_count);
        }
    }
}

#[test]
fn test_from_bits_le_constant() {
    check_from_bits_le(Mode::Constant);
}

#[test]
fn test_from_bits_le_public() {
    check_from_bits_le(Mode::Public);
}

#[test]
fn test_from_bits_le_private() {
    check_from_bits_le(Mode::Private);
}

#[test]
fn test_field_constants_eleven() {
    // modulus 11 = 1011b, so modulus - 1 = 1010b.
    let fc = FieldConstants::new(11);
    assert_eq!(fc.modulus, 11);
    assert_eq!(fc.total_bits, 4);
    assert_eq!(fc.data_bits, 3);
    assert_eq!(fc.modulus_minus_one_be, vec![true, false, true, false]);
    assert_eq!(fc.pattern_zeros, 2);
}

#[test]
fn test_field_constants_mersenne() {
    // 2^61 - 1 is prime; modulus - 1 is sixty ones followed by a zero.
    let fc = FieldConstants::new(2305843009213693951);
    assert_eq!(fc.total_bits, 61);
    assert_eq!(fc.data_bits, 60);
    assert_eq!(fc.pattern_zeros, 1);
    assert!(fc.modulus_minus_one_be.iter().take(60).all(|b| *b));
    assert_eq!(fc.modulus_minus_one_be[60], false);
}

#[test]
fn test_example_modulus_eleven() {
    let fc = FieldConstants::new(11);
    // Little-endian [1,1,0,1] is 11, which is not canonical.
    let over = vec![
        Bit::new(Mode::Public, true),
        Bit::new(Mode::Public, true),
        Bit::new(Mode::Public, false),
        Bit::new(Mode::Public, true),
    ];
    let mut circuit = Circuit::new();
    let candidate = from_bits_le(&mut circuit, &fc, &over);
    assert!(!circuit.satisfied);
    assert_eq!(candidate.value, 0);

    // Little-endian [0,1,0,1] is 10, which is canonical.
    let ten = vec![
        Bit::new(Mode::Public, false),
        Bit::new(Mode::Public, true),
        Bit::new(Mode::Public, false),
        Bit::new(Mode::Public, true),
    ];
    let mut circuit = Circuit::new();
    let candidate = from_bits_le(&mut circuit, &fc, &ten);
    assert!(circuit.satisfied);
    assert_eq!(candidate.value, 10);
}

#[test]
fn test_boundary_at_data_bits() {
    let fc = FieldConstants::new(11);
    // Three witnessed bits of arbitrary content never pay for the
    // canonicity check.
    let three = vec![
        Bit::new(Mode::Private, true),
        Bit::new(Mode::Private, true),
        Bit::new(Mode::Private, true),
    ];
    let mut circuit = Circuit::new();
    let candidate = from_bits_le(&mut circuit, &fc, &three);
    assert_eq!(candidate.value, 7);
    assert!(circuit.satisfied);
    assert_eq!(circuit.private_count, 0);
    assert_eq!(circuit.constraint_count, 0);

    // One more bit triggers it: the calibrated base cost appears.
    let four = vec![
        Bit::new(Mode::Private, true),
        Bit::new(Mode::Private, true),
        Bit::new(Mode::Private, true),
        Bit::new(Mode::Private, false),
    ];
    let mut circuit = Circuit::new();
    let candidate = from_bits_le(&mut circuit, &fc, &four);
    assert_eq!(candidate.value, 7);
    assert!(circuit.satisfied);
    assert_eq!(circuit.private_count, 3);
    assert_eq!(circuit.constraint_count, 5);
}

#[test]
fn test_boundary_mixed_content_free() {
    // At the data-bit-width the canonicity check is skipped whatever the
    // modes and values of the bits are.
    let fc = FieldConstants::new(11);
    let bits = vec![
        Bit::new(Mode::Constant, true),
        Bit::new(Mode::Public, false),
        Bit::new(Mode::Private, true),
    ];
    let mut circuit = Circuit::new();
    let candidate = from_bits_le(&mut circuit, &fc, &bits);
    assert_eq!(candidate.value, 5);
    assert_eq!(candidate.mode, Mode::Private);
    assert!(circuit.satisfied);
    assert_eq!(circuit.private_count, 0);
    assert_eq!(circuit.constraint_count, 0);
}

#[test]
fn test_excess_nonzero_unsatisfiable() {
    let fc = FieldConstants::new(11);
    let mut bits = vec![
        Bit::new(Mode::Public, false),
        Bit::new(Mode::Public, true),
        Bit::new(Mode::Public, false),
        Bit::new(Mode::Public, false),
    ];
    bits.push(Bit::new(Mode::Public, true));
    let mut circuit = Circuit::new();
    let candidate = from_bits_le(&mut circuit, &fc, &bits);
    assert!(!circuit.satisfied);
    assert_eq!(candidate.value, 2);
}

#[test]
fn test_empty_input_reconstructs_zero() {
    let fc = FieldConstants::new(11);
    let bits: Vec<Bit> = Vec::new();
    let mut circuit = Circuit::new();
    let candidate = from_bits_le(&mut circuit, &fc, &bits);
    assert_eq!(candidate.value, 0);
    assert_eq!(candidate.mode, Mode::Constant);
    assert!(circuit.satisfied);
    assert_eq!(circuit.private_count, 0);
    assert_eq!(circuit.constraint_count, 0);
    match candidate.cached_bits() {
        Some(cached) => {
            assert_eq!(cached.len(), 4);
            assert!(cached.iter().all(|b| !b.value && b.mode == Mode::Constant));
        }
        None => panic!("caching failed"),
    }
}

#[test]
fn test_count_formula_exact_values() {
    let fc = FieldConstants::new(11);
    // Fully constant shapes cost nothing.
    let constant_case = vec![BitType::Constant(true); 6];
    let zero = count(&fc, &constant_case);
    assert_eq!(zero.constants, 0);
    assert_eq!(zero.public, 0);
    assert_eq!(zero.private, 0);
    assert_eq!(zero.constraints, 0);

    // Witnessed shapes pay the base, plus the per-excess-bit terms; the
    // first excess bit adds a constraint but no private variable.
    let base = count(&fc, &vec![BitType::Public; 4]);
    assert_eq!(base.private, 3);
    assert_eq!(base.constraints, 5);
    let one_excess = count(&fc, &vec![BitType::Public; 5]);
    assert_eq!(one_excess.private, 3);
    assert_eq!(one_excess.constraints, 6);
    let two_excess = count(&fc, &vec![BitType::Private; 6]);
    assert_eq!(two_excess.private, 4);
    assert_eq!(two_excess.constraints, 7);
    // Short witnessed shapes still predict the calibrated base.
    let short = count(&fc, &vec![BitType::Public; 2]);
    assert_eq!(short.private, 3);
    assert_eq!(short.constraints, 5);
}

#[test]
fn test_output_type_modes() {
    let fc = FieldConstants::new(11);
    // Constant bits are evaluated eagerly: [1,0,0,1] is 9.
    let case = vec![
        BitType::Constant(true),
        BitType::Constant(false),
        BitType::Constant(false),
        BitType::Constant(true),
    ];
    assert_eq!(output_type(&fc, case), OutputType::Constant(9));
    // Any private bit dominates a public one.
    let mixed = vec![BitType::Public, BitType::Private, BitType::Public];
    assert_eq!(output_type(&fc, mixed), OutputType::Private);
    let public = vec![BitType::Public, BitType::Constant(false)];
    assert_eq!(output_type(&fc, public), OutputType::Public);
}

#[test]
fn test_mersenne_round_trip() {
    let fc = FieldConstants::new(2305843009213693951);
    let value = 123456789012345u64;
    let mut circuit = Circuit::new();
    let mut element = FieldElement::new(&fc, Mode::Public, value);
    let bits = element.to_bits_le(&mut circuit, &fc);
    assert_eq!(bits.len(), 61);
    let mut circuit = Circuit::new();
    let candidate = from_bits_le(&mut circuit, &fc, &bits);
    assert_eq!(candidate.value, value);
    assert!(circuit.satisfied);
    assert_eq!(circuit.private_count, 60);
    assert_eq!(circuit.constraint_count, 61);
}

#[test]
fn test_cache_is_write_once() {
    let mut cache = BitCache::new();
    assert!(cache.get().is_none());
    let first = vec![Bit::constant(true)];
    assert_eq!(cache.set(first), CacheStatus::Stored);
    // A second store is rejected and the slot keeps its first content.
    let second = vec![Bit::constant(false), Bit::constant(false)];
    assert_eq!(cache.set(second), CacheStatus::Rejected);
    match cache.get() {
        Some(kept) => {
            assert_eq!(kept.len(), 1);
            assert!(kept[0].value);
        }
        None => panic!("cache lost its content"),
    }
}
