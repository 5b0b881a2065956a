use field_bits::solution::{Address, Commitment, PartialProverSolution};

#[test]
fn test_accessors() {
    let solution = PartialProverSolution::new(
        Address { value: 0xDEAD },
        42,
        Commitment { value: 0xBEEF },
    );
    assert_eq!(solution.address().value, 0xDEAD);
    assert_eq!(solution.nonce(), 42);
    assert_eq!(solution.commitment().value, 0xBEEF);
    let same = PartialProverSolution::new(
        Address { value: 0xDEAD },
        42,
        Commitment { value: 0xBEEF },
    );
    assert_eq!(solution, same);
}

#[test]
fn test_bytes_round_trip() {
    let solution = PartialProverSolution::new(
        Address { value: 0x0123456789ABCDEF },
        0xFEDCBA9876543210,
        Commitment { value: 7 },
    );
    let bytes = solution.to_bytes_le();
    assert_eq!(bytes.len(), 24);
    assert_eq!(bytes[0], 0xEF);
    assert_eq!(bytes[7], 0x01);
    match PartialProverSolution::from_bytes_le(&bytes) {
        Some(decoded) => assert_eq!(decoded, solution),
        None => panic!("round trip failed"),
    }
}

#[test]
fn test_bytes_wrong_length_rejected() {
    let bytes = vec![0u8; 23];
    assert!(PartialProverSolution::from_bytes_le(&bytes).is_none());
    let bytes = vec![0u8; 25];
    assert!(PartialProverSolution::from_bytes_le(&bytes).is_none());
}
