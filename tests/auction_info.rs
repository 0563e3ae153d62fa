use contract_runtime::auction_info::{AuctionInfo, SeigniorageAllocation};
use contract_runtime::bytesrepr::Error;
use contract_runtime::types::PublicKey;
use contract_runtime::u512::U512;

fn ed(b: u8) -> PublicKey {
    PublicKey::Ed25519([b; 32])
}

fn secp(b: u8) -> PublicKey {
    PublicKey::Secp256k1([b; 33])
}

fn sample_allocations() -> Vec<SeigniorageAllocation> {
    vec![
        SeigniorageAllocation::validator(ed(1), U512::from_u64(1000)),
        SeigniorageAllocation::delegator(ed(2), ed(1), U512::from_u64(250)),
        SeigniorageAllocation::validator(secp(3), U512::zero()),
        SeigniorageAllocation::delegator(ed(1), secp(3), U512::from_u64(u64::MAX)),
        SeigniorageAllocation::delegator(PublicKey::System, ed(1), U512::from_u64(7)),
    ]
}

fn sample_info() -> AuctionInfo {
    let mut info = AuctionInfo::new();
    *info.seigniorage_allocations_mut() = sample_allocations();
    info
}

#[test]
fn amount_encoding_is_minimal_little_endian() {
    assert_eq!(U512::zero().serialized_length(), 1);
    let mut out = Vec::new();
    U512::from_u64(258).write_bytes(&mut out);
    assert_eq!(out, vec![2, 2, 1]);
    let mut out = Vec::new();
    U512::from_u64(u64::MAX).write_bytes(&mut out);
    assert_eq!(out, vec![8, 255, 255, 255, 255, 255, 255, 255, 255]);
}

#[test]
fn amounts_order_by_value() {
    assert!(U512::from_u64(255) < U512::from_u64(256));
    assert!(U512::zero() < U512::from_u64(1));
    assert_eq!(U512::from_u64(0), U512::zero());
}

#[test]
fn validator_allocation_exact_bytes() {
    let a = SeigniorageAllocation::validator(ed(7), U512::from_u64(258));
    let mut expected = vec![0u8, 1];
    expected.extend_from_slice(&[7u8; 32]);
    expected.extend_from_slice(&[2, 2, 1]);
    assert_eq!(a.to_bytes(), expected);
    assert_eq!(a.serialized_length(), expected.len());
}

#[test]
fn delegator_allocation_exact_bytes() {
    let a = SeigniorageAllocation::delegator(PublicKey::System, secp(9), U512::zero());
    let mut expected = vec![1u8, 0, 2];
    expected.extend_from_slice(&[9u8; 33]);
    expected.push(0);
    assert_eq!(a.to_bytes(), expected);
    assert_eq!(a.serialized_length(), 1 + 1 + 34 + 1);
}

#[test]
fn allocation_round_trip_consumes_its_bytes() {
    for a in sample_allocations() {
        let mut bytes = a.to_bytes();
        let n = bytes.len();
        bytes.extend_from_slice(&[9, 8, 7]);
        let (b, rem) = SeigniorageAllocation::from_bytes(&bytes).unwrap();
        assert_eq!(b, a);
        assert_eq!(rem, &[9, 8, 7]);
        let (c, rem) = SeigniorageAllocation::from_bytes(&bytes[..n]).unwrap();
        assert_eq!(c, a);
        assert!(rem.is_empty());
    }
}

#[test]
fn unknown_allocation_tag_is_a_formatting_error() {
    let mut bytes = SeigniorageAllocation::validator(ed(1), U512::from_u64(5)).to_bytes();
    bytes[0] = 2;
    assert_eq!(SeigniorageAllocation::from_bytes(&bytes), Err(Error::Formatting));
    assert_eq!(SeigniorageAllocation::from_bytes(&[255]), Err(Error::Formatting));
}

#[test]
fn truncated_allocation_fails() {
    assert_eq!(SeigniorageAllocation::from_bytes(&[]), Err(Error::EarlyEndOfStream));
    let bytes = SeigniorageAllocation::delegator(ed(1), ed(2), U512::from_u64(300)).to_bytes();
    for n in 1..bytes.len() {
        assert_eq!(SeigniorageAllocation::from_bytes(&bytes[..n]), Err(Error::EarlyEndOfStream));
    }
}

#[test]
fn bad_key_tag_and_oversized_amount_are_formatting_errors() {
    assert_eq!(SeigniorageAllocation::from_bytes(&[0, 3]), Err(Error::Formatting));
    assert_eq!(SeigniorageAllocation::from_bytes(&[0, 0, 65]), Err(Error::Formatting));
    // An amount whose most significant byte is zero has no canonical encoding.
    assert_eq!(SeigniorageAllocation::from_bytes(&[0, 0, 2, 1, 0]), Err(Error::Formatting));
}

#[test]
fn amount_accessor() {
    let a = SeigniorageAllocation::delegator(ed(1), ed(2), U512::from_u64(42));
    assert_eq!(*a.amount(), U512::from_u64(42));
    let v = SeigniorageAllocation::validator(ed(1), U512::from_u64(43));
    assert_eq!(*v.amount(), U512::from_u64(43));
}

#[test]
fn allocations_order_by_variant_then_fields() {
    let v = SeigniorageAllocation::validator(secp(9), U512::from_u64(9));
    let d = SeigniorageAllocation::delegator(PublicKey::System, PublicKey::System, U512::zero());
    assert!(v < d);
    let small = SeigniorageAllocation::validator(ed(1), U512::from_u64(255));
    let large = SeigniorageAllocation::validator(ed(1), U512::from_u64(256));
    assert!(small < large);
    let mut all = sample_allocations();
    all.sort();
    assert!(all.windows(2).all(|w| w[0] <= w[1]));
}

#[test]
fn empty_auction_info_encoding() {
    let info = AuctionInfo::new();
    assert!(info.seigniorage_allocations().is_empty());
    assert_eq!(info, AuctionInfo::default());
    assert_eq!(info.to_bytes(), vec![0, 0, 0, 0]);
    assert_eq!(info.serialized_length(), 4);
    let (back, rem) = AuctionInfo::from_bytes(&[0, 0, 0, 0, 1]).unwrap();
    assert_eq!(back, info);
    assert_eq!(rem, &[1]);
}

#[test]
fn auction_info_round_trip() {
    let info = sample_info();
    let bytes = info.to_bytes();
    assert_eq!(&bytes[..4], &[5, 0, 0, 0]);
    assert_eq!(bytes.len(), info.serialized_length());
    let (back, rem) = AuctionInfo::from_bytes(&bytes).unwrap();
    assert_eq!(back, info);
    assert!(rem.is_empty());
}

#[test]
fn auction_info_decoding_failures() {
    assert_eq!(AuctionInfo::from_bytes(&[1, 0, 0]), Err(Error::EarlyEndOfStream));
    assert_eq!(AuctionInfo::from_bytes(&[1, 0, 0, 0]), Err(Error::EarlyEndOfStream));
    assert_eq!(AuctionInfo::from_bytes(&[1, 0, 0, 0, 7]), Err(Error::Formatting));
}

#[test]
fn select_matches_validator_key_of_validators_and_delegator_key_of_delegators() {
    let info = sample_info();
    let all = sample_allocations();
    assert_eq!(info.select(ed(1)), vec![all[0], all[3]]);
    assert_eq!(info.select(ed(2)), vec![all[1]]);
    assert_eq!(info.select(secp(3)), vec![all[2]]);
    assert_eq!(info.select(PublicKey::System), vec![all[4]]);
    assert!(info.select(ed(200)).is_empty());
    assert!(AuctionInfo::new().select(ed(1)).is_empty());
}

#[test]
fn allocations_are_appended_in_order() {
    let mut info = AuctionInfo::new();
    info.seigniorage_allocations_mut().push(sample_allocations()[1]);
    info.seigniorage_allocations_mut().push(sample_allocations()[0]);
    assert_eq!(info.seigniorage_allocations(), &vec![sample_allocations()[1], sample_allocations()[0]]);
}
