use mysocial_network::codec::{
    decode_partial_signature, encode_partial_signature, u64_to_be_bytes, PartialSignature,
};
use mysocial_network::signer::{
    aggregate, make_full_signature, partial_signature_valid, sign_partial, verify_signature,
    AggregateError,
};

#[test]
fn u64_big_endian_bytes_exact() {
    assert_eq!(u64_to_be_bytes(0), vec![0, 0, 0, 0, 0, 0, 0, 0]);
    assert_eq!(u64_to_be_bytes(1), vec![0, 0, 0, 0, 0, 0, 0, 1]);
    assert_eq!(u64_to_be_bytes(0x0102030405060708), vec![1, 2, 3, 4, 5, 6, 7, 8]);
    assert_eq!(
        u64_to_be_bytes(u64::MAX),
        vec![0xff, 0xff, 0xff, 0xff, 0xff, 0xff, 0xff, 0xff]
    );
}

#[test]
fn partial_signature_codec_round_trip() {
    let sig = PartialSignature { index: 513, payload: vec![10, 20, 30] };
    let bytes = encode_partial_signature(&sig);
    assert_eq!(bytes, vec![0, 0, 0, 0, 0, 0, 2, 1, 10, 20, 30]);
    let back = decode_partial_signature(&bytes).unwrap();
    assert_eq!(back.index, 513);
    assert_eq!(back.payload, vec![10, 20, 30]);
}

#[test]
fn decode_rejects_short_input() {
    assert!(decode_partial_signature(&vec![]).is_none());
    assert!(decode_partial_signature(&vec![1, 2, 3, 4, 5, 6, 7]).is_none());
    // Exactly eight bytes decode to an empty payload.
    let sig = decode_partial_signature(&vec![0, 0, 0, 0, 0, 0, 0, 9]).unwrap();
    assert_eq!(sig.index, 9);
    assert!(sig.payload.is_empty());
}

#[test]
fn signing_is_deterministic_and_checkable() {
    let a = sign_partial(7, 5, 1);
    let b = sign_partial(7, 5, 1);
    assert_eq!(a.index, b.index);
    assert_eq!(a.payload, b.payload);
    assert!(partial_signature_valid(7, 5, &a));
    // A share for another round is not valid for this one.
    let other_round = sign_partial(7, 6, 1);
    assert!(!partial_signature_valid(7, 5, &other_round));
}

#[test]
fn aggregation_thresholds_and_errors() {
    let sigs = vec![sign_partial(7, 5, 0), sign_partial(7, 5, 1)];

    // Enough distinct ordered correct shares aggregate, and the result
    // passes verification against the epoch key.
    let full = aggregate(7, 5, 2, &sigs).unwrap();
    assert!(verify_signature(7, 5, &full));
    assert_eq!(full.bytes, make_full_signature(7, 5).bytes);
    assert!(!verify_signature(7, 6, &full));
    assert!(!verify_signature(8, 5, &full));

    // Below the threshold nothing aggregates.
    let one = vec![sign_partial(7, 5, 0)];
    assert_eq!(aggregate(7, 5, 2, &one), Err(AggregateError::NotEnoughShares));

    // Unordered shares are refused.
    let unordered = vec![sign_partial(7, 5, 1), sign_partial(7, 5, 0)];
    assert_eq!(aggregate(7, 5, 2, &unordered), Err(AggregateError::UnorderedShares));

    // Duplicated indexes are not distinct shares.
    let duplicated = vec![sign_partial(7, 5, 1), sign_partial(7, 5, 1)];
    assert_eq!(aggregate(7, 5, 2, &duplicated), Err(AggregateError::UnorderedShares));

    // A corrupted share is refused.
    let mut corrupted = vec![sign_partial(7, 5, 0), sign_partial(7, 5, 1)];
    corrupted[1].payload[0] ^= 0xff;
    assert_eq!(aggregate(7, 5, 2, &corrupted), Err(AggregateError::InvalidShare));
}
