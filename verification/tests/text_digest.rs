use scrolls::digest::asset_fingerprint;
use scrolls::{apply_decode_policy, DecodeOutcome, Error, ErrorAction, RuntimePolicy};
use scrolls::model::OutputRef;
use scrolls::text::{i64_string, u64_string};

#[test]
fn decimal_of_zero() {
    assert_eq!(u64_string(0), "0");
}

#[test]
fn decimal_of_large_number() {
    assert_eq!(u64_string(9007199254740993), "9007199254740993");
    assert_eq!(u64_string(u64::MAX), "18446744073709551615");
}

#[test]
fn decimal_of_signed_numbers() {
    assert_eq!(i64_string(0), "0");
    assert_eq!(i64_string(-7), "-7");
    assert_eq!(i64_string(i64::MIN), "-9223372036854775808");
    assert_eq!(i64_string(i64::MAX), "9223372036854775807");
}

#[test]
fn reference_key_combines_hash_and_index() {
    let r = OutputRef {
        tx_hash: vec![0xde, 0xad],
        index: 7,
    };
    assert_eq!(r.key_string(), "dead#7");
}

#[test]
fn reference_key_of_two_digit_index() {
    let r = OutputRef {
        tx_hash: vec![0x01],
        index: 42,
    };
    assert_eq!(r.key_string(), "01#42");
}

#[test]
fn fingerprint_matches_known_asset() {
    // A well-known fingerprint test vector: a bare policy with an empty
    // asset name.
    let policy = hex::decode("7eae28af2208be856f7a119668ae52a49b73725e326dc16579dcc373").unwrap();
    let fp = asset_fingerprint(&policy, &[]);
    assert_eq!(fp, "asset1rjklcrnsdzqp65wjgrg55sy9723kw09mlgvlc3");
}

#[test]
fn fingerprint_depends_on_name() {
    let policy = vec![0xaa; 28];
    let a = asset_fingerprint(&policy, b"one");
    let b = asset_fingerprint(&policy, b"two");
    assert_ne!(a, b);
    assert!(a.starts_with("asset1"));
}

#[test]
fn error_kinds_have_names() {
    assert_eq!(Error::Decode(String::from("bad cbor")).kind_name(), "decode");
    assert_eq!(Error::Storage(String::from("io")).kind_name(), "storage");
    assert_eq!(Error::ChainClient(String::from("lost")).kind_name(), "chain client");
    assert_eq!(Error::IntersectNotFound.kind_name(), "intersect not found");
    assert_eq!(Error::IntersectLost.kind_name(), "intersect lost");
    assert_eq!(Error::Cancelled.kind_name(), "cancelled");
    assert_eq!(
        apply_decode_policy(&RuntimePolicy::new(ErrorAction::Fail)),
        DecodeOutcome::Abort
    );
    assert_eq!(
        apply_decode_policy(&RuntimePolicy::new(ErrorAction::Skip)),
        DecodeOutcome::DropBlock
    );
    assert_eq!(
        apply_decode_policy(&RuntimePolicy::new(ErrorAction::Warn)),
        DecodeOutcome::DropBlock
    );
}
