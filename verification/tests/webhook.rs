use hmac::{Hmac, Mac};
use sha2::Sha256;

use dotsnotbots::checkout::{checkout_fields, order_description, success_url};
use dotsnotbots::membership::{authenticates, read_only_view, register, OracleReply};
use dotsnotbots::signature::{SignatureHeaderError, StripeSignature};

fn tag_for(key: &[u8], timestamp: u64, payload: &str) -> String {
    let mut mac = Hmac::<Sha256>::new_from_slice(key).unwrap();
    mac.update(format!("{}.{}", timestamp, payload).as_bytes());
    hex::encode(mac.finalize().into_bytes())
}

#[test]
fn parses_a_signature_header() {
    let sig = StripeSignature::from_header("t=1492774577,v1=5257a869e7ecebeda32affa62cdca3fa51cad7e77a0e56ff536d0ce8e108d8bd").unwrap();
    assert_eq!(sig.timestamp, 1492774577);
    assert_eq!(
        sig.v1,
        "5257a869e7ecebeda32affa62cdca3fa51cad7e77a0e56ff536d0ce8e108d8bd"
    );
}

#[test]
fn header_entries_without_equals_and_unknown_keys_are_ignored() {
    let sig = StripeSignature::from_header("junk,t=5,scheme=v0,v1=abc").unwrap();
    assert_eq!(sig.timestamp, 5);
    assert_eq!(sig.v1, "abc");
}

#[test]
fn header_value_may_itself_hold_an_equals_sign() {
    let sig = StripeSignature::from_header("t=5,v1=a=b").unwrap();
    assert_eq!(sig.v1, "a=b");
}

#[test]
fn later_header_entries_overwrite_earlier_ones() {
    let sig = StripeSignature::from_header("t=1,t=2,v1=a,v1=b").unwrap();
    assert_eq!(sig.timestamp, 2);
    assert_eq!(sig.v1, "b");
}

#[test]
fn header_missing_a_field_is_rejected() {
    assert_eq!(
        StripeSignature::from_header("t=5").unwrap_err(),
        SignatureHeaderError::MissingFields
    );
    assert_eq!(
        StripeSignature::from_header("v1=abc").unwrap_err(),
        SignatureHeaderError::MissingFields
    );
    assert_eq!(
        StripeSignature::from_header("").unwrap_err(),
        SignatureHeaderError::MissingFields
    );
}

#[test]
fn header_with_unparsable_timestamp_is_rejected() {
    assert_eq!(
        StripeSignature::from_header("t=soon,v1=abc").unwrap_err(),
        SignatureHeaderError::InvalidTimestamp
    );
    // an overflowing timestamp does not fit in 64 bits
    assert_eq!(
        StripeSignature::from_header("t=18446744073709551616,v1=abc").unwrap_err(),
        SignatureHeaderError::InvalidTimestamp
    );
}

#[test]
fn a_correctly_signed_payload_is_valid() {
    let key = b"a signing key for tests";
    let payload = "{\"data\":{\"object\":{}}}";
    let sig = StripeSignature {
        timestamp: 1492774577,
        v1: tag_for(key, 1492774577, payload),
    };
    assert!(sig.is_valid(payload, key));
}

#[test]
fn tampering_breaks_the_signature() {
    let key = b"a signing key for tests";
    let payload = "{\"amount\":100}";
    let good = tag_for(key, 7, payload);
    let sig = StripeSignature { timestamp: 7, v1: good.clone() };
    assert!(!sig.is_valid("{\"amount\":999}", key));
    assert!(!sig.is_valid(payload, b"another key"));
    let wrong_time = StripeSignature { timestamp: 8, v1: good };
    assert!(!wrong_time.is_valid(payload, key));
    let wrong_tag = StripeSignature { timestamp: 7, v1: String::from("abc") };
    assert!(!wrong_tag.is_valid(payload, key));
}

#[test]
fn authentication_fails_closed() {
    assert!(authenticates(Some(7), OracleReply::IsMember));
    assert!(!authenticates(Some(7), OracleReply::NotMember));
    assert!(!authenticates(Some(7), OracleReply::Unavailable));
    assert!(!authenticates(None, OracleReply::IsMember));
    assert!(!read_only_view(Some(7), OracleReply::IsMember));
    assert!(read_only_view(None, OracleReply::NotMember));
}

#[test]
fn registration_requires_signature_and_membership_price() {
    let price = String::from("price_123");
    let other = String::from("price_456");
    assert_eq!(register(true, Some(&price), &price, 99), Some(99));
    assert_eq!(register(false, Some(&price), &price, 99), None);
    assert_eq!(register(true, Some(&other), &price, 99), None);
    assert_eq!(register(true, None, &price, 99), None);
}

#[test]
fn checkout_values_are_assembled_exactly() {
    assert_eq!(
        success_url("https://example.test", "11112222-3333-4444-5555-666677778888"),
        "https://example.test/set?token=11112222-3333-4444-5555-666677778888"
    );
    assert_eq!(
        order_description("abc"),
        "Your Human Token: abc"
    );
    let fields = checkout_fields("https://example.test", "price_123", "tok");
    let pairs: Vec<(&str, &str)> = fields
        .iter()
        .map(|(k, v)| (k.as_str(), v.as_str()))
        .collect();
    assert_eq!(
        pairs,
        vec![
            ("mode", "payment"),
            ("success_url", "https://example.test/set?token=tok"),
            ("payment_intent_data[description]", "Your Human Token: tok"),
            ("line_items[0][price]", "price_123"),
            ("line_items[0][quantity]", "1"),
            ("metadata[human_token]", "tok"),
        ]
    );
}
