//! The payment provider's webhook signature.
//!
//! The signature header is a comma-separated list of `key=value`
//! entries; the `t` entry carries a timestamp, the `v1` entry the
//! expected authentication tag. A request is valid when the tag equals
//! the HMAC-SHA-256 of `"<timestamp>.<body>"` under the shared signing
//! key, hex-encoded; the comparison runs in constant time.

use vstd::prelude::*;
use vstd::string::StrSliceExecFns;
use vstd::string::StringExecFns;
use vstd::utf8::encode_utf8;

use hmac::{Hmac, Mac};
use sha2::Sha256;
use subtle::ConstantTimeEq;

use crate::text::{dec_chars, hex_lower_of, parse_u64, parses_as_u64, push_char, u64_string_val,
    u64_to_dec};

verus! {

/// Why a signature header was rejected.
#[derive(Clone, Copy, Debug, PartialEq, Eq, Structural)]
pub enum SignatureHeaderError {
    /// A `t` entry's value does not parse as a 64-bit timestamp.
    InvalidTimestamp,
    /// The header lacks a `t` entry or a `v1` entry.
    MissingFields,
}

/// A parsed webhook signature: the signed timestamp and the expected
/// tag.
#[derive(Debug)]
pub struct StripeSignature {
    pub timestamp: u64,
    pub v1: String,
}

/// The index of the first occurrence of `c`, or -1.
pub open spec fn find_char(s: Seq<char>, c: char) -> int
    decreases s.len(),
{
    if s.len() == 0 {
        -1
    } else if s[0] == c {
        0
    } else {
        let r = find_char(s.drop_first(), c);
        if r < 0 {
            -1
        } else {
            r + 1
        }
    }
}

/// `find_char` finds the first occurrence, if there is one.
pub proof fn lemma_find_char(s: Seq<char>, c: char)
    ensures
        find_char(s, c) < 0 ==> forall|i: int| 0 <= i < s.len() ==> s[i] != c,
        find_char(s, c) >= 0 ==> find_char(s, c) < s.len() && s[find_char(s, c)] == c && forall|
            i: int,
        | 0 <= i < find_char(s, c) ==> s[i] != c,
    decreases s.len(),
{
    if s.len() > 0 && s[0] != c {
        lemma_find_char(s.drop_first(), c);
        let r = find_char(s.drop_first(), c);
        if r < 0 {
            assert forall|i: int| 0 <= i < s.len() implies s[i] != c by {
                if i > 0 {
                    assert(s.drop_first()[i - 1] == s[i]);
                }
            }
        } else {
            assert(s.drop_first()[r] == s[r + 1]);
            assert forall|i: int| 0 <= i < r + 1 implies s[i] != c by {
                if i > 0 {
                    assert(s.drop_first()[i - 1] == s[i]);
                }
            }
        }
    }
}

/// An index that is an occurrence, with none before it, is what
/// `find_char` returns.
pub proof fn lemma_find_char_unique(s: Seq<char>, c: char, i: int)
    requires
        0 <= i < s.len(),
        s[i] == c,
        forall|j: int| 0 <= j < i ==> s[j] != c,
    ensures
        find_char(s, c) == i,
{
    lemma_find_char(s, c);
    let f = find_char(s, c);
    if f < 0 {
        assert(s[i] != c);
    } else if f < i {
        assert(s[f] != c);
    } else if f > i {
        assert(s[i] != c);
    }
}

/// The entries of the comma-separated header, in order.
pub open spec fn split_commas(s: Seq<char>) -> Seq<Seq<char>>
    decreases s.len(),
    via split_commas_decreases
{
    let i = find_char(s, ',');
    if i < 0 {
        seq![s]
    } else {
        seq![s.take(i)] + split_commas(s.skip(i + 1))
    }
}

#[via_fn]
proof fn split_commas_decreases(s: Seq<char>) {
    lemma_find_char(s, ',');
}

/// What one entry does to the scan state. An entry without an equals
/// sign is ignored; the key is everything before the first equals sign,
/// the value everything after it. A `t` entry must parse as a 64-bit
/// number and overwrites the timestamp; a `v1` entry overwrites the
/// tag; any other key is ignored.
pub open spec fn entry_step(
    e: Seq<char>,
    ts: Option<nat>,
    v1: Option<Seq<char>>,
) -> Result<(Option<nat>, Option<Seq<char>>), ()> {
    let i = find_char(e, '=');
    if i < 0 {
        Ok((ts, v1))
    } else {
        let key = e.take(i);
        let val = e.skip(i + 1);
        if key == "t"@ {
            if parses_as_u64(val) {
                Ok((Some(u64_string_val(val)), v1))
            } else {
                Err(())
            }
        } else if key == "v1"@ {
            Ok((ts, Some(val)))
        } else {
            Ok((ts, v1))
        }
    }
}

/// The scan state after a list of entries, left to right.
pub open spec fn scan_entries(
    entries: Seq<Seq<char>>,
    ts: Option<nat>,
    v1: Option<Seq<char>>,
) -> Result<(Option<nat>, Option<Seq<char>>), ()>
    decreases entries.len(),
{
    if entries.len() == 0 {
        Ok((ts, v1))
    } else {
        match entry_step(entries.first(), ts, v1) {
            Ok(st) => scan_entries(entries.drop_first(), st.0, st.1),
            Err(e) => Err(e),
        }
    }
}

/// What parsing a whole header yields: its timestamp and tag, or the
/// error — an unparsable timestamp anywhere fails, and both fields must
/// have appeared.
pub open spec fn header_outcome(s: Seq<char>) -> Result<(nat, Seq<char>), SignatureHeaderError> {
    match scan_entries(split_commas(s), None, None) {
        Err(_) => Err(SignatureHeaderError::InvalidTimestamp),
        Ok(st) => match st {
            (Some(ts), Some(v)) => Ok((ts, v)),
            _ => Err(SignatureHeaderError::MissingFields),
        },
    }
}

/// The numbers of a scan state, viewed mathematically.
pub open spec fn opt_nat(o: Option<u64>) -> Option<nat> {
    match o {
        Some(v) => Some(v as nat),
        None => None,
    }
}

/// The tag of a scan state, viewed mathematically.
pub open spec fn opt_view(o: Option<String>) -> Option<Seq<char>> {
    match o {
        Some(v) => Some(v@),
        None => None,
    }
}

/// The index of the first occurrence of `c` in a string.
fn find_in_str(s: &str, c: char) -> (r: Option<usize>)
    ensures
        match r {
            Some(i) => find_char(s@, c) == i as int,
            None => find_char(s@, c) < 0,
        },
{
    let n = s.unicode_len();
    let mut i: usize = 0;
    while i < n
        invariant
            n == s@.len(),
            i <= n,
            forall|j: int| 0 <= j < i ==> s@[j] != c,
        decreases n - i,
    {
        if s.get_char(i) == c {
            proof {
                lemma_find_char_unique(s@, c, i as int);
            }
            return Some(i);
        }
        i += 1;
    }
    proof {
        lemma_find_char(s@, c);
        if find_char(s@, c) >= 0 {
            assert(s@[find_char(s@, c)] != c);
        }
    }
    None
}

/// Apply one header entry to the scan state.
fn apply_entry(e: &str, ts: Option<u64>, v1: Option<String>) -> (r: Result<
    (Option<u64>, Option<String>),
    SignatureHeaderError,
>)
    ensures
        match r {
            Ok(st) => entry_step(e@, opt_nat(ts), opt_view(v1)) == Ok::<_, ()>(
                (opt_nat(st.0), opt_view(st.1)),
            ),
            Err(err) => err == SignatureHeaderError::InvalidTimestamp && entry_step(
                e@,
                opt_nat(ts),
                opt_view(v1),
            ) is Err,
        },
{
    let n = e.unicode_len();
    match find_in_str(e, '=') {
        None => Ok((ts, v1)),
        Some(i) => {
            proof {
                lemma_find_char(e@, '=');
            }
            let key = e.substring_char(0, i);
            let val = e.substring_char(i + 1, n);
            proof {
                assert(key@ =~= e@.take(i as int));
                assert(val@ =~= e@.skip(i + 1));
            }
            let key_string = String::from_str(key);
            if key_string == String::from_str("t") {
                match parse_u64(val) {
                    Some(v) => Ok((Some(v), v1)),
                    None => Err(SignatureHeaderError::InvalidTimestamp),
                }
            } else if key_string == String::from_str("v1") {
                Ok((ts, Some(String::from_str(val))))
            } else {
                Ok((ts, v1))
            }
        },
    }
}

/// Scan the remaining header text, entry by entry.
fn scan_str(s: &str, ts: Option<u64>, v1: Option<String>) -> (r: Result<
    (Option<u64>, Option<String>),
    SignatureHeaderError,
>)
    ensures
        match r {
            Ok(st) => scan_entries(split_commas(s@), opt_nat(ts), opt_view(v1)) == Ok::<_, ()>(
                (opt_nat(st.0), opt_view(st.1)),
            ),
            Err(err) => err == SignatureHeaderError::InvalidTimestamp && scan_entries(
                split_commas(s@),
                opt_nat(ts),
                opt_view(v1),
            ) is Err,
        },
    decreases s@.len(),
{
    proof {
        reveal_with_fuel(scan_entries, 3);
    }
    let n = s.unicode_len();
    match find_in_str(s, ',') {
        None => {
            proof {
                assert(split_commas(s@) == seq![s@]);
                assert(split_commas(s@).first() == s@);
                assert(split_commas(s@).drop_first() =~= Seq::<Seq<char>>::empty());
            }
            apply_entry(s, ts, v1)
        },
        Some(i) => {
            proof {
                lemma_find_char(s@, ',');
                assert(split_commas(s@) == seq![s@.take(i as int)] + split_commas(
                    s@.skip(i + 1),
                ));
                assert(split_commas(s@).first() == s@.take(i as int));
                assert(split_commas(s@).drop_first() =~= split_commas(s@.skip(i + 1)));
            }
            let head = s.substring_char(0, i);
            let tail = s.substring_char(i + 1, n);
            proof {
                assert(head@ =~= s@.take(i as int));
                assert(tail@ =~= s@.skip(i + 1));
            }
            match apply_entry(head, ts, v1) {
                Ok(st) => scan_str(tail, st.0, st.1),
                Err(err) => Err(err),
            }
        },
    }
}

impl StripeSignature {
    /// Parse a signature header into its timestamp and tag.
    pub fn from_header(header: &str) -> (r: Result<StripeSignature, SignatureHeaderError>)
        ensures
            match r {
                Ok(sig) => header_outcome(header@) == Ok::<_, SignatureHeaderError>(
                    (sig.timestamp as nat, sig.v1@),
                ),
                Err(e) => header_outcome(header@) == Err::<(nat, Seq<char>), _>(e),
            },
    {
        match scan_str(header, None, None) {
            Err(e) => Err(e),
            Ok((Some(ts), Some(v))) => Ok(StripeSignature { timestamp: ts, v1: v }),
            Ok(_) => Err(SignatureHeaderError::MissingFields),
        }
    }

    /// Whether the tag is the HMAC-SHA-256, under `key`, of the
    /// timestamp and payload joined by a dot, hex-encoded in lower
    /// case.
    pub fn is_valid(&self, payload: &str, key: &[u8]) -> (r: bool)
        ensures
            r == (hex_lower_of(
                hmac_sha256_of(key@, signed_payload_bytes(self.timestamp as nat, payload@)),
            ) == self.v1@),
    {
        let mut signed = u64_to_dec(self.timestamp);
        push_char(&mut signed, '.');
        signed.append(payload);
        proof {
            assert(signed@ == dec_chars(self.timestamp as nat).push('.') + payload@);
        }
        let digest = hmac_sha256(key, signed.as_str().as_bytes());
        let expected_hex = hex_encode(digest.as_slice());
        ct_str_eq(expected_hex.as_str(), self.v1.as_str())
    }
}

/// The bytes that are authenticated: the decimal timestamp, a dot, and
/// the payload, UTF-8 encoded.
pub open spec fn signed_payload_bytes(ts: nat, payload: Seq<char>) -> Seq<u8> {
    encode_utf8(dec_chars(ts).push('.') + payload)
}

/// The HMAC-SHA-256 tag of a message under a key: a function of the
/// two alone.
pub uninterp spec fn hmac_sha256_of(key: Seq<u8>, msg: Seq<u8>) -> Seq<u8>;

/// Relies on the hmac and sha2 crates: the tag depends on the key and
/// message alone, and a SHA-256 tag is 32 bytes. Keys of any length
/// are accepted.
#[verifier::external_body]
fn hmac_sha256(key: &[u8], msg: &[u8]) -> (r: Vec<u8>)
    ensures
        r@ == hmac_sha256_of(key@, msg@),
        r@.len() == 32,
{
    let mut mac = <Hmac<Sha256> as Mac>::new_from_slice(key).expect("HMAC accepts keys of any length");
    mac.update(msg);
    mac.finalize().into_bytes().to_vec()
}

/// Relies on hex::encode: two lower-case digits per byte, high nibble
/// first.
#[verifier::external_body]
fn hex_encode(data: &[u8]) -> (r: String)
    ensures
        r@ == hex_lower_of(data@),
{
    hex::encode(data)
}

/// Relies on subtle's constant-time equality for byte slices: the
/// outcome is true exactly when the slices hold the same bytes, and
/// two strings hold the same bytes exactly when they are the same
/// string.
#[verifier::external_body]
fn ct_str_eq(a: &str, b: &str) -> (r: bool)
    ensures
        r == (a@ == b@),
{
    a.as_bytes().ct_eq(b.as_bytes()).into()
}

} // verus!
