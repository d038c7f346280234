//! Plain-text helpers: decimal rendering and parsing of unsigned
//! numbers, and the hexadecimal digit alphabets, with their exact
//! specifications.

use vstd::prelude::*;

verus! {

/// Relies on String::push: it appends exactly the one given character.
#[verifier::external_body]
pub(crate) fn push_char(s: &mut String, c: char)
    ensures
        final(s)@ == old(s)@.push(c),
{
    s.push(c);
}

/// The character for a decimal digit value.
pub open spec fn dec_digit_char(d: nat) -> char {
    if d == 0 {
        '0'
    } else if d == 1 {
        '1'
    } else if d == 2 {
        '2'
    } else if d == 3 {
        '3'
    } else if d == 4 {
        '4'
    } else if d == 5 {
        '5'
    } else if d == 6 {
        '6'
    } else if d == 7 {
        '7'
    } else if d == 8 {
        '8'
    } else {
        '9'
    }
}

/// The decimal rendering of a number, most significant digit first, with
/// no sign and no leading zero (except for the number zero itself).
pub open spec fn dec_chars(n: nat) -> Seq<char>
    decreases n,
{
    if n < 10 {
        seq![dec_digit_char(n)]
    } else {
        dec_chars(n / 10).push(dec_digit_char(n % 10))
    }
}

/// The character for a decimal digit value.
fn dec_digit(d: u64) -> (c: char)
    requires
        d < 10,
    ensures
        c == dec_digit_char(d as nat),
{
    match d {
        0 => '0',
        1 => '1',
        2 => '2',
        3 => '3',
        4 => '4',
        5 => '5',
        6 => '6',
        7 => '7',
        8 => '8',
        _ => '9',
    }
}

/// Render a number in decimal.
pub fn u64_to_dec(n: u64) -> (s: String)
    ensures
        s@ == dec_chars(n as nat),
    decreases n,
{
    if n < 10 {
        let mut s = String::new();
        push_char(&mut s, dec_digit(n));
        proof {
            assert(s@ =~= dec_chars(n as nat));
        }
        s
    } else {
        let mut s = u64_to_dec(n / 10);
        push_char(&mut s, dec_digit(n % 10));
        s
    }
}

/// Whether a character is a decimal digit.
pub open spec fn is_dec_digit(c: char) -> bool {
    48 <= c as u32 <= 57
}

/// The value of a decimal digit character.
pub open spec fn dec_digit_val(c: char) -> nat {
    (c as u32 - 48) as nat
}

/// The number a digit string denotes, most significant digit first.
pub open spec fn dec_val(s: Seq<char>) -> nat
    decreases s.len(),
{
    if s.len() == 0 {
        0
    } else {
        dec_val(s.drop_last()) * 10 + dec_digit_val(s.last())
    }
}

/// The digits of a number string: everything after an optional leading
/// plus sign, as Rust's unsigned parsing reads it.
pub open spec fn number_digits(s: Seq<char>) -> Seq<char> {
    if s.len() > 0 && s[0] == '+' {
        s.subrange(1, s.len() as int)
    } else {
        s
    }
}

/// Whether a string parses as a 64-bit unsigned number: an optional
/// leading plus sign, then at least one decimal digit and nothing else,
/// denoting a value that fits.
pub open spec fn parses_as_u64(s: Seq<char>) -> bool {
    let ds = number_digits(s);
    ds.len() > 0 && (forall|i: int| 0 <= i < ds.len() ==> is_dec_digit(#[trigger] ds[i]))
        && dec_val(ds) <= u64::MAX
}

/// The value such a string denotes.
pub open spec fn u64_string_val(s: Seq<char>) -> nat {
    dec_val(number_digits(s))
}

/// A digit string's value never shrinks as more digits follow.
proof fn lemma_dec_val_prefix(s: Seq<char>, k: int)
    requires
        0 <= k <= s.len(),
    ensures
        dec_val(s.take(k)) <= dec_val(s),
    decreases s.len() - k,
{
    if k == s.len() {
        assert(s.take(k) =~= s);
    } else {
        lemma_dec_val_prefix(s, k + 1);
        assert(s.take(k + 1).drop_last() =~= s.take(k));
        assert(s.take(k + 1).last() == s[k]);
        assert(dec_val(s.take(k + 1)) == dec_val(s.take(k)) * 10 + dec_digit_val(s[k]));
    }
}

/// Parse a 64-bit unsigned number, exactly as Rust's own unsigned
/// parsing accepts it: an optional leading plus sign and then only
/// decimal digits, the value fitting in 64 bits.
pub fn parse_u64(s: &str) -> (r: Option<u64>)
    ensures
        match r {
            Some(v) => parses_as_u64(s@) && v as nat == u64_string_val(s@),
            None => !parses_as_u64(s@),
        },
{
    let n = s.unicode_len();
    if n == 0 {
        return None;
    }
    let first = s.get_char(0);
    let start: usize = if first == '+' {
        1
    } else {
        0
    };
    let ghost ds = number_digits(s@);
    proof {
        assert(ds =~= s@.subrange(start as int, s@.len() as int));
    }
    if n == start {
        return None;
    }
    let mut val: u64 = 0;
    let mut i: usize = start;
    while i < n
        invariant
            n == s@.len(),
            start <= i <= n,
            start <= 1,
            ds == number_digits(s@),
            ds == s@.subrange(start as int, s@.len() as int),
            forall|j: int| start <= j < i ==> is_dec_digit(#[trigger] s@[j]),
            val as nat == dec_val(ds.take(i - start)),
        decreases n - i,
    {
        let c = s.get_char(i);
        let cp = c as u32;
        proof {
            assert(ds[i - start] == s@[i as int]);
        }
        if cp < 48 || cp > 57 {
            proof {
                assert(!is_dec_digit(ds[i - start]));
                assert(exists|j: int| 0 <= j < ds.len() && !is_dec_digit(#[trigger] ds[j]));
            }
            return None;
        }
        let d = (cp - 48) as u64;
        proof {
            assert(ds.take(i - start + 1).drop_last() =~= ds.take(i - start));
            assert(ds.take(i - start + 1).last() == ds[i - start]);
            assert(dec_val(ds.take(i - start + 1)) == val as nat * 10 + d as nat);
        }
        let limit = (u64::MAX - d) / 10;
        proof {
            let q = (u64::MAX - d) as nat / 10;
            assert((u64::MAX - d) as nat == q * 10 + (u64::MAX - d) as nat % 10);
        }
        if val > limit {
            proof {
                lemma_dec_val_prefix(ds, i - start + 1);
                assert(dec_val(ds.take(i - start + 1)) > u64::MAX);
                assert(dec_val(ds) > u64::MAX);
            }
            return None;
        }
        val = val * 10 + d;
        i += 1;
    }
    proof {
        assert(ds.take(i - start) =~= ds);
        assert forall|j: int| 0 <= j < ds.len() implies is_dec_digit(#[trigger] ds[j]) by {
            assert(ds[j] == s@[j + start]);
        }
    }
    Some(val)
}

/// The character for a hexadecimal digit value, upper case.
pub open spec fn hex_digit_upper(d: nat) -> char {
    if d < 10 {
        dec_digit_char(d)
    } else if d == 10 {
        'A'
    } else if d == 11 {
        'B'
    } else if d == 12 {
        'C'
    } else if d == 13 {
        'D'
    } else if d == 14 {
        'E'
    } else {
        'F'
    }
}

/// The character for a hexadecimal digit value, lower case.
pub open spec fn hex_digit_lower(d: nat) -> char {
    if d < 10 {
        dec_digit_char(d)
    } else if d == 10 {
        'a'
    } else if d == 11 {
        'b'
    } else if d == 12 {
        'c'
    } else if d == 13 {
        'd'
    } else if d == 14 {
        'e'
    } else {
        'f'
    }
}

/// The lower-case hexadecimal rendering of bytes, two digits per byte.
pub open spec fn hex_lower_of(bytes: Seq<u8>) -> Seq<char>
    decreases bytes.len(),
{
    if bytes.len() == 0 {
        Seq::empty()
    } else {
        hex_lower_of(bytes.drop_last()) + seq![
            hex_digit_lower((bytes.last() / 16) as nat),
            hex_digit_lower((bytes.last() % 16) as nat),
        ]
    }
}

/// The character for a hexadecimal digit value, upper case.
pub fn hex_digit(d: u8) -> (c: char)
    requires
        d < 16,
    ensures
        c == hex_digit_upper(d as nat),
{
    match d {
        0 => '0',
        1 => '1',
        2 => '2',
        3 => '3',
        4 => '4',
        5 => '5',
        6 => '6',
        7 => '7',
        8 => '8',
        9 => '9',
        10 => 'A',
        11 => 'B',
        12 => 'C',
        13 => 'D',
        14 => 'E',
        _ => 'F',
    }
}

} // verus!
