//! Color assignment for new presence records.
//!
//! A hue is drawn uniformly over the full color wheel; saturation and
//! value are fixed at one half and one. The conversion to RGB is the
//! usual piecewise-linear one, carried out in integer arithmetic: within
//! each sixty-degree segment one channel ramps linearly between the base
//! value 128 (half saturation) and the full value 255, while the other
//! two sit at one of the ends. The result is hex-encoded as `#RRGGBB`.

use vstd::prelude::*;

use crate::text::{hex_digit, hex_digit_upper, push_char};

verus! {

/// The channel value rising through a segment: 128 at its start,
/// approaching 255 at its end.
pub open spec fn ramp_up(frac: nat) -> nat {
    128 + (127 * frac) / 60
}

/// The channel value falling through a segment: 255 at its start,
/// approaching 128 at its end.
pub open spec fn ramp_down(frac: nat) -> nat {
    (128 + (127 * (60 - frac)) / 60) as nat
}

/// The RGB channels for a hue (in degrees, below 360) at saturation one
/// half and value one.
pub open spec fn hue_rgb(h: nat) -> (nat, nat, nat) {
    let seg = h / 60;
    let frac = h % 60;
    if seg == 0 {
        (255, ramp_up(frac), 128)
    } else if seg == 1 {
        (ramp_down(frac), 255, 128)
    } else if seg == 2 {
        (128, 255, ramp_up(frac))
    } else if seg == 3 {
        (128, ramp_down(frac), 255)
    } else if seg == 4 {
        (ramp_up(frac), 128, 255)
    } else {
        (255, 128, ramp_down(frac))
    }
}

/// A byte as two upper-case hexadecimal digits.
pub open spec fn byte_hex_upper(b: nat) -> Seq<char> {
    seq![hex_digit_upper(b / 16), hex_digit_upper(b % 16)]
}

/// A `#RRGGBB` rendering of three channel values.
pub open spec fn color_hex_chars(r: nat, g: nat, b: nat) -> Seq<char> {
    seq!['#'] + byte_hex_upper(r) + byte_hex_upper(g) + byte_hex_upper(b)
}

/// The color string assigned for a drawn hue.
pub open spec fn assigned_color(hue: nat) -> Seq<char> {
    let rgb = hue_rgb(hue % 360);
    color_hex_chars(rgb.0, rgb.1, rgb.2)
}

/// An upper-case hexadecimal digit character.
pub open spec fn is_hex_char_upper(c: char) -> bool {
    48 <= c as u32 <= 57 || 65 <= c as u32 <= 70
}

/// A well-formed `#RRGGBB` color string.
pub open spec fn is_color_hex(s: Seq<char>) -> bool {
    s.len() == 7 && s[0] == '#' && (forall|i: int|
        1 <= i < 7 ==> is_hex_char_upper(#[trigger] s[i]))
}

/// Hexadecimal digit characters are hexadecimal characters.
proof fn lemma_hex_digit_upper_range(d: nat)
    requires
        d < 16,
    ensures
        is_hex_char_upper(hex_digit_upper(d)),
{
}

/// Both channel ramps stay within a byte.
proof fn lemma_ramp_bounds(frac: nat)
    requires
        frac < 60,
    ensures
        128 <= ramp_up(frac) <= 255,
        128 <= ramp_down(frac) <= 255,
{
}

/// Every assigned color is a well-formed `#RRGGBB` string.
pub proof fn lemma_assigned_color_valid(hue: nat)
    ensures
        is_color_hex(assigned_color(hue)),
{
    let h = hue % 360;
    let rgb = hue_rgb(h);
    lemma_ramp_bounds(h % 60);
    let s = color_hex_chars(rgb.0, rgb.1, rgb.2);
    assert(s.len() == 7);
    assert(s[0] == '#');
    assert(s[1] == hex_digit_upper(rgb.0 / 16));
    assert(s[2] == hex_digit_upper(rgb.0 % 16));
    assert(s[3] == hex_digit_upper(rgb.1 / 16));
    assert(s[4] == hex_digit_upper(rgb.1 % 16));
    assert(s[5] == hex_digit_upper(rgb.2 / 16));
    assert(s[6] == hex_digit_upper(rgb.2 % 16));
    lemma_hex_digit_upper_range(rgb.0 / 16);
    lemma_hex_digit_upper_range(rgb.0 % 16);
    lemma_hex_digit_upper_range(rgb.1 / 16);
    lemma_hex_digit_upper_range(rgb.1 % 16);
    lemma_hex_digit_upper_range(rgb.2 / 16);
    lemma_hex_digit_upper_range(rgb.2 % 16);
}

/// The RGB channels for a hue below 360 degrees.
fn hue_to_rgb(h: u32) -> (rgb: (u8, u8, u8))
    requires
        h < 360,
    ensures
        rgb.0 as nat == hue_rgb(h as nat).0,
        rgb.1 as nat == hue_rgb(h as nat).1,
        rgb.2 as nat == hue_rgb(h as nat).2,
{
    let seg = h / 60;
    let frac = h % 60;
    let up = (128 + (127 * frac) / 60) as u8;
    let down = (128 + (127 * (60 - frac)) / 60) as u8;
    proof {
        lemma_ramp_bounds(frac as nat);
    }
    if seg == 0 {
        (255, up, 128)
    } else if seg == 1 {
        (down, 255, 128)
    } else if seg == 2 {
        (128, 255, up)
    } else if seg == 3 {
        (128, down, 255)
    } else if seg == 4 {
        (up, 128, 255)
    } else {
        (255, 128, down)
    }
}

/// Append a byte as two upper-case hexadecimal digits.
fn push_byte_hex(s: &mut String, b: u8)
    ensures
        final(s)@ == old(s)@ + byte_hex_upper(b as nat),
{
    push_char(s, hex_digit(b / 16));
    push_char(s, hex_digit(b % 16));
    proof {
        assert(s@ =~= old(s)@ + byte_hex_upper(b as nat));
    }
}

/// The `#RRGGBB` color string for a drawn hue; any draw of 360 degrees
/// or more wraps around the wheel.
pub fn assign_color(hue: u32) -> (s: String)
    ensures
        s@ == assigned_color(hue as nat),
        is_color_hex(s@),
{
    let h = hue % 360;
    let rgb = hue_to_rgb(h);
    let mut s = String::new();
    push_char(&mut s, '#');
    push_byte_hex(&mut s, rgb.0);
    push_byte_hex(&mut s, rgb.1);
    push_byte_hex(&mut s, rgb.2);
    proof {
        assert(s@ =~= assigned_color(hue as nat));
        lemma_assigned_color_valid(hue as nat);
    }
    s
}

/// Relies on rand::random_range: a draw from the given range is always
/// within it. Which value comes back is not specified: every caller is
/// verified for every hue below 360.
#[verifier::external_body]
pub(crate) fn random_hue() -> (h: u32)
    ensures
        h < 360,
{
    rand::random_range(0..360u32)
}

} // verus!
