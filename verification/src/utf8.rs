//! Byte-level rules of UTF-8: how long the unit that a lead byte opens is, and
//! which scalar a complete unit encodes.

use vstd::prelude::*;
use vstd::string::{StrSliceExecFns, StringSliceAdditionalSpecFns};
use vstd::utf8::*;

verus! {

/// The number of bytes in the unit that `lead` opens: 1 for the single-byte
/// range, 2 to 4 for the lead bytes of longer units, and 0 for a byte that
/// can never start a unit (a continuation byte, the leads `0xC0` and `0xC1`
/// of overlong forms, and everything from `0xF5` up).
pub open spec fn lead_width(lead: u8) -> nat {
    if lead <= 0x7F {
        1
    } else if 0xC2 <= lead <= 0xDF {
        2
    } else if 0xE0 <= lead <= 0xEF {
        3
    } else if 0xF0 <= lead <= 0xF4 {
        4
    } else {
        0
    }
}

/// Looks up the expected unit length of a lead byte.
pub fn utf8_char_width(lead: u8) -> (width: usize)
    ensures
        width == lead_width(lead),
{
    if lead <= 0x7F {
        1
    } else if lead < 0xC2 {
        0
    } else if lead <= 0xDF {
        2
    } else if lead <= 0xEF {
        3
    } else if lead <= 0xF4 {
        4
    } else {
        0
    }
}

/// The scalar that `unit` encodes, when `unit` is exactly one well-formed
/// encoded scalar: the right lead and continuation bytes, no overlong form,
/// no surrogate, nothing left over.
pub open spec fn unit_scalar(unit: Seq<u8>) -> Option<char> {
    if valid_first_scalar(unit) && length_of_first_scalar(unit) == unit.len() {
        Some(decode_first_scalar(unit) as char)
    } else {
        None
    }
}

/// `std::str::from_utf8`, with the error dropped. Trusted: the result is
/// `Some` exactly when the bytes are well-formed UTF-8, and the string that
/// comes back is made of these same bytes.
#[verifier::external_body]
fn from_utf8(bytes: &[u8]) -> (text: Option<&str>)
    ensures
        text is Some <==> valid_utf8(bytes@),
        text matches Some(s) ==> s.spec_bytes() == bytes@,
{
    std::str::from_utf8(bytes).ok()
}

/// A two-byte form that opens with `0xC0` or `0xC1` is overlong.
proof fn lemma_overlong_two_byte_leads(b1: u8, b2: u8)
    by (bit_vector)
    requires
        0xC0 <= b1 <= 0xC1,
    ensures
        codepoint_width_2(b1, b2) < 0x80,
{
}

/// A four-byte form that opens with `0xF5` or more lies above the last scalar.
proof fn lemma_oversized_four_byte_leads(b1: u8, b2: u8, b3: u8, b4: u8)
    by (bit_vector)
    requires
        0xF5 <= b1 <= 0xF7,
    ensures
        codepoint_width_4(b1, b2, b3, b4) > 0x10FFFF,
{
}

/// Where bytes start with a well-formed scalar, the lead byte's table entry
/// is that scalar's length.
pub proof fn lemma_valid_scalar_width(bytes: Seq<u8>)
    requires
        valid_first_scalar(bytes),
    ensures
        lead_width(bytes[0]) == length_of_first_scalar(bytes),
        1 <= length_of_first_scalar(bytes) <= bytes.len(),
{
    let b = bytes[0];
    if 0xC0 <= b <= 0xC1 {
        lemma_overlong_two_byte_leads(b, bytes[1]);
    }
    if 0xF5 <= b <= 0xF7 {
        lemma_oversized_four_byte_leads(b, bytes[1], bytes[2], bytes[3]);
    }
}

/// A single well-formed scalar is well-formed UTF-8, and decodes to itself.
pub proof fn lemma_unit_is_valid_utf8(unit: Seq<u8>)
    requires
        valid_first_scalar(unit),
        length_of_first_scalar(unit) == unit.len(),
    ensures
        valid_utf8(unit),
        decode_utf8(unit) == seq![decode_first_scalar(unit) as char],
{
    reveal_with_fuel(valid_utf8, 2);
    reveal_with_fuel(decode_utf8, 2);
    assert(pop_first_scalar(unit).len() == 0);
    assert(decode_utf8(unit) =~= seq![decode_first_scalar(unit) as char]);
}

/// Decodes `unit` as one encoded scalar. `None` says that it is not one:
/// malformed, overlong, a surrogate, too short or too long for its lead.
pub fn decode_unit(unit: &[u8]) -> (scalar: Option<char>)
    ensures
        scalar == unit_scalar(unit@),
{
    if unit.len() == 0 {
        return None;
    }
    if utf8_char_width(unit[0]) != unit.len() {
        proof {
            if valid_first_scalar(unit@) {
                lemma_valid_scalar_width(unit@);
            }
        }
        return None;
    }
    match from_utf8(unit) {
        Some(text) => {
            proof {
                lemma_valid_scalar_width(unit@);
                lemma_unit_is_valid_utf8(unit@);
                encode_utf8_decode_utf8(text@);
            }
            Some(text.get_char(0))
        },
        None => {
            proof {
                if valid_first_scalar(unit@) && length_of_first_scalar(unit@) == unit@.len() {
                    lemma_unit_is_valid_utf8(unit@);
                }
            }
            None
        },
    }
}

} // verus!
