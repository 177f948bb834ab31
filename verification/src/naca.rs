use vstd::prelude::*;
use vstd::string::*;
use vstd::utf8::encode_utf8;
use crate::ascii::{digit_value, is_digit};
use crate::error::GeometryError;

verus! {

/// The three parameters that a four-digit section code spells out, as the
/// integers written in the code. The chord fractions follow by division:
/// `camber / 100`, `position / 10`, `thickness / 100`.
#[derive(Debug, Clone, Copy, PartialEq, Eq, Structural)]
pub struct NacaDigits {
    /// Maximum camber, in hundredths of the chord (first digit).
    pub camber: u8,
    /// Position of the maximum camber, in tenths of the chord (second digit).
    pub position: u8,
    /// Maximum thickness, in hundredths of the chord (last two digits).
    pub thickness: u8,
}

/// A validated request for an analytic section: what the shape formulas need.
#[derive(Debug)]
pub struct NacaSection {
    /// `"NACA_"` followed by the code.
    pub name: String,
    pub digits: NacaDigits,
    /// Number of chordwise samples.
    pub samples: u32,
}

/// A code is valid when it is exactly four ASCII digits.
pub open spec fn valid_code(code: Seq<u8>) -> bool {
    &&& code.len() == 4
    &&& is_digit(code[0])
    &&& is_digit(code[1])
    &&& is_digit(code[2])
    &&& is_digit(code[3])
}

pub open spec fn code_camber(code: Seq<u8>) -> int {
    digit_value(code[0])
}

pub open spec fn code_position(code: Seq<u8>) -> int {
    digit_value(code[1])
}

pub open spec fn code_thickness(code: Seq<u8>) -> int {
    10 * digit_value(code[2]) + digit_value(code[3])
}

/// The prefix of every generated section's name.
pub open spec fn name_prefix() -> Seq<char> {
    seq!['N', 'A', 'C', 'A', '_']
}

impl NacaDigits {
    /// The digits are within what a four-digit code can spell.
    pub open spec fn wf(&self) -> bool {
        &&& self.camber <= 9
        &&& self.position <= 9
        &&& self.thickness <= 99
    }

    /// The section has a mean line of its own. Without camber, or with the
    /// camber placed at the leading edge, the mean line is the chord itself
    /// and the section is symmetric about it.
    pub open spec fn cambered(&self) -> bool {
        self.camber != 0 && self.position != 0
    }

    /// Whether the camber formulas apply; where they do not, every ordinate of
    /// the mean line is zero.
    pub fn is_cambered(&self) -> (b: bool)
        ensures
            b == self.cambered(),
    {
        self.camber != 0 && self.position != 0
    }
}

fn digit_at(bytes: &[u8], i: usize) -> (d: Option<u8>)
    requires
        i < bytes@.len(),
    ensures
        is_digit(bytes@[i as int]) ==> d == Some(digit_value(bytes@[i as int]) as u8),
        !is_digit(bytes@[i as int]) ==> d.is_none(),
{
    let b: u8 = bytes[i];
    if 0x30 <= b && b <= 0x39 {
        Some(b - 0x30)
    } else {
        None
    }
}

/// Reads a four-digit section code. Succeeds exactly on four ASCII digits;
/// anything else is an `InvalidSpecification`.
pub fn parse_naca4(digit: &str) -> (res: Result<NacaDigits, GeometryError>)
    ensures
        valid_code(digit.spec_bytes()) ==> res.is_ok() && res.unwrap().wf()
            && res.unwrap().camber == code_camber(digit.spec_bytes())
            && res.unwrap().position == code_position(digit.spec_bytes())
            && res.unwrap().thickness == code_thickness(digit.spec_bytes()),
        !valid_code(digit.spec_bytes()) ==> res == Err::<NacaDigits, GeometryError>(
            GeometryError::InvalidSpecification,
        ),
{
    let bytes = digit.as_bytes();
    if bytes.len() != 4 {
        return Err(GeometryError::InvalidSpecification);
    }
    match (digit_at(bytes, 0), digit_at(bytes, 1), digit_at(bytes, 2), digit_at(bytes, 3)) {
        (Some(m), Some(p), Some(t1), Some(t0)) => Ok(
            NacaDigits { camber: m, position: p, thickness: 10 * t1 + t0 },
        ),
        _ => Err(GeometryError::InvalidSpecification),
    }
}

/// Calls std's `format!` with the pattern `"NACA_{}"` and a string argument.
/// Taken on trust: the result is the five characters of the prefix followed
/// by the argument's characters, unchanged.
#[verifier::external_body]
fn prefixed_name(code: &str) -> (name: String)
    ensures
        name@ == name_prefix() + code@,
{
    format!("NACA_{}", code)
}

/// Validates the request for a four-digit section with `n` chordwise samples
/// and names it. No section is made of a malformed code.
pub fn generate_naca_4(digit: String, n: u32) -> (res: Result<NacaSection, GeometryError>)
    ensures
        valid_code(encode_utf8(digit@)) ==> res.is_ok() && res.unwrap().digits.wf()
            && res.unwrap().name@ == name_prefix() + digit@
            && res.unwrap().samples == n
            && res.unwrap().digits.camber == code_camber(encode_utf8(digit@))
            && res.unwrap().digits.position == code_position(encode_utf8(digit@))
            && res.unwrap().digits.thickness == code_thickness(encode_utf8(digit@)),
        !valid_code(encode_utf8(digit@)) ==> res.is_err() && res.unwrap_err()
            == GeometryError::InvalidSpecification,
{
    match parse_naca4(digit.as_str()) {
        Ok(digits) => {
            let name = prefixed_name(digit.as_str());
            Ok(NacaSection { name, digits, samples: n })
        },
        Err(e) => Err(e),
    }
}

} // verus!
