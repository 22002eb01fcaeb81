use vstd::prelude::*;

verus! {

/// The value of a string of decimal digits.
pub open spec fn digits_value(d: Seq<char>) -> int
    decreases d.len(),
{
    if d.len() == 0 {
        0
    } else {
        digits_value(d.drop_last()) * 10 + (d.last() as int - '0' as int)
    }
}

/// A non-empty string of decimal digits.
pub open spec fn is_digits(d: Seq<char>) -> bool {
    d.len() > 0 && forall|i: int| 0 <= i < d.len() ==> '0' <= #[trigger] d[i] <= '9'
}

/// The number a decimal numeral writes: digits after an optional `+`, whose
/// value fits in a `u32`.
pub open spec fn decimal_u32(s: Seq<char>) -> Option<u32> {
    let d = if s.len() > 0 && s[0] == '+' {
        s.drop_first()
    } else {
        s
    };
    if is_digits(d) && digits_value(d) <= u32::MAX {
        Some(digits_value(d) as u32)
    } else {
        None
    }
}

/// Relies on `<u32 as FromStr>::from_str` (radix 10): it accepts exactly an
/// optional `+` followed by at least one ASCII digit, with a value that fits.
#[verifier::external_body]
fn parse_u32(s: &str) -> (r: Option<u32>)
    ensures
        r == decimal_u32(s@),
{
    s.parse::<u32>().ok()
}

/// Decodes a width: a decimal number that is not zero.
pub fn parse_width(s: &str) -> (r: Result<u32, String>)
    ensures
        match decimal_u32(s@) {
            None => r matches Err(m) && m@ == "not a number"@,
            Some(w) => if w == 0 {
                r matches Err(m) && m@ == "width must be positive"@
            } else {
                r matches Ok(v) && v == w
            },
        },
{
    let w = match parse_u32(s) {
        Some(w) => w,
        None => return Err("not a number".to_owned()),
    };
    if w != 0 {
        Ok(w)
    } else {
        Err("width must be positive".to_owned())
    }
}

/// Checks that a text is a width: a decimal number that is not zero.
pub fn is_width(s: String) -> (r: Result<(), String>)
    ensures
        match decimal_u32(s@) {
            None => r matches Err(m) && m@ == "not a number"@,
            Some(w) => if w == 0 {
                r matches Err(m) && m@ == "width must be positive"@
            } else {
                r is Ok
            },
        },
{
    let w = match parse_u32(s.as_str()) {
        Some(w) => w,
        None => return Err("not a number".to_owned()),
    };
    if w != 0 {
        Ok(())
    } else {
        Err("width must be positive".to_owned())
    }
}

} // verus!
