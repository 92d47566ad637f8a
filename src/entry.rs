//! Birth dates as typed at a prompt: `DD/MM/YYYY`, stored as `YYYY-MM-DD`.
use vstd::prelude::*;
use crate::text::{chars_of, slice_of, string_of};

verus! {

/// Whether the regex class `\d` (a Unicode decimal digit) accepts `c`.
pub uninterp spec fn decimal_digit(c: char) -> bool;

/// Relies on `regex::Regex::is_match` with the pattern `^\d$`: whether `c` is in
/// the class `\d`, Unicode's decimal digits (general category Nd), which
/// includes the ASCII digits. The pattern is a valid constant, so
/// `Regex::new` does not fail on it.
#[verifier::external_body]
fn is_decimal_digit(c: char) -> (r: bool)
    ensures
        r == decimal_digit(c),
        48 <= (c as u32) <= 57 ==> r,
{
    let mut buf = [0u8; 4];
    regex::Regex::new(r"^\d$").unwrap().is_match(c.encode_utf8(&mut buf))
}

/// A digit of a typed date: an ASCII digit or any other character of `\d`.
pub open spec fn date_digit(c: char) -> bool {
    (48 <= (c as u32) <= 57) || decimal_digit(c)
}

/// Whether `s` is a typed birth date: two digits, `/`, two digits, `/`, four digits.
pub open spec fn dmy_shape(s: Seq<char>) -> bool {
    &&& s.len() == 10
    &&& s[2] == '/'
    &&& s[5] == '/'
    &&& forall|k: int| 0 <= k < 10 && k != 2 && k != 5 ==> date_digit(#[trigger] s[k])
}

/// The stored form of a typed birth date `DD/MM/YYYY`: `YYYY-MM-DD`.
pub open spec fn iso_of_dmy(s: Seq<char>) -> Seq<char> {
    s.subrange(6, 10) + seq!['-'] + s.subrange(3, 5) + seq!['-'] + s.subrange(0, 2)
}

/// The stored form of a typed birth date, or `None` where the text is not
/// `DD/MM/YYYY`.
pub fn birth_input_to_iso(s: &str) -> (r: Option<String>)
    ensures
        r is Some <==> dmy_shape(s@),
        match r {
            Some(t) => t@ == iso_of_dmy(s@),
            None => true,
        },
{
    let v = chars_of(s);
    if v.len() != 10 || v[2] != '/' || v[5] != '/' {
        return None;
    }
    let mut k: usize = 0;
    while k < 10
        invariant
            v@ == s@,
            v@.len() == 10,
            k <= 10,
            forall|j: int| 0 <= j < k && j != 2 && j != 5 ==> date_digit(#[trigger] v@[j]),
        decreases 10 - k,
    {
        if k != 2 && k != 5 && !is_decimal_digit(v[k]) {
            return None;
        }
        k += 1;
    }
    let mut out = slice_of(&v, 6, 10);
    out.push('-');
    let mut m = slice_of(&v, 3, 5);
    out.append(&mut m);
    out.push('-');
    let mut d = slice_of(&v, 0, 2);
    out.append(&mut d);
    assert(out@ =~= iso_of_dmy(v@));
    Some(string_of(out.as_slice()))
}

} // verus!
