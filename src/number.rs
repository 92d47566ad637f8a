//! Reading a signed 32-bit decimal integer, as `str::parse::<i32>` does.
use vstd::prelude::*;

verus! {

pub open spec fn is_digit(c: char) -> bool {
    48 <= (c as u32) && (c as u32) <= 57
}

pub open spec fn digit_value(c: char) -> int {
    (c as u32) as int - 48
}

/// The value of a string of decimal digits.
pub open spec fn digits_value(d: Seq<char>) -> int
    decreases d.len(),
{
    if d.len() == 0 {
        0
    } else {
        digits_value(d.drop_last()) * 10 + digit_value(d.last())
    }
}

pub open spec fn all_digits(d: Seq<char>) -> bool {
    forall|i: int| 0 <= i < d.len() ==> is_digit(#[trigger] d[i])
}

/// `s` without its sign, if it has one.
pub open spec fn digits_part(s: Seq<char>) -> Seq<char> {
    if s.len() > 0 && (s[0] == '-' || s[0] == '+') {
        s.subrange(1, s.len() as int)
    } else {
        s
    }
}

/// The integer that `s` spells: an optional `+` or `-`, then one or more
/// ASCII digits, with the value in the range of `i32`.
pub open spec fn decimal_value(s: Seq<char>) -> Option<int> {
    let d = digits_part(s);
    if d.len() == 0 || !all_digits(d) {
        None
    } else {
        let v = if s[0] == '-' {
            -digits_value(d)
        } else {
            digits_value(d)
        };
        if i32::MIN <= v <= i32::MAX {
            Some(v)
        } else {
            None
        }
    }
}

proof fn lemma_digits_prefix(d: Seq<char>, k: int)
    requires
        all_digits(d),
        0 <= k <= d.len(),
    ensures
        0 <= digits_value(d.subrange(0, k)) <= digits_value(d),
    decreases d.len(),
{
    if k < d.len() {
        let dl = d.drop_last();
        assert(dl.subrange(0, k) =~= d.subrange(0, k));
        assert(all_digits(dl)) by {
            assert forall|i: int| 0 <= i < dl.len() implies is_digit(#[trigger] dl[i]) by {
                assert(dl[i] == d[i]);
            }
        }
        lemma_digits_prefix(dl, k);
        assert(is_digit(d[d.len() - 1]));
    } else {
        assert(d.subrange(0, k) =~= d);
        lemma_digits_nonneg(d);
    }
}

proof fn lemma_digits_nonneg(d: Seq<char>)
    requires
        all_digits(d),
    ensures
        digits_value(d) >= 0,
    decreases d.len(),
{
    if d.len() > 0 {
        let dl = d.drop_last();
        assert(all_digits(dl)) by {
            assert forall|i: int| 0 <= i < dl.len() implies is_digit(#[trigger] dl[i]) by {
                assert(dl[i] == d[i]);
            }
        }
        lemma_digits_nonneg(dl);
        assert(is_digit(d[d.len() - 1]));
    }
}

/// The `i32` that `s` spells, or `None`.
pub fn parse_i32(s: &Vec<char>) -> (r: Option<i32>)
    ensures
        match r {
            Some(v) => decimal_value(s@) == Some(v as int),
            None => decimal_value(s@) is None,
        },
{
    let signed = s.len() > 0 && (s[0] == '-' || s[0] == '+');
    let start: usize = if signed {
        1
    } else {
        0
    };
    let ghost d = s@.subrange(start as int, s@.len() as int);
    assert(d =~= digits_part(s@));
    if start >= s.len() {
        return None;
    }
    let mut acc: i64 = 0;
    let mut k: usize = start;
    while k < s.len()
        invariant
            start <= k <= s@.len(),
            d == s@.subrange(start as int, s@.len() as int),
            d == digits_part(s@),
            forall|i: int| 0 <= i < k - start ==> is_digit(#[trigger] d[i]),
            acc == digits_value(d.subrange(0, k - start)),
            0 <= acc <= 2147483648,
            s@.len() > 0,
        decreases s@.len() - k,
    {
        let u = s[k] as u32;
        assert(u == s@[k as int] as u32);
        assert(d[k - start] == s@[k as int]);
        if !(48 <= u && u <= 57) {
            assert(!all_digits(d));
            return None;
        }
        assert(d.subrange(0, k + 1 - start).drop_last() =~= d.subrange(0, k - start));
        acc = acc * 10 + (u - 48) as i64;
        k += 1;
        if acc > 2147483648 {
            assert forall|i: int| 0 <= i < k - start implies is_digit(#[trigger] d[i]) by {}
            // the remaining characters either break the digit run or only add to the value
            let mut m: usize = k;
            while m < s.len()
                invariant
                    start <= k <= m <= s@.len(),
                    d == s@.subrange(start as int, s@.len() as int),
                    d == digits_part(s@),
                    forall|i: int| 0 <= i < m - start ==> is_digit(#[trigger] d[i]),
                decreases s@.len() - m,
            {
                let u2 = s[m] as u32;
                assert(d[m - start] == s@[m as int]);
                if !(48 <= u2 && u2 <= 57) {
                    assert(!all_digits(d));
                    return None;
                }
                m += 1;
            }
            proof {
                assert(all_digits(d));
                lemma_digits_prefix(d, k - start);
            }
            return None;
        }
    }
    assert(d.subrange(0, k - start) =~= d);
    if s[0] == '-' {
        Some((-acc) as i32)
    } else if acc > 2147483647 {
        None
    } else {
        Some(acc as i32)
    }
}

} // verus!
