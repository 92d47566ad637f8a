//! Pulling a labelled value out of a block of `Label: value` lines.
use vstd::prelude::*;
use crate::text::{
    chars_of, contains, lemma_find_from_none, matches_at, opt_view, slice_of, string_of, trim,
    trim_chars,
};

verus! {

/// End of the line that starts at `i`: the first `'\n'` at or after `i`, or the length.
pub open spec fn line_end(s: Seq<char>, i: int) -> int
    decreases s.len() - i,
{
    if i < 0 || i >= s.len() {
        s.len() as int
    } else if s[i] == '\n' {
        i
    } else {
        line_end(s, i + 1)
    }
}

/// `l` without one trailing `'\r'`.
pub open spec fn strip_cr(l: Seq<char>) -> Seq<char> {
    if l.len() > 0 && l.last() == '\r' {
        l.drop_last()
    } else {
        l
    }
}

/// The line of `s` from `i` to its end `e`, as `str::lines` yields it: a `'\r'`
/// just before the `'\n'` that ends it is dropped; the last line, with no
/// `'\n'` after it, is kept whole.
pub open spec fn line_text(s: Seq<char>, i: int, e: int) -> Seq<char> {
    if e < s.len() {
        strip_cr(s.subrange(i, e))
    } else {
        s.subrange(i, e)
    }
}

/// The value of the first line at or after line start `i` that begins with `key`:
/// the rest of that line, trimmed.
pub open spec fn field_from(s: Seq<char>, key: Seq<char>, i: int) -> Option<Seq<char>>
    decreases s.len() + 1 - i,
{
    if i < 0 || i >= s.len() {
        None
    } else {
        let e = line_end(s, i);
        if e < i || e > s.len() {
            None
        } else {
            let line = line_text(s, i, e);
            if key.is_prefix_of(line) {
                Some(trim(line.subrange(key.len() as int, line.len() as int)))
            } else {
                field_from(s, key, e + 1)
            }
        }
    }
}

/// The value that `key` labels in `section`, if any line carries it.
pub open spec fn field_value(section: Seq<char>, key: Seq<char>) -> Option<Seq<char>> {
    field_from(section, key, 0)
}

proof fn lemma_line_end_bounds(s: Seq<char>, i: int)
    requires
        0 <= i <= s.len(),
    ensures
        i <= line_end(s, i) <= s.len(),
        line_end(s, i) < s.len() ==> s[line_end(s, i)] == '\n',
        forall|k: int| i <= k < line_end(s, i) ==> s[k] != '\n',
    decreases s.len() - i,
{
    if i < s.len() && s[i] != '\n' {
        lemma_line_end_bounds(s, i + 1);
    }
}

fn line_end_exec(s: &Vec<char>, i: usize) -> (r: usize)
    requires
        i <= s@.len(),
    ensures
        r as int == line_end(s@, i as int),
{
    let mut k: usize = i;
    while k < s.len() && s[k] != '\n'
        invariant
            i <= k <= s@.len(),
            line_end(s@, i as int) == line_end(s@, k as int),
        decreases s@.len() - k,
    {
        k += 1;
    }
    k
}

fn starts_with_at(s: &Vec<char>, lo: usize, hi: usize, key: &Vec<char>) -> (r: bool)
    requires
        lo <= hi <= s@.len(),
    ensures
        r == key@.is_prefix_of(s@.subrange(lo as int, hi as int)),
{
    if key.len() > hi - lo {
        return false;
    }
    let mut j: usize = 0;
    while j < key.len()
        invariant
            lo + key@.len() <= hi <= s@.len(),
            j <= key@.len(),
            forall|m: int| 0 <= m < j ==> key@[m] == s@[lo + m],
        decreases key@.len() - j,
    {
        if s[lo + j] != key[j] {
            return false;
        }
        j += 1;
    }
    true
}

proof fn lemma_absent_label_from(s: Seq<char>, key: Seq<char>, i: int)
    requires
        0 <= i,
        forall|k: int| 0 <= k ==> !matches_at(s, key, k),
    ensures
        field_from(s, key, i) is None,
    decreases s.len() + 1 - i,
{
    if i < s.len() {
        let e = line_end(s, i);
        lemma_line_end_bounds(s, i);
        let line = line_text(s, i, e);
        if key.is_prefix_of(line) {
            assert(s.subrange(i, i + key.len()) =~= key);
            assert(matches_at(s, key, i));
        }
        lemma_absent_label_from(s, key, e + 1);
    }
}

/// A label that occurs nowhere in a section labels no value: extraction gives
/// `None`, which is no error.
pub proof fn lemma_absent_label(section: Seq<char>, key: Seq<char>)
    requires
        !contains(section, key),
    ensures
        field_value(section, key) is None,
{
    assert forall|k: int| 0 <= k implies !matches_at(section, key, k) by {
        lemma_find_from_none(section, key, 0, k);
    }
    lemma_absent_label_from(section, key, 0);
}

/// The value that `k` labels in `s`, on characters.
pub fn field_chars(s: &Vec<char>, k: &Vec<char>) -> (r: Option<Vec<char>>)
    ensures
        match r {
            Some(v) => field_value(s@, k@) == Some(v@),
            None => field_value(s@, k@) is None,
        },
{
    let mut i: usize = 0;
    while i < s.len()
        invariant
            i <= s@.len(),
            field_value(s@, k@) == field_from(s@, k@, i as int),
        decreases s@.len() - i,
    {
        let e = line_end_exec(s, i);
        proof {
            lemma_line_end_bounds(s@, i as int);
        }
        let mut hi = e;
        if e < s.len() && hi > i && s[hi - 1] == '\r' {
            hi -= 1;
        }
        assert(s@.subrange(i as int, hi as int) =~= line_text(s@, i as int, e as int));
        if starts_with_at(s, i, hi, k) {
            let v = slice_of(s, i + k.len(), hi);
            assert(v@ =~= line_text(s@, i as int, e as int).subrange(
                k@.len() as int,
                (hi - i) as int,
            ));
            return Some(trim_chars(&v));
        }
        if e == s.len() {
            assert(field_from(s@, k@, e + 1) is None);
            return None;
        }
        i = e + 1;
    }
    None
}

/// The trimmed remainder of the first line of `section` that starts with `key`;
/// `None` when no line does.
pub fn extract_field(section: &str, key: &str) -> (r: Option<String>)
    ensures
        opt_view(r) == field_value(section@, key@),
{
    let s = chars_of(section);
    let k = chars_of(key);
    match field_chars(&s, &k) {
        Some(v) => Some(string_of(v.as_slice())),
        None => None,
    }
}

} // verus!
