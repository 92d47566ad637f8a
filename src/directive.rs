//! The medication command language of treatment plans.
//!
//! A plan is split on `;`; each trimmed piece that starts with `!` is a
//! directive, in one of two forms:
//! `!ACTION [MEDICATION] [DOSAGE]` (the dosage bracket optional), or
//! `!ACTION MEDICATION REST`, where REST, if any, is the dosage.
use vstd::prelude::*;
use crate::text::{
    char_index, char_index_exec, chars_of, skip_space, skip_space_exec, slice_of, space_index,
    space_index_exec, string_of, trim, trim_chars,
};

verus! {

/// What `regex_syntax::is_word_character` says of a character (the `\w` class).
pub uninterp spec fn unicode_word(c: char) -> bool;

/// What `str::to_uppercase` returns for a text.
pub uninterp spec fn upper_of(s: Seq<char>) -> Seq<char>;

/// Relies on `regex_syntax::is_word_character`: Unicode word characters
/// (Alphabetic, Join_Control, Decimal_Number, Mark, Connector_Punctuation).
/// It panics only without the crate's `unicode-perl` feature, which is on by default.
#[verifier::external_body]
fn is_word_char(c: char) -> (r: bool)
    ensures
        r == unicode_word(c),
{
    regex_syntax::is_word_character(c)
}

/// Relies on `str::to_uppercase`: the upper-case form of a text.
#[verifier::external_body]
fn uppercase(s: &str) -> (r: String)
    ensures
        r@ == upper_of(s@),
{
    s.to_uppercase()
}

/// A view of a directive: action (upper-cased), medication, dosage.
pub type DirectiveView = (Seq<char>, Seq<char>, Seq<char>);

/// One medication directive of a treatment plan.
pub struct Directive {
    pub action: String,
    pub medication: String,
    pub dosage: String,
}

impl View for Directive {
    type V = DirectiveView;

    open spec fn view(&self) -> DirectiveView {
        (self.action@, self.medication@, self.dosage@)
    }
}

pub open spec fn directives_view(v: Seq<Directive>) -> Seq<DirectiveView> {
    v.map_values(|d: Directive| d@)
}

/// The first index at or after `i` that does not hold a word character.
pub open spec fn word_end(s: Seq<char>, i: int) -> int
    decreases s.len() - i,
{
    if i < 0 || i >= s.len() {
        s.len() as int
    } else if unicode_word(s[i]) {
        word_end(s, i + 1)
    } else {
        i
    }
}

proof fn lemma_word_end_bounds(s: Seq<char>, i: int)
    requires
        0 <= i <= s.len(),
    ensures
        i <= word_end(s, i) <= s.len(),
    decreases s.len() - i,
{
    if i < s.len() && unicode_word(s[i]) {
        lemma_word_end_bounds(s, i + 1);
    }
}

/// A bracket `[TEXT]` opening at `a`: the end of TEXT (the closing bracket's
/// index), where TEXT is not empty and holds no `]`.
pub open spec fn bracket_close(seg: Seq<char>, a: int) -> Option<int> {
    if 0 <= a < seg.len() && seg[a] == '[' {
        let c = char_index(seg, ']', a + 1);
        if a + 1 < c < seg.len() {
            Some(c)
        } else {
            None
        }
    } else {
        None
    }
}

/// The directive that a segment `seg` (trimmed, starting with `!`) holds, with
/// its action as written.
pub open spec fn raw_directive(seg: Seq<char>) -> Option<DirectiveView> {
    let w = word_end(seg, 1);
    if w <= 1 {
        None
    } else {
        let action = seg.subrange(1, w);
        let a = skip_space(seg, w);
        match bracket_close(seg, a) {
            Some(c) => {
                let med = seg.subrange(a + 1, c);
                let b = skip_space(seg, c + 1);
                let dosage = match bracket_close(seg, b) {
                    Some(c2) => seg.subrange(b + 1, c2),
                    None => Seq::empty(),
                };
                Some((action, med, dosage))
            },
            None => {
                if a >= seg.len() {
                    None
                } else {
                    let m = space_index(seg, a);
                    let dosage = if m < seg.len() {
                        seg.subrange(skip_space(seg, m), seg.len() as int)
                    } else {
                        Seq::empty()
                    };
                    Some((action, seg.subrange(a, m), dosage))
                }
            },
        }
    }
}

/// The directive of a segment of a plan, with the action upper-cased; `None` for
/// prose and for segments that match neither form.
pub open spec fn segment_directive(piece: Seq<char>) -> Option<DirectiveView> {
    let seg = trim(piece);
    if seg.len() > 0 && seg[0] == '!' {
        match raw_directive(seg) {
            Some(d) => Some((upper_of(d.0), d.1, d.2)),
            None => None,
        }
    } else {
        None
    }
}

/// The directives of the segments of `plan` from index `i` on, in order.
pub open spec fn plan_directives_from(plan: Seq<char>, i: int) -> Seq<DirectiveView>
    decreases plan.len() + 1 - i,
{
    if i < 0 || i >= plan.len() {
        Seq::empty()
    } else {
        let e = char_index(plan, ';', i);
        if e < i || e > plan.len() {
            Seq::empty()
        } else {
            let rest = plan_directives_from(plan, e + 1);
            match segment_directive(plan.subrange(i, e)) {
                Some(d) => seq![d] + rest,
                None => rest,
            }
        }
    }
}

/// The directives of a treatment plan, in source order.
pub open spec fn plan_directives(plan: Seq<char>) -> Seq<DirectiveView> {
    plan_directives_from(plan, 0)
}

fn word_end_exec(s: &Vec<char>, i: usize) -> (r: usize)
    requires
        i <= s@.len(),
    ensures
        r as int == word_end(s@, i as int),
        i <= r <= s@.len(),
{
    proof {
        lemma_word_end_bounds(s@, i as int);
    }
    let mut k: usize = i;
    while k < s.len() && is_word_char(s[k])
        invariant
            i <= k <= s@.len(),
            word_end(s@, i as int) == word_end(s@, k as int),
        decreases s@.len() - k,
    {
        k += 1;
    }
    k
}

fn bracket_close_exec(seg: &Vec<char>, a: usize) -> (r: Option<usize>)
    requires
        a <= seg@.len(),
    ensures
        match r {
            Some(c) => bracket_close(seg@, a as int) == Some(c as int),
            None => bracket_close(seg@, a as int) is None,
        },
{
    if a < seg.len() && seg[a] == '[' {
        let c = char_index_exec(seg, ']', a + 1);
        if a + 1 < c && c < seg.len() {
            Some(c)
        } else {
            None
        }
    } else {
        None
    }
}

fn raw_directive_exec(seg: &Vec<char>) -> (r: Option<(Vec<char>, Vec<char>, Vec<char>)>)
    requires
        seg@.len() > 0,
    ensures
        match r {
            Some(d) => raw_directive(seg@) == Some((d.0@, d.1@, d.2@)),
            None => raw_directive(seg@) is None,
        },
{
    let w = word_end_exec(seg, 1);
    if w <= 1 {
        return None;
    }
    let action = slice_of(seg, 1, w);
    let a = skip_space_exec(seg, w);
    match bracket_close_exec(seg, a) {
        Some(c) => {
            assert(c < seg.len());
            let med = slice_of(seg, a + 1, c);
            let b = skip_space_exec(seg, c + 1);
            let dosage = match bracket_close_exec(seg, b) {
                Some(c2) => slice_of(seg, b + 1, c2),
                None => Vec::new(),
            };
            Some((action, med, dosage))
        },
        None => {
            if a >= seg.len() {
                return None;
            }
            let m = space_index_exec(seg, a);
            let dosage = if m < seg.len() {
                let d0 = skip_space_exec(seg, m);
                slice_of(seg, d0, seg.len())
            } else {
                Vec::new()
            };
            Some((action, slice_of(seg, a, m), dosage))
        },
    }
}

fn segment_directive_exec(piece: &Vec<char>) -> (r: Option<Directive>)
    ensures
        match r {
            Some(d) => segment_directive(piece@) == Some(d@),
            None => segment_directive(piece@) is None,
        },
{
    let seg = trim_chars(piece);
    if seg.len() > 0 && seg[0] == '!' {
        match raw_directive_exec(&seg) {
            Some(d) => Some(
                Directive {
                    action: uppercase(string_of(d.0.as_slice()).as_str()),
                    medication: string_of(d.1.as_slice()),
                    dosage: string_of(d.2.as_slice()),
                },
            ),
            None => None,
        }
    } else {
        None
    }
}

/// The directives of a treatment plan, in source order.
pub fn parse_directives(plan: &str) -> (r: Vec<Directive>)
    ensures
        directives_view(r@) == plan_directives(plan@),
{
    let s = chars_of(plan);
    let mut out: Vec<Directive> = Vec::new();
    let mut i: usize = 0;
    while i < s.len()
        invariant
            s@ == plan@,
            i <= s@.len(),
            directives_view(out@) + plan_directives_from(s@, i as int) == plan_directives(plan@),
        decreases s@.len() - i,
    {
        let e = char_index_exec(&s, ';', i);
        let piece = slice_of(&s, i, e);
        let ghost before = out@;
        match segment_directive_exec(&piece) {
            Some(d) => {
                out.push(d);
                assert(directives_view(out@) =~= directives_view(before) + seq![d@]);
            },
            None => {},
        }
        assert(directives_view(out@) + plan_directives_from(s@, e + 1) =~= directives_view(before)
            + plan_directives_from(s@, i as int));
        if e == s.len() {
            assert(plan_directives_from(s@, e + 1) =~= Seq::<DirectiveView>::empty());
            assert(directives_view(out@) =~= directives_view(out@) + plan_directives_from(s@, e + 1));
            return out;
        }
        i = e + 1;
    }
    assert(directives_view(out@) =~= directives_view(out@) + plan_directives_from(s@, i as int));
    out
}

} // verus!
