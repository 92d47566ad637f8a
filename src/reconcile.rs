//! Reconciliation: each patient's active medications, from that patient's
//! consultations replayed in chronological order.
//!
//! Timestamps are ordered as plain text, character by character. That order is
//! chronological only where every timestamp has the same fixed-width layout
//! (ISO-8601 with one precision, say). Each result says whether the patient's
//! timestamps share one width, so that callers can flag mixed layouts.
use vstd::prelude::*;
use crate::directive::{parse_directives, plan_directives};
use crate::record::{Consultation, Patient};
use crate::replay::{
    entries_view, keys_unique, lemma_replay_keeps_keys_unique, replay, replay_directives, Entry,
    Medication,
};
use crate::number::is_digit;
use crate::text::chars_of;
use vstd::multiset::Multiset;

verus! {

/// Text order from index `i` on: `a` sorts strictly before `b`.
pub open spec fn text_lt_from(a: Seq<char>, b: Seq<char>, i: int) -> bool
    decreases a.len() - i,
{
    if i < 0 || i >= a.len() {
        i < b.len()
    } else if i >= b.len() {
        false
    } else if (a[i] as u32) < (b[i] as u32) {
        true
    } else if a[i] == b[i] {
        text_lt_from(a, b, i + 1)
    } else {
        false
    }
}

/// `a` sorts strictly before `b`, as `str`'s order has it.
pub open spec fn text_lt(a: Seq<char>, b: Seq<char>) -> bool {
    text_lt_from(a, b, 0)
}

/// Whether `a` sorts strictly before `b`.
pub fn text_less(a: &str, b: &str) -> (r: bool)
    ensures
        r == text_lt(a@, b@),
{
    let x = chars_of(a);
    let y = chars_of(b);
    let mut i: usize = 0;
    while i < x.len() && i < y.len() && x[i] == y[i]
        invariant
            x@ == a@,
            y@ == b@,
            i <= x@.len(),
            text_lt(a@, b@) == text_lt_from(a@, b@, i as int),
        decreases x@.len() - i,
    {
        i += 1;
    }
    if i >= x.len() {
        i < y.len()
    } else if i >= y.len() {
        false
    } else {
        (x[i] as u32) < (y[i] as u32)
    }
}

proof fn lemma_text_lt_asym(a: Seq<char>, b: Seq<char>, i: int)
    requires
        0 <= i,
        text_lt_from(a, b, i),
    ensures
        !text_lt_from(b, a, i),
    decreases a.len() - i,
{
    if i < a.len() && i < b.len() && a[i] == b[i] {
        lemma_text_lt_asym(a, b, i + 1);
    }
}

proof fn lemma_text_lt_trans(a: Seq<char>, b: Seq<char>, c: Seq<char>, i: int)
    requires
        0 <= i,
        text_lt_from(a, b, i),
        text_lt_from(b, c, i),
    ensures
        text_lt_from(a, c, i),
    decreases a.len() - i,
{
    if i < a.len() && i < b.len() && i < c.len() && a[i] == b[i] && b[i] == c[i] {
        lemma_text_lt_trans(a, b, c, i + 1);
    }
}

/// Whether the timestamps of `s` never decrease in text order.
pub open spec fn in_time_order(s: Seq<Consultation>) -> bool {
    forall|i: int, j: int|
        0 <= i < j < s.len() ==> !text_lt(
            (#[trigger] s[j]).timestamp@,
            (#[trigger] s[i]).timestamp@,
        )
}

/// The consultations of patient `id`, in the order given.
pub open spec fn of_patient(cs: Seq<Consultation>, id: Seq<char>) -> Seq<Consultation>
    decreases cs.len(),
{
    if cs.len() == 0 {
        Seq::empty()
    } else {
        let r = of_patient(cs.drop_last(), id);
        if cs.last().patient.id@ == id {
            r.push(cs.last())
        } else {
            r
        }
    }
}

/// Where `c` goes in `sorted`: after every consultation not later than it.
pub open spec fn insert_pos(sorted: Seq<Consultation>, c: Consultation, i: int) -> int
    decreases sorted.len() - i,
{
    if i < 0 || i >= sorted.len() {
        sorted.len() as int
    } else if text_lt(c.timestamp@, sorted[i].timestamp@) {
        i
    } else {
        insert_pos(sorted, c, i + 1)
    }
}

/// `h` ordered by timestamp; equal timestamps keep their order (a stable sort).
pub open spec fn chronological(h: Seq<Consultation>) -> Seq<Consultation>
    decreases h.len(),
{
    if h.len() == 0 {
        Seq::empty()
    } else {
        let s = chronological(h.drop_last());
        s.insert(insert_pos(s, h.last(), 0), h.last())
    }
}

proof fn lemma_insert_pos_spec(sorted: Seq<Consultation>, c: Consultation, i: int)
    requires
        0 <= i <= sorted.len(),
    ensures
        i <= insert_pos(sorted, c, i) <= sorted.len(),
        forall|m: int|
            i <= m < insert_pos(sorted, c, i) ==> !text_lt(
                c.timestamp@,
                (#[trigger] sorted[m]).timestamp@,
            ),
        insert_pos(sorted, c, i) < sorted.len() ==> text_lt(
            c.timestamp@,
            sorted[insert_pos(sorted, c, i)].timestamp@,
        ),
    decreases sorted.len() - i,
{
    if i < sorted.len() && !text_lt(c.timestamp@, sorted[i].timestamp@) {
        lemma_insert_pos_spec(sorted, c, i + 1);
    }
}

/// Replay goes by time: the chronological order of any history holds the same
/// consultations, with timestamps that never decrease.
pub proof fn lemma_chronological_in_time_order(h: Seq<Consultation>)
    ensures
        in_time_order(chronological(h)),
        chronological(h).to_multiset() == h.to_multiset(),
        chronological(h).len() == h.len(),
    decreases h.len(),
{
    if h.len() == 0 {
        assert(chronological(h) =~= h);
    } else {
        let s = chronological(h.drop_last());
        lemma_chronological_in_time_order(h.drop_last());
        let c = h.last();
        lemma_insert_pos_spec(s, c, 0);
        let k = insert_pos(s, c, 0);
        let r = s.insert(k, c);
        assert(r == chronological(h));
        assert(h.drop_last().push(c) =~= h);
        vstd::seq_lib::to_multiset_build(h.drop_last(), c);
        vstd::seq_lib::to_multiset_insert(s, k, c);
        assert forall|i: int, j: int| 0 <= i < j < r.len() implies !text_lt(
            (#[trigger] r[j]).timestamp@,
            (#[trigger] r[i]).timestamp@,
        ) by {
            if j < k {
                assert(r[i] == s[i] && r[j] == s[j]);
            } else if j == k {
                assert(r[i] == s[i]);
            } else if i < k {
                assert(r[i] == s[i] && r[j] == s[j - 1]);
            } else if i == k {
                assert(r[j] == s[j - 1]);
                assert(text_lt(c.timestamp@, s[k].timestamp@));
                if text_lt(s[j - 1].timestamp@, c.timestamp@) {
                    if j - 1 == k {
                        lemma_text_lt_asym(s[k].timestamp@, c.timestamp@, 0);
                    } else {
                        lemma_text_lt_trans(s[j - 1].timestamp@, c.timestamp@, s[k].timestamp@, 0);
                        assert(!text_lt(s[j - 1].timestamp@, s[k].timestamp@));
                    }
                }
            } else {
                assert(r[i] == s[i - 1] && r[j] == s[j - 1]);
            }
        }
    }
}

/// The active medications after replaying the plans of `h` in order.
pub open spec fn state_after(h: Seq<Consultation>) -> Seq<Entry>
    decreases h.len(),
{
    if h.len() == 0 {
        Seq::empty()
    } else {
        replay(state_after(h.drop_last()), plan_directives(h.last().treatment_plan@))
    }
}

/// The active medications of patient `id`.
pub open spec fn patient_state(cs: Seq<Consultation>, id: Seq<char>) -> Seq<Entry> {
    state_after(chronological(of_patient(cs, id)))
}

/// The patient ids of `cs`, each once, in order of first appearance.
pub open spec fn patient_ids(cs: Seq<Consultation>) -> Seq<Seq<char>>
    decreases cs.len(),
{
    if cs.len() == 0 {
        Seq::empty()
    } else {
        let r = patient_ids(cs.drop_last());
        if r.contains(cs.last().patient.id@) {
            r
        } else {
            r.push(cs.last().patient.id@)
        }
    }
}

/// The consultations of patient `id`, in the order given.
pub fn patient_history(cs: &Vec<Consultation>, id: &String) -> (r: Vec<Consultation>)
    ensures
        r@ == of_patient(cs@, id@),
{
    let mut out: Vec<Consultation> = Vec::new();
    let mut i: usize = 0;
    while i < cs.len()
        invariant
            i <= cs@.len(),
            out@ == of_patient(cs@.subrange(0, i as int), id@),
        decreases cs@.len() - i,
    {
        assert(cs@.subrange(0, i + 1).drop_last() =~= cs@.subrange(0, i as int));
        if cs[i].patient.id == *id {
            out.push(cs[i].clone());
        }
        i += 1;
    }
    assert(cs@.subrange(0, i as int) =~= cs@);
    out
}

/// `h` in chronological order, stably.
pub fn sort_chronologically(h: &Vec<Consultation>) -> (r: Vec<Consultation>)
    ensures
        r@ == chronological(h@),
        r@.len() == h@.len(),
{
    let mut out: Vec<Consultation> = Vec::new();
    let mut i: usize = 0;
    while i < h.len()
        invariant
            i <= h@.len(),
            out@ == chronological(h@.subrange(0, i as int)),
            out@.len() == i,
        decreases h@.len() - i,
    {
        assert(h@.subrange(0, i + 1).drop_last() =~= h@.subrange(0, i as int));
        let c = h[i].clone();
        let mut k: usize = 0;
        while k < out.len() && !text_less(c.timestamp.as_str(), out[k].timestamp.as_str())
            invariant
                k <= out@.len(),
                c == h@[i as int],
                insert_pos(out@, c, 0) == insert_pos(out@, c, k as int),
            decreases out@.len() - k,
        {
            k += 1;
        }
        out.insert(k, c);
        i += 1;
    }
    assert(h@.subrange(0, i as int) =~= h@);
    out
}

/// The active medications after the plans of `h`, in order.
pub fn replay_history(h: &Vec<Consultation>) -> (r: Vec<Medication>)
    ensures
        entries_view(r@) == state_after(h@),
{
    let mut st: Vec<Medication> = Vec::new();
    assert(entries_view(st@) =~= Seq::<Entry>::empty());
    let mut i: usize = 0;
    while i < h.len()
        invariant
            i <= h@.len(),
            entries_view(st@) == state_after(h@.subrange(0, i as int)),
        decreases h@.len() - i,
    {
        assert(h@.subrange(0, i + 1).drop_last() =~= h@.subrange(0, i as int));
        let ds = parse_directives(h[i].treatment_plan.as_str());
        replay_directives(&mut st, &ds);
        i += 1;
    }
    assert(h@.subrange(0, i as int) =~= h@);
    st
}

/// Replay keeps medication names unique keys.
pub proof fn lemma_state_keys_unique(h: Seq<Consultation>)
    ensures
        keys_unique(state_after(h)),
    decreases h.len(),
{
    if h.len() > 0 {
        lemma_state_keys_unique(h.drop_last());
        lemma_replay_keeps_keys_unique(
            state_after(h.drop_last()),
            plan_directives(h.last().treatment_plan@),
        );
    }
}

/// The active medications of patient `id`: the directives of that patient's
/// consultations replayed in chronological order.
pub fn reconcile_patient(cs: &Vec<Consultation>, id: &String) -> (r: Vec<Medication>)
    ensures
        entries_view(r@) == patient_state(cs@, id@),
        keys_unique(entries_view(r@)),
{
    proof {
        lemma_state_keys_unique(chronological(of_patient(cs@, id@)));
    }
    let h = patient_history(cs, id);
    let sorted = sort_chronologically(&h);
    replay_history(&sorted)
}

/// A patient's reconciled medications, all dated from the patient's first consultation.
pub struct PatientMedications {
    pub patient: Patient,
    pub medications: Vec<Medication>,
    pub start_date: String,
    /// Whether the patient's timestamps all share one layout (digits and
    /// separators in the same places), the condition under which their text
    /// order is trusted to be chronological.
    pub uniform_timestamps: bool,
}

/// Whether `a` and `b` share one layout: the same length, ASCII digits in the
/// same places, and the same character at every other place.
pub open spec fn same_layout(a: Seq<char>, b: Seq<char>) -> bool {
    &&& a.len() == b.len()
    &&& forall|k: int|
        0 <= k < a.len() ==> (is_digit(#[trigger] a[k]) && is_digit(b[k])) || a[k] == b[k]
}

/// Whether all timestamps of `h` share the layout of the first.
pub open spec fn uniform_layout(h: Seq<Consultation>) -> bool {
    forall|i: int| 0 <= i < h.len() ==> same_layout((#[trigger] h[i]).timestamp@, h[0].timestamp@)
}

/// Whether `a` and `b` share one layout.
pub fn layouts_match(a: &str, b: &str) -> (r: bool)
    ensures
        r == same_layout(a@, b@),
{
    let x = chars_of(a);
    let y = chars_of(b);
    if x.len() != y.len() {
        return false;
    }
    let mut k: usize = 0;
    while k < x.len()
        invariant
            x@ == a@,
            y@ == b@,
            x@.len() == y@.len(),
            k <= x@.len(),
            forall|j: int|
                0 <= j < k ==> (is_digit(#[trigger] x@[j]) && is_digit(y@[j])) || x@[j] == y@[j],
        decreases x@.len() - k,
    {
        let u = x[k] as u32;
        let w = y[k] as u32;
        let both_digits = 48 <= u && u <= 57 && 48 <= w && w <= 57;
        if !both_digits && x[k] != y[k] {
            return false;
        }
        k += 1;
    }
    true
}

/// Whether all timestamps of `h` share one layout (that of the first).
pub fn timestamps_uniform(h: &Vec<Consultation>) -> (r: bool)
    ensures
        r == uniform_layout(h@),
{
    if h.len() == 0 {
        return true;
    }
    let mut i: usize = 0;
    while i < h.len()
        invariant
            0 <= i <= h@.len(),
            h@.len() > 0,
            forall|k: int|
                0 <= k < i ==> same_layout((#[trigger] h@[k]).timestamp@, h@[0].timestamp@),
        decreases h@.len() - i,
    {
        if !layouts_match(h[i].timestamp.as_str(), h[0].timestamp.as_str()) {
            return false;
        }
        i += 1;
    }
    true
}

/// The patient ids of `cs` are distinct, and each consultation's id is among them.
pub proof fn lemma_patient_ids_distinct(cs: Seq<Consultation>)
    ensures
        patient_ids(cs).no_duplicates(),
        forall|k: int| 0 <= k < cs.len() ==> patient_ids(cs).contains((#[trigger] cs[k]).patient.id@),
    decreases cs.len(),
{
    if cs.len() > 0 {
        let p = cs.drop_last();
        lemma_patient_ids_distinct(p);
        let r = patient_ids(p);
        let x = cs.last().patient.id@;
        assert forall|k: int| 0 <= k < cs.len() implies patient_ids(cs).contains(
            (#[trigger] cs[k]).patient.id@,
        ) by {
            if k < cs.len() - 1 {
                assert(p[k] == cs[k]);
                let m = choose|m: int| 0 <= m < r.len() && r[m] == p[k].patient.id@;
                if !r.contains(x) {
                    assert(r.push(x)[m] == r[m]);
                }
            } else if !r.contains(x) {
                assert(r.push(x)[r.len() as int] == x);
            }
        }
        if !r.contains(x) {
            assert forall|i: int, j: int|
                0 <= i < r.push(x).len() && 0 <= j < r.push(x).len() && i != j implies r.push(x)[i]
                != r.push(x)[j] by {
                if i < r.len() && j < r.len() {
                } else if i < r.len() {
                    assert(r.contains(r[i]));
                } else if j < r.len() {
                    assert(r.contains(r[j]));
                }
            }
        }
    }
}

pub(crate) proof fn lemma_of_patient_ids(cs: Seq<Consultation>, id: Seq<char>)
    ensures
        forall|k: int|
            0 <= k < of_patient(cs, id).len() ==> (#[trigger] of_patient(cs, id)[k]).patient.id@
                == id,
    decreases cs.len(),
{
    if cs.len() > 0 {
        lemma_of_patient_ids(cs.drop_last(), id);
        let r = of_patient(cs.drop_last(), id);
        assert forall|k: int| 0 <= k < of_patient(cs, id).len() implies (#[trigger] of_patient(
            cs,
            id,
        )[k]).patient.id@ == id by {
            if k < r.len() {
                assert(of_patient(cs, id)[k] == r[k]);
            }
        }
    }
}

pub(crate) proof fn lemma_ids_have_history(cs: Seq<Consultation>)
    ensures
        forall|x: Seq<char>| #[trigger]
            patient_ids(cs).contains(x) ==> of_patient(cs, x).len() > 0,
    decreases cs.len(),
{
    if cs.len() > 0 {
        lemma_ids_have_history(cs.drop_last());
        let r = patient_ids(cs.drop_last());
        assert forall|x: Seq<char>| #[trigger] patient_ids(cs).contains(x) implies of_patient(
            cs,
            x,
        ).len() > 0 by {
            if !r.contains(x) {
                let ids = patient_ids(cs);
                let k = choose|k: int| 0 <= k < ids.len() && ids[k] == x;
                if k < r.len() {
                    assert(r[k] == x);
                }
            }
        }
    }
}

/// What reconciliation gives for patient `id`, as entry `m` holds it.
pub open spec fn reconciled_for(cs: Seq<Consultation>, id: Seq<char>, m: PatientMedications) -> bool {
    &&& m.patient == of_patient(cs, id)[0].patient
    &&& entries_view(m.medications@) == patient_state(cs, id)
    &&& m.start_date@ == chronological(of_patient(cs, id))[0].timestamp@
    &&& m.uniform_timestamps == uniform_layout(of_patient(cs, id))
    &&& keys_unique(entries_view(m.medications@))
}

fn contains_id(ids: &Vec<String>, id: &String) -> (r: bool)
    ensures
        r == ids@.map_values(|s: String| s@).contains(id@),
{
    let ghost v = ids@.map_values(|s: String| s@);
    let mut k: usize = 0;
    while k < ids.len()
        invariant
            k <= ids@.len(),
            v == ids@.map_values(|s: String| s@),
            forall|j: int| 0 <= j < k ==> v[j] != id@,
        decreases ids@.len() - k,
    {
        if ids[k] == *id {
            assert(v[k as int] == id@);
            return true;
        }
        k += 1;
    }
    false
}

/// The distinct patient ids of `cs`, in order of first appearance.
pub fn distinct_patient_ids(cs: &Vec<Consultation>) -> (r: Vec<String>)
    ensures
        r@.map_values(|s: String| s@) == patient_ids(cs@),
{
    let mut ids: Vec<String> = Vec::new();
    let mut i: usize = 0;
    while i < cs.len()
        invariant
            i <= cs@.len(),
            ids@.map_values(|s: String| s@) == patient_ids(cs@.subrange(0, i as int)),
        decreases cs@.len() - i,
    {
        assert(cs@.subrange(0, i + 1).drop_last() =~= cs@.subrange(0, i as int));
        if !contains_id(&ids, &cs[i].patient.id) {
            let ghost before = ids@;
            ids.push(cs[i].patient.id.clone());
            assert(ids@.map_values(|s: String| s@) =~= before.map_values(|s: String| s@).push(
                cs@[i as int].patient.id@,
            ));
        }
        i += 1;
    }
    assert(cs@.subrange(0, i as int) =~= cs@);
    ids
}

/// Each patient's active medications, one entry per patient id in order of
/// first appearance; the patient's details come from their first consultation.
pub fn reconcile(cs: &Vec<Consultation>) -> (r: Vec<PatientMedications>)
    ensures
        r@.len() == patient_ids(cs@).len(),
        forall|k: int|
            0 <= k < r@.len() ==> #[trigger] r@[k].patient.id@ == patient_ids(cs@)[k]
                && reconciled_for(cs@, patient_ids(cs@)[k], r@[k]),
{
    let ids = distinct_patient_ids(cs);
    let ghost idv = ids@.map_values(|s: String| s@);
    proof {
        lemma_ids_have_history(cs@);
    }
    let mut out: Vec<PatientMedications> = Vec::new();
    let mut k: usize = 0;
    while k < ids.len()
        invariant
            k <= ids@.len(),
            idv == ids@.map_values(|s: String| s@),
            idv == patient_ids(cs@),
            forall|x: Seq<char>| #[trigger]
                patient_ids(cs@).contains(x) ==> of_patient(cs@, x).len() > 0,
            out@.len() == k,
            forall|j: int|
                0 <= j < k ==> #[trigger] out@[j].patient.id@ == idv[j] && reconciled_for(
                    cs@,
                    idv[j],
                    out@[j],
                ),
        decreases ids@.len() - k,
    {
        let id = &ids[k];
        assert(idv[k as int] == id@);
        assert(idv.contains(id@));
        let h = patient_history(cs, id);
        proof {
            lemma_of_patient_ids(cs@, id@);
        }
        let sorted = sort_chronologically(&h);
        let meds = replay_history(&sorted);
        proof {
            lemma_state_keys_unique(sorted@);
        }
        let m = PatientMedications {
            patient: h[0].patient.clone(),
            medications: meds,
            start_date: sorted[0].timestamp.clone(),
            uniform_timestamps: timestamps_uniform(&h),
        };
        out.push(m);
        k += 1;
    }
    out
}

/// The medications of a patient depend on that patient's consultations alone,
/// in the order given: two runs over inputs that agree on them give identical
/// results, whatever else the inputs hold.
pub proof fn lemma_reconcile_repeatable(a: Seq<Consultation>, b: Seq<Consultation>, id: Seq<char>)
    requires
        of_patient(a, id) == of_patient(b, id),
    ensures
        patient_state(a, id) == patient_state(b, id),
        chronological(of_patient(a, id)) == chronological(of_patient(b, id)),
{
}

proof fn lemma_text_lt_total_from(a: Seq<char>, b: Seq<char>, i: int)
    requires
        0 <= i <= a.len(),
        i <= b.len(),
        forall|k: int| 0 <= k < i ==> a[k] == b[k],
        !text_lt_from(a, b, i),
        !text_lt_from(b, a, i),
    ensures
        a == b,
    decreases a.len() - i,
{
    if i < a.len() && i < b.len() {
        let u = a[i] as u32;
        vstd::utf8::char_u32_cast(a[i], u);
        vstd::utf8::char_u32_cast(b[i], u);
        lemma_text_lt_total_from(a, b, i + 1);
    } else {
        assert(a =~= b);
    }
}

/// Text order is total: of two different texts, one sorts before the other.
pub proof fn lemma_text_lt_total(a: Seq<char>, b: Seq<char>)
    requires
        a != b,
    ensures
        text_lt(a, b) || text_lt(b, a),
{
    if !text_lt(a, b) && !text_lt(b, a) {
        lemma_text_lt_total_from(a, b, 0);
    }
}

/// Whether different consultations of `m` have different timestamps.
pub open spec fn times_distinct(m: Multiset<Consultation>) -> bool {
    forall|x: Consultation, y: Consultation|
        m.contains(x) && m.contains(y) && x != y ==> x.timestamp@ != y.timestamp@
}

proof fn lemma_in_time_order_unique(a: Seq<Consultation>, b: Seq<Consultation>)
    requires
        in_time_order(a),
        in_time_order(b),
        a.to_multiset() == b.to_multiset(),
        times_distinct(a.to_multiset()),
    ensures
        a == b,
    decreases a.len(),
{
    a.to_multiset_ensures();
    b.to_multiset_ensures();
    if a.len() == 0 {
        assert(b.len() == 0);
        assert(a =~= b);
    } else {
        assert(b.len() == a.len());
        let x = a[0];
        let y = b[0];
        assert(a.contains(x));
        assert(b.contains(y));
        assert(a.to_multiset().contains(x));
        assert(a.to_multiset().contains(y));
        if x != y {
            lemma_text_lt_total(x.timestamp@, y.timestamp@);
            assert(a.contains(y));
            assert(b.contains(x));
            let i = choose|i: int| 0 <= i < a.len() && a[i] == y;
            let j = choose|j: int| 0 <= j < b.len() && b[j] == x;
            if text_lt(y.timestamp@, x.timestamp@) {
                assert(i > 0);
                assert(!text_lt(a[i].timestamp@, a[0].timestamp@));
            } else {
                assert(j > 0);
                assert(!text_lt(b[j].timestamp@, b[0].timestamp@));
            }
            assert(false);
        }
        let a1 = a.drop_first();
        let b1 = b.drop_first();
        assert(a.remove(0) =~= a1);
        assert(b.remove(0) =~= b1);
        assert(a1.to_multiset() == a.to_multiset().remove(x));
        assert(b1.to_multiset() == b.to_multiset().remove(y));
        assert forall|p: int, q: int| 0 <= p < q < a1.len() implies !text_lt(
            (#[trigger] a1[q]).timestamp@,
            (#[trigger] a1[p]).timestamp@,
        ) by {
            assert(a1[p] == a[p + 1] && a1[q] == a[q + 1]);
        }
        assert forall|p: int, q: int| 0 <= p < q < b1.len() implies !text_lt(
            (#[trigger] b1[q]).timestamp@,
            (#[trigger] b1[p]).timestamp@,
        ) by {
            assert(b1[p] == b[p + 1] && b1[q] == b[q + 1]);
        }
        assert forall|u: Consultation, v: Consultation|
            a1.to_multiset().contains(u) && a1.to_multiset().contains(v) && u != v implies u.timestamp@
            != v.timestamp@ by {
            assert(a.to_multiset().contains(u) && a.to_multiset().contains(v));
        }
        lemma_in_time_order_unique(a1, b1);
        assert forall|k: int| 0 <= k < a.len() implies a[k] == b[k] by {
            if k > 0 {
                assert(a[k] == a1[k - 1] && b[k] == b1[k - 1]);
            }
        }
        assert(a =~= b);
    }
}

/// Arrival order does not matter: two histories holding the same consultations,
/// where different consultations have different timestamps, have one chronological
/// order and so one medication state.
pub proof fn lemma_arrival_order_irrelevant(h1: Seq<Consultation>, h2: Seq<Consultation>)
    requires
        h1.to_multiset() == h2.to_multiset(),
        times_distinct(h1.to_multiset()),
    ensures
        chronological(h1) == chronological(h2),
        state_after(chronological(h1)) == state_after(chronological(h2)),
{
    lemma_chronological_in_time_order(h1);
    lemma_chronological_in_time_order(h2);
    lemma_in_time_order_unique(chronological(h1), chronological(h2));
}

proof fn lemma_of_patient_count(cs: Seq<Consultation>, id: Seq<char>, x: Consultation)
    ensures
        of_patient(cs, id).to_multiset().count(x) == if x.patient.id@ == id {
            cs.to_multiset().count(x)
        } else {
            0
        },
    decreases cs.len(),
{
    broadcast use vstd::seq_lib::group_to_multiset_ensures;
    broadcast use vstd::multiset::group_multiset_axioms;

    if cs.len() == 0 {
        assert(of_patient(cs, id) =~= Seq::<Consultation>::empty());
    } else {
        lemma_of_patient_count(cs.drop_last(), id, x);
        assert(cs.drop_last().push(cs.last()) =~= cs);
    }
}

/// A patient's medication state does not depend on the order in which the
/// documents arrived: any rearrangement of the consultations gives the same
/// state, where the patient's different consultations have different timestamps.
pub proof fn lemma_state_ignores_arrival_order(
    cs1: Seq<Consultation>,
    cs2: Seq<Consultation>,
    id: Seq<char>,
)
    requires
        cs1.to_multiset() == cs2.to_multiset(),
        times_distinct(of_patient(cs1, id).to_multiset()),
    ensures
        patient_state(cs1, id) == patient_state(cs2, id),
{
    assert forall|x: Consultation|
        of_patient(cs1, id).to_multiset().count(x) == of_patient(cs2, id).to_multiset().count(x) by {
        lemma_of_patient_count(cs1, id, x);
        lemma_of_patient_count(cs2, id, x);
    }
    assert(of_patient(cs1, id).to_multiset() =~= of_patient(cs2, id).to_multiset());
    lemma_arrival_order_irrelevant(of_patient(cs1, id), of_patient(cs2, id));
}

} // verus!
