//! The read side: consultations grouped per patient, listed, searched and looked up.
use vstd::prelude::*;
use crate::date::{age_on, calculate_age};
use crate::record::{Consultation, Patient};
use crate::reconcile::{
    distinct_patient_ids, of_patient, patient_history, patient_ids, text_less, text_lt,
};
use crate::text::{chars_of, contains, find_from_exec};

verus! {

/// What `str::to_lowercase` returns for a text.
pub uninterp spec fn lower_of(s: Seq<char>) -> Seq<char>;

/// Relies on `str::to_lowercase`: the lower-case form of a text.
#[verifier::external_body]
fn lowercase(s: &str) -> (r: String)
    ensures
        r@ == lower_of(s@),
{
    s.to_lowercase()
}

/// A patient with their consultations, in the order met, and their age.
pub struct PatientView {
    pub patient: Patient,
    pub consultations: Vec<Consultation>,
    pub age: i64,
}

/// A view of a patient entry: patient, consultations, age.
pub type IndexEntry = (Patient, Seq<Consultation>, i64);

impl View for PatientView {
    type V = IndexEntry;

    open spec fn view(&self) -> IndexEntry {
        (self.patient, self.consultations@, self.age)
    }
}

pub open spec fn views_of(vs: Seq<PatientView>) -> Seq<IndexEntry> {
    vs.map_values(|v: PatientView| v@)
}

impl Clone for PatientView {
    fn clone(&self) -> (r: Self)
        ensures
            r@ == self@,
    {
        PatientView {
            patient: self.patient.clone(),
            consultations: clone_all(&self.consultations),
            age: self.age,
        }
    }
}

fn clone_all(v: &Vec<Consultation>) -> (r: Vec<Consultation>)
    ensures
        r@ == v@,
{
    let mut out: Vec<Consultation> = Vec::new();
    let mut i: usize = 0;
    while i < v.len()
        invariant
            i <= v@.len(),
            out@ == v@.subrange(0, i as int),
        decreases v@.len() - i,
    {
        out.push(v[i].clone());
        i += 1;
        assert(out@ =~= v@.subrange(0, i as int));
    }
    assert(out@ =~= v@);
    out
}

/// Whether `v` is the view of patient `id` among `cs` on day `today`.
pub open spec fn view_of(cs: Seq<Consultation>, id: Seq<char>, today: int, v: PatientView) -> bool {
    &&& v.patient == of_patient(cs, id)[0].patient
    &&& v.consultations@ == of_patient(cs, id)
    &&& v.age == age_on(v.patient.birth_date@, today)
}

/// One view per patient id of `cs`, in order of first appearance; each patient's
/// details come from their first consultation and their age is taken on day `today`.
pub fn build_index(cs: &Vec<Consultation>, today: i32) -> (r: Vec<PatientView>)
    ensures
        r@.len() == patient_ids(cs@).len(),
        // one view per distinct id, and every consultation's patient has one
        forall|i: int, j: int|
            0 <= i < j < r@.len() ==> (#[trigger] r@[i]).patient.id@ != (#[trigger] r@[j]).patient.id@,
        forall|k: int|
            0 <= k < cs@.len() ==> exists|j: int|
                0 <= j < r@.len() && (#[trigger] r@[j]).patient.id@ == (#[trigger] cs@[k]).patient.id@,
        forall|k: int|
            0 <= k < r@.len() ==> #[trigger] r@[k].patient.id@ == patient_ids(cs@)[k] && view_of(
                cs@,
                patient_ids(cs@)[k],
                today as int,
                r@[k],
            ),
{
    let ids = distinct_patient_ids(cs);
    let ghost idv = ids@.map_values(|s: String| s@);
    proof {
        crate::reconcile::lemma_ids_have_history(cs@);
        crate::reconcile::lemma_patient_ids_distinct(cs@);
    }
    let mut out: Vec<PatientView> = Vec::new();
    let mut k: usize = 0;
    while k < ids.len()
        invariant
            k <= ids@.len(),
            idv == ids@.map_values(|s: String| s@),
            idv == patient_ids(cs@),
            forall|x: Seq<char>| #[trigger]
                patient_ids(cs@).contains(x) ==> of_patient(cs@, x).len() > 0,
            out@.len() == k,
            forall|j: int|
                0 <= j < k ==> #[trigger] out@[j].patient.id@ == idv[j] && view_of(
                    cs@,
                    idv[j],
                    today as int,
                    out@[j],
                ),
        decreases ids@.len() - k,
    {
        let id = &ids[k];
        assert(idv[k as int] == id@);
        assert(idv.contains(id@));
        let h = patient_history(cs, id);
        proof {
            crate::reconcile::lemma_of_patient_ids(cs@, id@);
        }
        let patient = h[0].patient.clone();
        let age = calculate_age(patient.birth_date.as_str(), today);
        out.push(PatientView { patient, consultations: h, age });
        k += 1;
    }
    proof {
        assert forall|k: int| 0 <= k < cs@.len() implies exists|j: int|
            0 <= j < out@.len() && (#[trigger] out@[j]).patient.id@ == (#[trigger] cs@[k]).patient.id@ by {
            let j = choose|j: int| 0 <= j < idv.len() && idv[j] == cs@[k].patient.id@;
            assert(out@[j].patient.id@ == idv[j]);
        }
        assert forall|i: int, j: int|
            0 <= i < j < out@.len() implies (#[trigger] out@[i]).patient.id@ != (
            #[trigger] out@[j]).patient.id@ by {
            assert(out@[i].patient.id@ == idv[i] && out@[j].patient.id@ == idv[j]);
        }
    }
    out
}

/// Where `v` goes in `sorted`: after every view whose name is not greater.
pub open spec fn name_pos(sorted: Seq<IndexEntry>, v: IndexEntry, i: int) -> int
    decreases sorted.len() - i,
{
    if i < 0 || i >= sorted.len() {
        sorted.len() as int
    } else if text_lt(v.0.name@, sorted[i].0.name@) {
        i
    } else {
        name_pos(sorted, v, i + 1)
    }
}

/// `vs` ordered by patient name; equal names keep their order (a stable sort).
pub open spec fn by_name(vs: Seq<IndexEntry>) -> Seq<IndexEntry>
    decreases vs.len(),
{
    if vs.len() == 0 {
        Seq::empty()
    } else {
        let s = by_name(vs.drop_last());
        s.insert(name_pos(s, vs.last(), 0), vs.last())
    }
}

/// The views ordered by patient name, stably.
pub fn list_patients(vs: &Vec<PatientView>) -> (r: Vec<PatientView>)
    ensures
        views_of(r@) == by_name(views_of(vs@)),
{
    let ghost w = views_of(vs@);
    let mut out: Vec<PatientView> = Vec::new();
    let mut i: usize = 0;
    while i < vs.len()
        invariant
            i <= vs@.len(),
            w == views_of(vs@),
            views_of(out@) == by_name(w.subrange(0, i as int)),
        decreases vs@.len() - i,
    {
        assert(w.subrange(0, i + 1).drop_last() =~= w.subrange(0, i as int));
        let v = vs[i].clone();
        let mut k: usize = 0;
        while k < out.len() && !text_less(v.patient.name.as_str(), out[k].patient.name.as_str())
            invariant
                k <= out@.len(),
                v@ == w[i as int],
                name_pos(views_of(out@), v@, 0) == name_pos(views_of(out@), v@, k as int),
            decreases out@.len() - k,
        {
            k += 1;
        }
        let ghost before = out@;
        out.insert(k, v);
        assert(views_of(out@) =~= views_of(before).insert(k as int, w[i as int]));
        i += 1;
    }
    assert(w.subrange(0, i as int) =~= w);
    out
}

/// Whether patient `p` matches query `q`: the lower-cased name contains the
/// lower-cased query, or the id contains the query as written.
pub open spec fn search_hit(p: Patient, q: Seq<char>) -> bool {
    contains(lower_of(p.name@), lower_of(q)) || contains(p.id@, q)
}

/// The views in `vs` whose patient matches `q`, in order.
pub open spec fn search_results(vs: Seq<IndexEntry>, q: Seq<char>) -> Seq<IndexEntry>
    decreases vs.len(),
{
    if vs.len() == 0 {
        Seq::empty()
    } else {
        let r = search_results(vs.drop_last(), q);
        if search_hit(vs.last().0, q) {
            r.push(vs.last())
        } else {
            r
        }
    }
}

/// Every search result matches the query (by name without regard to case, or by
/// id as written), every matching entry is among the results, and a query that
/// matches no patient gives an empty result.
pub proof fn lemma_search_results(vs: Seq<IndexEntry>, q: Seq<char>)
    ensures
        forall|k: int|
            0 <= k < vs.len() && search_hit((#[trigger] vs[k]).0, q) ==> search_results(
                vs,
                q,
            ).contains(vs[k]),
        forall|k: int|
            0 <= k < search_results(vs, q).len() ==> search_hit(
                (#[trigger] search_results(vs, q)[k]).0,
                q,
            ),
        (forall|k: int| 0 <= k < vs.len() ==> !search_hit((#[trigger] vs[k]).0, q)) ==> search_results(
            vs,
            q,
        ).len() == 0,
    decreases vs.len(),
{
    if vs.len() > 0 {
        let r = search_results(vs.drop_last(), q);
        lemma_search_results(vs.drop_last(), q);
        assert forall|k: int| 0 <= k < search_results(vs, q).len() implies search_hit(
            (#[trigger] search_results(vs, q)[k]).0,
            q,
        ) by {
            if k < r.len() {
                assert(search_results(vs, q)[k] == r[k]);
            }
        }
        assert forall|k: int|
            0 <= k < vs.len() && search_hit((#[trigger] vs[k]).0, q) implies search_results(
            vs,
            q,
        ).contains(vs[k]) by {
            let s = search_results(vs, q);
            if k < vs.len() - 1 {
                assert(vs.drop_last()[k] == vs[k]);
                let m = choose|m: int| 0 <= m < r.len() && r[m] == vs[k];
                if search_hit(vs.last().0, q) {
                    assert(s[m] == r[m]);
                }
                assert(s[m] == vs[k]);
            } else {
                assert(s[s.len() - 1] == vs[k]);
            }
        }
        if forall|k: int| 0 <= k < vs.len() ==> !search_hit((#[trigger] vs[k]).0, q) {
            assert forall|k: int| 0 <= k < vs.drop_last().len() implies !search_hit(
                (#[trigger] vs.drop_last()[k]).0,
                q,
            ) by {
                assert(vs.drop_last()[k] == vs[k]);
            }
            assert(!search_hit(vs[vs.len() - 1].0, q));
        }
    }
}

fn text_contains(s: &str, q: &str) -> (r: bool)
    ensures
        r == contains(s@, q@),
{
    let x = chars_of(s);
    let y = chars_of(q);
    find_from_exec(&x, &y, 0).is_some()
}

/// Whether patient `p` matches `q`, from `q`'s lower-case form `lq`.
pub fn matches_query(p: &Patient, q: &str, lq: &str) -> (r: bool)
    ensures
        r == (contains(lower_of(p.name@), lq@) || contains(p.id@, q@)),
{
    let ln = lowercase(p.name.as_str());
    text_contains(ln.as_str(), lq) || text_contains(p.id.as_str(), q)
}

/// The views whose patient name contains `q` without regard to case, or whose
/// id contains `q` as written; none is an empty result.
pub fn search_patients(vs: &Vec<PatientView>, q: &str) -> (r: Vec<PatientView>)
    ensures
        views_of(r@) == search_results(views_of(vs@), q@),
{
    let ghost w = views_of(vs@);
    let lq = lowercase(q);
    let mut out: Vec<PatientView> = Vec::new();
    let mut i: usize = 0;
    while i < vs.len()
        invariant
            i <= vs@.len(),
            lq@ == lower_of(q@),
            w == views_of(vs@),
            views_of(out@) == search_results(w.subrange(0, i as int), q@),
        decreases vs@.len() - i,
    {
        assert(w.subrange(0, i + 1).drop_last() =~= w.subrange(0, i as int));
        if matches_query(&vs[i].patient, q, lq.as_str()) {
            let ghost before = out@;
            out.push(vs[i].clone());
            assert(views_of(out@) =~= views_of(before).push(w[i as int]));
        }
        i += 1;
    }
    assert(w.subrange(0, i as int) =~= w);
    out
}

/// The first view in `vs` at or after `i` with patient `id`.
pub open spec fn find_from_index(vs: Seq<IndexEntry>, id: Seq<char>, i: int) -> Option<
    IndexEntry,
>
    decreases vs.len() - i,
{
    if i < 0 || i >= vs.len() {
        None
    } else if vs[i].0.id@ == id {
        Some(vs[i])
    } else {
        find_from_index(vs, id, i + 1)
    }
}

/// The view of patient `id`, or `None` where no patient has that id.
pub fn find_patient(vs: &Vec<PatientView>, id: &str) -> (r: Option<PatientView>)
    ensures
        match r {
            Some(v) => find_from_index(views_of(vs@), id@, 0) == Some(v@),
            None => find_from_index(views_of(vs@), id@, 0) is None,
        },
{
    let ghost w = views_of(vs@);
    let mut i: usize = 0;
    while i < vs.len()
        invariant
            i <= vs@.len(),
            w == views_of(vs@),
            find_from_index(w, id@, 0) == find_from_index(w, id@, i as int),
        decreases vs@.len() - i,
    {
        if text_equal(vs[i].patient.id.as_str(), id) {
            return Some(vs[i].clone());
        }
        i += 1;
    }
    None
}

fn text_equal(a: &str, b: &str) -> (r: bool)
    ensures
        r == (a@ == b@),
{
    let x = chars_of(a);
    let y = chars_of(b);
    if x.len() != y.len() {
        return false;
    }
    let mut i: usize = 0;
    while i < x.len()
        invariant
            x@ == a@,
            y@ == b@,
            x@.len() == y@.len(),
            i <= x@.len(),
            forall|j: int| 0 <= j < i ==> x@[j] == y@[j],
        decreases x@.len() - i,
    {
        if x[i] != y[i] {
            return false;
        }
        i += 1;
    }
    assert(x@ =~= y@);
    true
}

} // verus!
