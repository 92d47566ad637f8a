//! Clinical record documents and their parsing into consultations.
//!
//! A document holds, in order, the sections `[PATIENT]`, `[DOCTOR]`,
//! `[TRANSACTION]` and `[CONTRACT_CONDITIONS]`, each running up to the next;
//! `[HIPOTESE DIAGNOSTICA]` and `[CONDUTA]` are optional narratives that run up
//! to a blank line, the next of these six section markers, or the end of the text.
use vstd::prelude::*;
use crate::date::{
    birth_date_for_age, birth_day, iso_date_text, today, ClockUnavailable, EPOCH_DAY, LAST_DAY,
};
use crate::field::{field_chars, field_value};
use crate::number::{decimal_value, parse_i32};
use crate::text::{
    chars_of, find_from, find_from_exec, matches_at, matches_at_exec, skip_space, skip_space_exec, slice_of, string_of, trim,
    trim_chars,
};

verus! {

/// A patient, identified by `id`.
pub struct Patient {
    pub id: String,
    pub name: String,
    /// `%Y-%m-%d`
    pub birth_date: String,
}

/// The practitioner who wrote a record.
pub struct Practitioner {
    pub license_id: String,
    pub name: String,
    pub specialty: String,
}

/// One parsed clinical record.
pub struct Consultation {
    pub patient: Patient,
    pub practitioner: Practitioner,
    pub timestamp: String,
    /// The name of the document the record came from.
    pub source: String,
    pub diagnostic_hypothesis: String,
    pub treatment_plan: String,
}

impl Clone for Patient {
    fn clone(&self) -> (r: Self)
        ensures
            r == *self,
    {
        Patient { id: self.id.clone(), name: self.name.clone(), birth_date: self.birth_date.clone() }
    }
}

impl Clone for Practitioner {
    fn clone(&self) -> (r: Self)
        ensures
            r == *self,
    {
        Practitioner {
            license_id: self.license_id.clone(),
            name: self.name.clone(),
            specialty: self.specialty.clone(),
        }
    }
}

impl Clone for Consultation {
    fn clone(&self) -> (r: Self)
        ensures
            r == *self,
    {
        Consultation {
            patient: self.patient.clone(),
            practitioner: self.practitioner.clone(),
            timestamp: self.timestamp.clone(),
            source: self.source.clone(),
            diagnostic_hypothesis: self.diagnostic_hypothesis.clone(),
            treatment_plan: self.treatment_plan.clone(),
        }
    }
}

pub open spec fn m_patient() -> Seq<char> {
    "[PATIENT]"@
}

pub open spec fn m_doctor() -> Seq<char> {
    "[DOCTOR]"@
}

pub open spec fn m_transaction() -> Seq<char> {
    "[TRANSACTION]"@
}

pub open spec fn m_terms() -> Seq<char> {
    "[CONTRACT_CONDITIONS]"@
}

pub open spec fn m_hypothesis() -> Seq<char> {
    "[HIPOTESE DIAGNOSTICA]"@
}

pub open spec fn m_plan() -> Seq<char> {
    "[CONDUTA]"@
}

/// The text after the first `open` marker (and the whitespace after it) up to
/// the next `close` marker.
pub open spec fn section_between(s: Seq<char>, open: Seq<char>, close: Seq<char>) -> Option<
    Seq<char>,
> {
    match find_from(s, open, 0) {
        Some(p) => {
            let j = skip_space(s, p + open.len());
            match find_from(s, close, j) {
                Some(q) => Some(s.subrange(j, q)),
                None => None,
            }
        },
        None => None,
    }
}

/// Whether one of the six section markers starts at `i`.
pub open spec fn marker_at(s: Seq<char>, i: int) -> bool {
    matches_at(s, m_patient(), i) || matches_at(s, m_doctor(), i) || matches_at(
        s,
        m_transaction(),
        i,
    ) || matches_at(s, m_terms(), i) || matches_at(s, m_hypothesis(), i) || matches_at(
        s,
        m_plan(),
        i,
    )
}

/// The first index at or after `i` that starts a section marker or a blank line (`"\n\n"`).
pub open spec fn stop_from(s: Seq<char>, i: int) -> Option<int>
    decreases s.len() + 1 - i,
{
    if i < 0 || i >= s.len() {
        None
    } else if marker_at(s, i) || (s[i] == '\n' && i + 1 < s.len() && s[i + 1] == '\n') {
        Some(i)
    } else {
        stop_from(s, i + 1)
    }
}

/// The trimmed text after the first `open` marker up to a blank line, the next
/// section marker, or the end of the text. Empty where there is no `open` marker.
pub open spec fn narrative(s: Seq<char>, open: Seq<char>) -> Seq<char> {
    match find_from(s, open, 0) {
        Some(p) => {
            let j = skip_space(s, p + open.len());
            match stop_from(s, j) {
                Some(t) => trim(s.subrange(j, t)),
                None => trim(s.subrange(j, s.len() as int)),
            }
        },
        None => Seq::empty(),
    }
}

/// A field of a section that may be missing.
pub open spec fn field_in(sec: Option<Seq<char>>, key: Seq<char>) -> Option<Seq<char>> {
    match sec {
        Some(x) => field_value(x, key),
        None => None,
    }
}

pub open spec fn patient_field(s: Seq<char>, key: Seq<char>) -> Option<Seq<char>> {
    field_in(section_between(s, m_patient(), m_doctor()), key)
}

pub open spec fn doctor_field(s: Seq<char>, key: Seq<char>) -> Option<Seq<char>> {
    field_in(section_between(s, m_doctor(), m_transaction()), key)
}

pub open spec fn transaction_field(s: Seq<char>, key: Seq<char>) -> Option<Seq<char>> {
    field_in(section_between(s, m_transaction(), m_terms()), key)
}

/// The age a record states: its `Idade:` value read as an integer, 0 where it is not one.
pub open spec fn stated_age(s: Seq<char>) -> int {
    match patient_field(s, "Idade:"@) {
        Some(a) => match decimal_value(a) {
            Some(v) => v,
            None => 0,
        },
        None => 0,
    }
}

/// The birth date of a record's patient, counted back from day `today`.
pub open spec fn stated_birth_date(s: Seq<char>, today: int) -> Option<Seq<char>> {
    let b = birth_day(stated_age(s), today);
    if i32::MIN <= b <= i32::MAX {
        iso_date_text(b)
    } else {
        None
    }
}

/// Whether every required field of a record is there.
pub open spec fn required_fields_present(s: Seq<char>) -> bool {
    &&& patient_field(s, "CPF:"@) is Some
    &&& patient_field(s, "Nome:"@) is Some
    &&& patient_field(s, "Idade:"@) is Some
    &&& doctor_field(s, "CRM:"@) is Some
    &&& doctor_field(s, "Nome:"@) is Some
    &&& doctor_field(s, "Especialidade:"@) is Some
    &&& transaction_field(s, "Timestamp:"@) is Some
}

/// Whether a record parses: every required field is there and the birth date can be written.
pub open spec fn record_parses(s: Seq<char>, today: int) -> bool {
    &&& patient_field(s, "CPF:"@) is Some
    &&& patient_field(s, "Nome:"@) is Some
    &&& patient_field(s, "Idade:"@) is Some
    &&& doctor_field(s, "CRM:"@) is Some
    &&& doctor_field(s, "Nome:"@) is Some
    &&& doctor_field(s, "Especialidade:"@) is Some
    &&& transaction_field(s, "Timestamp:"@) is Some
    &&& stated_birth_date(s, today) is Some
}

/// Whether `c` is what the record `s`, parsed on day `today`, gives.
pub open spec fn record_gives(s: Seq<char>, today: int, c: Consultation) -> bool {
    &&& patient_field(s, "CPF:"@) == Some(c.patient.id@)
    &&& patient_field(s, "Nome:"@) == Some(c.patient.name@)
    &&& stated_birth_date(s, today) == Some(c.patient.birth_date@)
    &&& doctor_field(s, "CRM:"@) == Some(c.practitioner.license_id@)
    &&& doctor_field(s, "Nome:"@) == Some(c.practitioner.name@)
    &&& doctor_field(s, "Especialidade:"@) == Some(c.practitioner.specialty@)
    &&& transaction_field(s, "Timestamp:"@) == Some(c.timestamp@)
    &&& c.source@ == Seq::<char>::empty()
    &&& c.diagnostic_hypothesis@ == narrative(s, m_hypothesis())
    &&& c.treatment_plan@ == narrative(s, m_plan())
}

/// A record missing any required field parses to nothing.
pub proof fn lemma_missing_field_rejects(s: Seq<char>, today: int)
    requires
        patient_field(s, "CPF:"@) is None || patient_field(s, "Nome:"@) is None || patient_field(
            s,
            "Idade:"@,
        ) is None || doctor_field(s, "CRM:"@) is None || doctor_field(s, "Nome:"@) is None
            || doctor_field(s, "Especialidade:"@) is None || transaction_field(s, "Timestamp:"@) is None,
    ensures
        !record_parses(s, today),
{
}

/// Whether a record's patient section yields a patient: id, name and an age
/// that reads as an integer, with a birth date that can be written.
pub open spec fn patient_parses(s: Seq<char>, today: int) -> bool {
    &&& patient_field(s, "CPF:"@) is Some
    &&& patient_field(s, "Nome:"@) is Some
    &&& match patient_field(s, "Idade:"@) {
        Some(a) => decimal_value(a) is Some,
        None => false,
    }
    &&& stated_birth_date(s, today) is Some
}

fn section_exec(s: &Vec<char>, open: &str, close: &str) -> (r: Option<Vec<char>>)
    ensures
        match r {
            Some(v) => section_between(s@, open@, close@) == Some(v@),
            None => section_between(s@, open@, close@) is None,
        },
{
    let o = chars_of(open);
    let c = chars_of(close);
    match find_from_exec(s, &o, 0) {
        Some(p) => {
            assert(p + o.len() <= s.len());
            let j = skip_space_exec(s, p + o.len());
            match find_from_exec(s, &c, j) {
                Some(q) => Some(slice_of(s, j, q)),
                None => None,
            }
        },
        None => None,
    }
}

/// The six section markers, on characters.
struct Markers {
    patient: Vec<char>,
    doctor: Vec<char>,
    transaction: Vec<char>,
    terms: Vec<char>,
    hypothesis: Vec<char>,
    plan: Vec<char>,
}

impl Markers {
    spec fn wf(&self) -> bool {
        &&& self.patient@ == m_patient()
        &&& self.doctor@ == m_doctor()
        &&& self.transaction@ == m_transaction()
        &&& self.terms@ == m_terms()
        &&& self.hypothesis@ == m_hypothesis()
        &&& self.plan@ == m_plan()
    }

    fn new() -> (r: Markers)
        ensures
            r.wf(),
    {
        Markers {
            patient: chars_of("[PATIENT]"),
            doctor: chars_of("[DOCTOR]"),
            transaction: chars_of("[TRANSACTION]"),
            terms: chars_of("[CONTRACT_CONDITIONS]"),
            hypothesis: chars_of("[HIPOTESE DIAGNOSTICA]"),
            plan: chars_of("[CONDUTA]"),
        }
    }

    fn at(&self, s: &Vec<char>, k: usize) -> (r: bool)
        requires
            self.wf(),
        ensures
            r == marker_at(s@, k as int),
    {
        matches_at_exec(s, &self.patient, k) || matches_at_exec(s, &self.doctor, k)
            || matches_at_exec(s, &self.transaction, k) || matches_at_exec(s, &self.terms, k)
            || matches_at_exec(s, &self.hypothesis, k) || matches_at_exec(s, &self.plan, k)
    }
}

fn stop_exec(s: &Vec<char>, i: usize, ms: &Markers) -> (r: Option<usize>)
    requires
        i <= s@.len(),
        ms.wf(),
    ensures
        match r {
            Some(t) => stop_from(s@, i as int) == Some(t as int) && i <= t < s@.len(),
            None => stop_from(s@, i as int) is None,
        },
{
    let mut k: usize = i;
    while k < s.len()
        invariant
            i <= k <= s@.len(),
            ms.wf(),
            stop_from(s@, i as int) == stop_from(s@, k as int),
        decreases s@.len() - k,
    {
        if ms.at(s, k) || (s[k] == '\n' && k + 1 < s.len() && s[k + 1] == '\n') {
            return Some(k);
        }
        k += 1;
    }
    None
}

fn narrative_exec(s: &Vec<char>, open: &Vec<char>, ms: &Markers) -> (r: Vec<char>)
    requires
        ms.wf(),
    ensures
        r@ == narrative(s@, open@),
{
    match find_from_exec(s, open, 0) {
        Some(p) => {
            assert(p + open.len() <= s.len());
            let j = skip_space_exec(s, p + open.len());
            match stop_exec(s, j, ms) {
                Some(t) => trim_chars(&slice_of(s, j, t)),
                None => trim_chars(&slice_of(s, j, s.len())),
            }
        },
        None => Vec::new(),
    }
}

fn field_of_section(sec: &Option<Vec<char>>, key: &str) -> (r: Option<String>)
    ensures
        match r {
            Some(v) => field_in(
                match sec {
                    Some(x) => Some(x@),
                    None => None,
                },
                key@,
            ) == Some(v@),
            None => field_in(
                match sec {
                    Some(x) => Some(x@),
                    None => None,
                },
                key@,
            ) is None,
        },
{
    match sec {
        Some(x) => {
            let k = chars_of(key);
            match field_chars(x, &k) {
                Some(v) => Some(string_of(v.as_slice())),
                None => None,
            }
        },
        None => None,
    }
}

/// Parse a record document on day `today`; `None` where a required field is
/// missing or the birth date cannot be written.
pub fn parse_record(content: &str, today: i32) -> (r: Option<Consultation>)
    ensures
        r is Some <==> record_parses(content@, today as int),
        // with a day from 1970 to LAST_DAY and a stated age of at most 150
        // years, the fields alone decide: one missing field rejects the record
        EPOCH_DAY <= today <= LAST_DAY && 0 <= stated_age(content@) <= 150 ==> (r is Some
            <==> required_fields_present(content@)),
        match r {
            Some(c) => record_gives(content@, today as int, c),
            None => true,
        },
{
    let s = chars_of(content);
    let ps = section_exec(&s, "[PATIENT]", "[DOCTOR]");
    let ds = section_exec(&s, "[DOCTOR]", "[TRANSACTION]");
    let ts = section_exec(&s, "[TRANSACTION]", "[CONTRACT_CONDITIONS]");
    let ms = Markers::new();
    let hypothesis = narrative_exec(&s, &ms.hypothesis, &ms);
    let plan = narrative_exec(&s, &ms.plan, &ms);
    let id = field_of_section(&ps, "CPF:");
    let name = field_of_section(&ps, "Nome:");
    let age_text = field_of_section(&ps, "Idade:");
    let license = field_of_section(&ds, "CRM:");
    let doctor = field_of_section(&ds, "Nome:");
    let specialty = field_of_section(&ds, "Especialidade:");
    let timestamp = field_of_section(&ts, "Timestamp:");
    let age: i32 = match &age_text {
        Some(a) => match parse_i32(&chars_of(a.as_str())) {
            Some(v) => v,
            None => 0,
        },
        None => 0,
    };
    let birth = birth_date_for_age(age, today);
    match (id, name, age_text, license, doctor, specialty, timestamp, birth) {
        (Some(id), Some(name), Some(_), Some(license), Some(doctor), Some(specialty), Some(timestamp), Some(birth)) => {
            Some(
                Consultation {
                    patient: Patient { id, name, birth_date: birth },
                    practitioner: Practitioner { license_id: license, name: doctor, specialty },
                    timestamp,
                    source: String::new(),
                    diagnostic_hypothesis: string_of(hypothesis.as_slice()),
                    treatment_plan: string_of(plan.as_slice()),
                },
            )
        },
        _ => None,
    }
}

/// Whether a record's patient section holds an id, a name and an age that
/// reads as an integer.
pub open spec fn patient_fields_present(s: Seq<char>) -> bool {
    &&& patient_field(s, "CPF:"@) is Some
    &&& patient_field(s, "Nome:"@) is Some
    &&& match patient_field(s, "Idade:"@) {
        Some(a) => decimal_value(a) is Some,
        None => false,
    }
}

/// The patient of a record document, parsed on day `today`; unlike a full
/// parse, an age that does not read as an integer rejects the patient.
pub fn parse_patient(content: &str, today: i32) -> (r: Option<Patient>)
    ensures
        r is Some <==> patient_parses(content@, today as int),
        // with a day from 1970 to LAST_DAY and a stated age of at most 150
        // years, the fields alone decide
        EPOCH_DAY <= today <= LAST_DAY && 0 <= stated_age(content@) <= 150 ==> (r is Some
            <==> patient_fields_present(content@)),
        match r {
            Some(p) => {
                &&& patient_field(content@, "CPF:"@) == Some(p.id@)
                &&& patient_field(content@, "Nome:"@) == Some(p.name@)
                &&& stated_birth_date(content@, today as int) == Some(p.birth_date@)
            },
            None => true,
        },
{
    let s = chars_of(content);
    let ps = section_exec(&s, "[PATIENT]", "[DOCTOR]");
    let id = field_of_section(&ps, "CPF:");
    let name = field_of_section(&ps, "Nome:");
    let age_text = field_of_section(&ps, "Idade:");
    let age: Option<i32> = match &age_text {
        Some(a) => parse_i32(&chars_of(a.as_str())),
        None => None,
    };
    match (id, name, age) {
        (Some(id), Some(name), Some(age)) => match birth_date_for_age(age, today) {
            Some(birth) => Some(Patient { id, name, birth_date: birth }),
            None => None,
        },
        _ => None,
    }
}

/// What `parse_patient` gives for `content` on day `d`, with the fields alone
/// deciding for stated ages up to 150 years.
pub open spec fn patient_parse_on(content: Seq<char>, d: int, r: Option<Patient>) -> bool {
    &&& (r is Some <==> patient_parses(content, d))
    &&& (0 <= stated_age(content) <= 150 ==> (r is Some <==> patient_fields_present(content)))
    &&& match r {
        Some(p) => {
            &&& patient_field(content, "CPF:"@) == Some(p.id@)
            &&& patient_field(content, "Nome:"@) == Some(p.name@)
            &&& stated_birth_date(content, d) == Some(p.birth_date@)
        },
        None => true,
    }
}

/// The patient of a record document, parsed today by the system clock; an
/// error where the clock gives no day.
pub fn parse_patient_from_med(content: &str) -> (r: Result<Option<Patient>, ClockUnavailable>)
    ensures
        r matches Ok(o) ==> exists|d: i32|
            EPOCH_DAY <= d <= LAST_DAY && patient_parse_on(content@, d as int, o),
{
    match today() {
        Ok(d) => {
            let o = parse_patient(content, d);
            assert(patient_parse_on(content@, d as int, o));
            Ok(o)
        },
        Err(e) => Err(e),
    }
}

/// What `parse_record` gives for `content` on day `d`, with the fields alone
/// deciding for stated ages up to 150 years.
pub open spec fn record_parse_on(content: Seq<char>, d: int, r: Option<Consultation>) -> bool {
    &&& (r is Some <==> record_parses(content, d))
    &&& (0 <= stated_age(content) <= 150 ==> (r is Some <==> required_fields_present(content)))
    &&& match r {
        Some(c) => record_gives(content, d, c),
        None => true,
    }
}

/// Parse a record document today, by the system clock; an error where the
/// clock gives no day.
pub fn parse_med_file(content: &str) -> (r: Result<Option<Consultation>, ClockUnavailable>)
    ensures
        r matches Ok(o) ==> exists|d: i32|
            EPOCH_DAY <= d <= LAST_DAY && record_parse_on(content@, d as int, o),
{
    match today() {
        Ok(d) => {
            let o = parse_record(content, d);
            assert(record_parse_on(content@, d as int, o));
            Ok(o)
        },
        Err(e) => Err(e),
    }
}

} // verus!
