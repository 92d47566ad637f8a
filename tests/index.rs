use mymed::index::{build_index, find_patient, list_patients, search_patients};
use mymed::record::{Consultation, Patient, Practitioner};

fn consultation(id: &str, name: &str, birth: &str, ts: &str) -> Consultation {
    Consultation {
        patient: Patient { id: id.to_string(), name: name.to_string(), birth_date: birth.to_string() },
        practitioner: Practitioner {
            license_id: "1".to_string(),
            name: "Dr".to_string(),
            specialty: "Clinica".to_string(),
        },
        timestamp: ts.to_string(),
        source: format!("{}.med", ts),
        diagnostic_hypothesis: String::new(),
        treatment_plan: String::new(),
    }
}

fn corpus() -> Vec<Consultation> {
    vec![
        consultation("222", "Carlos Lima", "1980-01-01", "t1"),
        consultation("111", "Ana Souza", "1990-05-20", "t2"),
        consultation("222", "Carlos Lima", "1980-01-01", "t3"),
        consultation("333", "Beatriz Alves", "2000-01-01", "t4"),
    ]
}

#[test]
fn index_groups_by_patient_in_encounter_order() {
    let vs = build_index(&corpus(), 738886);
    let ids: Vec<&str> = vs.iter().map(|v| v.patient.id.as_str()).collect();
    assert_eq!(ids, vec!["222", "111", "333"]);
    let ts: Vec<&str> = vs[0].consultations.iter().map(|c| c.timestamp.as_str()).collect();
    assert_eq!(ts, vec!["t1", "t3"]);
    assert_eq!(vs[1].age, 33);
}

#[test]
fn listing_is_by_name() {
    let vs = list_patients(&build_index(&corpus(), 738886));
    let names: Vec<&str> = vs.iter().map(|v| v.patient.name.as_str()).collect();
    assert_eq!(names, vec!["Ana Souza", "Beatriz Alves", "Carlos Lima"]);
}

#[test]
fn search_by_name_ignores_case() {
    let vs = build_index(&corpus(), 738886);
    let r = search_patients(&vs, "sOUZA");
    assert_eq!(r.len(), 1);
    assert_eq!(r[0].patient.id, "111");
}

#[test]
fn search_by_id_substring() {
    let vs = build_index(&corpus(), 738886);
    let r = search_patients(&vs, "33");
    assert_eq!(r.len(), 1);
    assert_eq!(r[0].patient.name, "Beatriz Alves");
}

#[test]
fn search_without_match_is_empty() {
    let vs = build_index(&corpus(), 738886);
    assert!(search_patients(&vs, "zzz").is_empty());
    assert_eq!(search_patients(&vs, "").len(), 3);
}

#[test]
fn lookup_by_id() {
    let vs = build_index(&corpus(), 738886);
    assert_eq!(find_patient(&vs, "333").unwrap().patient.name, "Beatriz Alves");
    assert!(find_patient(&vs, "999").is_none());
}
