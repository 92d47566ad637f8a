use mymed::record::{Consultation, Patient, Practitioner};
use mymed::reconcile::{reconcile, reconcile_patient, sort_chronologically, text_less, timestamps_uniform};

fn consultation(id: &str, name: &str, ts: &str, plan: &str) -> Consultation {
    Consultation {
        patient: Patient { id: id.to_string(), name: name.to_string(), birth_date: "1990-01-01".to_string() },
        practitioner: Practitioner {
            license_id: "1".to_string(),
            name: "Dr".to_string(),
            specialty: "Clinica".to_string(),
        },
        timestamp: ts.to_string(),
        source: String::new(),
        diagnostic_hypothesis: String::new(),
        treatment_plan: plan.to_string(),
    }
}

fn pairs(ms: &[mymed::replay::Medication]) -> Vec<(String, String)> {
    ms.iter().map(|m| (m.name.clone(), m.dosage.clone())).collect()
}

#[test]
fn end_to_end_two_documents() {
    let cs = vec![
        consultation("123", "Ana", "2024-01-01T00:00:00", "!PRESCREVO [Losartan] [50mg]"),
        consultation("123", "Ana", "2024-02-01T00:00:00", "!SUSPENDO Losartan; !PRESCREVO [Enalapril] [10mg]"),
    ];
    let r = reconcile(&cs);
    assert_eq!(r.len(), 1);
    assert_eq!(r[0].patient.id, "123");
    assert_eq!(pairs(&r[0].medications), vec![("Enalapril".to_string(), "10mg".to_string())]);
    assert_eq!(r[0].start_date, "2024-01-01T00:00:00");
}

#[test]
fn replay_follows_timestamps_not_arrival() {
    let cs = vec![
        consultation("123", "Ana", "2024-02-01T00:00:00", "!SUSPENDO Losartan; !PRESCREVO [Enalapril] [10mg]"),
        consultation("123", "Ana", "2024-01-01T00:00:00", "!PRESCREVO [Losartan] [50mg]"),
    ];
    let r = reconcile(&cs);
    assert_eq!(pairs(&r[0].medications), vec![("Enalapril".to_string(), "10mg".to_string())]);
    assert_eq!(r[0].start_date, "2024-01-01T00:00:00");
}

#[test]
fn reconciling_twice_is_identical() {
    let cs = vec![
        consultation("1", "Ana", "2024-01-01T00:00:00", "!PRESCREVO A 1mg; !PRESCREVO B 2mg"),
        consultation("2", "Bia", "2024-01-05T00:00:00", "!MANTENHO C 3mg"),
        consultation("1", "Ana", "2024-01-03T00:00:00", "!AJUSTO A 5mg"),
    ];
    let a = reconcile(&cs);
    let b = reconcile(&cs);
    assert_eq!(a.len(), b.len());
    for (x, y) in a.iter().zip(b.iter()) {
        assert_eq!(x.patient.id, y.patient.id);
        assert_eq!(pairs(&x.medications), pairs(&y.medications));
        assert_eq!(x.start_date, y.start_date);
    }
    assert_eq!(a[0].patient.id, "1");
    assert_eq!(pairs(&a[0].medications), vec![("A".to_string(), "5mg".to_string()), ("B".to_string(), "2mg".to_string())]);
    assert_eq!(a[1].patient.id, "2");
    assert_eq!(pairs(&a[1].medications), vec![("C".to_string(), "3mg".to_string())]);
}

#[test]
fn patients_do_not_mix() {
    let cs = vec![
        consultation("1", "Ana", "2024-01-01T00:00:00", "!PRESCREVO A 1mg"),
        consultation("2", "Bia", "2024-01-02T00:00:00", "!SUSPENDO A"),
    ];
    assert_eq!(pairs(&reconcile_patient(&cs, &"1".to_string())), vec![("A".to_string(), "1mg".to_string())]);
    assert!(reconcile_patient(&cs, &"2".to_string()).is_empty());
    assert!(reconcile_patient(&cs, &"3".to_string()).is_empty());
}

#[test]
fn sort_is_stable_on_equal_timestamps() {
    let cs = vec![
        consultation("1", "Ana", "2024-01-02", "first"),
        consultation("1", "Ana", "2024-01-01", "x"),
        consultation("1", "Ana", "2024-01-02", "second"),
    ];
    let s = sort_chronologically(&cs);
    let plans: Vec<&str> = s.iter().map(|c| c.treatment_plan.as_str()).collect();
    assert_eq!(plans, vec!["x", "first", "second"]);
}

#[test]
fn text_order_is_by_character() {
    assert!(text_less("2024-01-01", "2024-02-01"));
    assert!(!text_less("2024-02-01", "2024-01-01"));
    assert!(!text_less("abc", "abc"));
    assert!(text_less("ab", "abc"));
    assert!(text_less("", "a"));
}

#[test]
fn mixed_timestamp_layouts_are_flagged() {
    let same = vec![
        consultation("1", "Ana", "2024-01-01T00:00:00", ""),
        consultation("1", "Ana", "2024-02-01T00:00:00", ""),
    ];
    assert!(timestamps_uniform(&same));
    assert!(reconcile(&same)[0].uniform_timestamps);
    let mixed = vec![
        consultation("1", "Ana", "2024-01-01", ""),
        consultation("1", "Ana", "2024-02-01T00:00:00", ""),
    ];
    assert!(!timestamps_uniform(&mixed));
    assert!(!reconcile(&mixed)[0].uniform_timestamps);
    assert!(timestamps_uniform(&Vec::new()));
}

#[test]
fn same_width_but_different_layout_is_flagged() {
    let mixed = vec![
        consultation("1", "Ana", "2024-01-01T00:00", ""),
        consultation("1", "Ana", "2024/01/01T00:00", ""),
    ];
    assert!(!timestamps_uniform(&mixed));
    let same = vec![
        consultation("1", "Ana", "2024-01-01T00:00", ""),
        consultation("1", "Ana", "2023-12-31T23:59", ""),
    ];
    assert!(timestamps_uniform(&same));
}
