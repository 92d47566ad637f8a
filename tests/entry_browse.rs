use mymed::browse::{list_step, ListAction, ListKey};
use mymed::entry::birth_input_to_iso;
use mymed::record::parse_patient;

#[test]
fn birth_input_is_reordered() {
    assert_eq!(birth_input_to_iso("20/05/1990"), Some("1990-05-20".to_string()));
    assert_eq!(birth_input_to_iso("15/03/1980"), Some("1980-03-15".to_string()));
}

#[test]
fn birth_input_accepts_any_unicode_decimal_digit() {
    // '\u{0661}' is ARABIC-INDIC DIGIT ONE, a decimal digit of `\d`
    assert_eq!(
        birth_input_to_iso("\u{0661}5/03/1980"),
        Some("1980-03-\u{0661}5".to_string())
    );
    assert_eq!(birth_input_to_iso("1a/03/1980"), None);
    assert_eq!(birth_input_to_iso("15-03-1980"), None);
}

#[test]
fn birth_input_of_wrong_shape_is_rejected() {
    assert_eq!(birth_input_to_iso("1990-05-20"), None);
    assert_eq!(birth_input_to_iso("2/5/1990"), None);
    assert_eq!(birth_input_to_iso("20/05/1990 "), None);
    assert_eq!(birth_input_to_iso(""), None);
}

#[test]
fn list_moves_and_stops_at_ends() {
    assert_eq!(list_step(0, 3, ListKey::Up), ListAction::Show(0));
    assert_eq!(list_step(1, 3, ListKey::Up), ListAction::Show(0));
    assert_eq!(list_step(1, 3, ListKey::Down), ListAction::Show(2));
    assert_eq!(list_step(2, 3, ListKey::Down), ListAction::Show(2));
    assert_eq!(list_step(2, 3, ListKey::Enter), ListAction::Open(2));
    assert_eq!(list_step(2, 3, ListKey::Quit), ListAction::Leave);
    assert_eq!(list_step(1, 3, ListKey::Other), ListAction::Show(1));
}

#[test]
fn patient_import_requires_numeric_age() {
    let doc = "[PATIENT]\nCPF: 9\nNome: Caio\nIdade: 30\n[DOCTOR]\n";
    let p = parse_patient(doc, 738886).unwrap();
    assert_eq!(p.id, "9");
    assert_eq!(p.name, "Caio");
    assert_eq!(p.birth_date, "1994-01-08");
    assert!(parse_patient(&doc.replace("30", "trinta"), 738886).is_none());
    assert!(parse_patient(&doc.replace("[DOCTOR]", ""), 738886).is_none());
}
