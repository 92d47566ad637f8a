use mymed::field::extract_field;

#[test]
fn field_found_and_trimmed() {
    let s = "CPF:  123.456.789-00  \nNome: Ana Souza\n";
    assert_eq!(extract_field(s, "CPF:"), Some("123.456.789-00".to_string()));
    assert_eq!(extract_field(s, "Nome:"), Some("Ana Souza".to_string()));
}

#[test]
fn field_first_occurrence_wins() {
    let s = "Nome: first\nNome: second\n";
    assert_eq!(extract_field(s, "Nome:"), Some("first".to_string()));
}

#[test]
fn field_absent_is_none() {
    let s = "CPF: 1\nNome: Ana\n";
    assert_eq!(extract_field(s, "Idade:"), None);
    assert_eq!(extract_field("", "CPF:"), None);
}

#[test]
fn field_is_case_sensitive_and_anchored() {
    let s = "cpf: 1\n  CPF: 2\nX CPF: 3\n";
    assert_eq!(extract_field(s, "CPF:"), None);
}

#[test]
fn field_strips_carriage_return() {
    let s = "CPF: 42\r\nNome: Bia\r\n";
    assert_eq!(extract_field(s, "CPF:"), Some("42".to_string()));
    assert_eq!(extract_field(s, "Nome:"), Some("Bia".to_string()));
}

#[test]
fn field_empty_value() {
    assert_eq!(extract_field("Nome:\n", "Nome:"), Some(String::new()));
}

#[test]
fn lone_carriage_return_on_last_line_is_kept() {
    // a '\r' is dropped only before a '\n', as `str::lines` does
    assert_eq!(extract_field("A\r", "A\r"), Some(String::new()));
    assert_eq!(extract_field("A\r\n", "A\r"), None);
}
