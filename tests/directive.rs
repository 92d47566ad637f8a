use mymed::directive::{parse_directives, Directive};

fn triple(d: &Directive) -> (String, String, String) {
    (d.action.clone(), d.medication.clone(), d.dosage.clone())
}

fn t(a: &str, m: &str, d: &str) -> (String, String, String) {
    (a.to_string(), m.to_string(), d.to_string())
}

#[test]
fn bracketed_form_with_dosage() {
    let ds = parse_directives("!PRESCREVO [Losartan] [50mg]");
    assert_eq!(ds.iter().map(triple).collect::<Vec<_>>(), vec![t("PRESCREVO", "Losartan", "50mg")]);
}

#[test]
fn bracketed_form_without_dosage() {
    let ds = parse_directives("!SUSPENDO [Losartan Potassico]");
    assert_eq!(ds.iter().map(triple).collect::<Vec<_>>(), vec![t("SUSPENDO", "Losartan Potassico", "")]);
}

#[test]
fn plain_form_with_rest_as_dosage() {
    let ds = parse_directives("!ajusto Metformina 850 mg 2x ao dia");
    assert_eq!(
        ds.iter().map(triple).collect::<Vec<_>>(),
        vec![t("AJUSTO", "Metformina", "850 mg 2x ao dia")]
    );
}

#[test]
fn plain_form_without_dosage() {
    let ds = parse_directives("!SUSPENDO Losartan");
    assert_eq!(ds.iter().map(triple).collect::<Vec<_>>(), vec![t("SUSPENDO", "Losartan", "")]);
}

#[test]
fn prose_and_malformed_segments_are_dropped() {
    let ds = parse_directives("Paciente estavel; !; !PRESCREVO; Cuidado!; !MANTENHO [AAS] [100mg]");
    assert_eq!(ds.iter().map(triple).collect::<Vec<_>>(), vec![t("MANTENHO", "AAS", "100mg")]);
}

#[test]
fn directives_keep_source_order() {
    let ds = parse_directives("!SUSPENDO Losartan; !PRESCREVO [Enalapril] [10mg]");
    assert_eq!(
        ds.iter().map(triple).collect::<Vec<_>>(),
        vec![t("SUSPENDO", "Losartan", ""), t("PRESCREVO", "Enalapril", "10mg")]
    );
}

#[test]
fn empty_plan_has_no_directives() {
    assert!(parse_directives("").is_empty());
    assert!(parse_directives("   ").is_empty());
}
