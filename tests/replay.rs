use mymed::directive::Directive;
use mymed::replay::{apply_directive, replay_directives, Medication};

fn d(a: &str, m: &str, dose: &str) -> Directive {
    Directive { action: a.to_string(), medication: m.to_string(), dosage: dose.to_string() }
}

fn pairs(st: &[Medication]) -> Vec<(String, String)> {
    st.iter().map(|m| (m.name.clone(), m.dosage.clone())).collect()
}

fn p(n: &str, dose: &str) -> (String, String) {
    (n.to_string(), dose.to_string())
}

#[test]
fn prescribe_then_suspend_excludes() {
    let mut st = Vec::new();
    replay_directives(&mut st, &vec![d("PRESCREVO", "X", "10mg"), d("SUSPENDO", "X", "")]);
    assert!(st.is_empty());
}

#[test]
fn suspend_then_prescribe_includes() {
    let mut st = Vec::new();
    replay_directives(&mut st, &vec![d("SUSPENDO", "X", ""), d("PRESCREVO", "X", "10mg")]);
    assert_eq!(pairs(&st), vec![p("X", "10mg")]);
}

#[test]
fn maintain_keeps_existing_dosage() {
    let mut st = vec![Medication { name: "X".to_string(), dosage: "10mg".to_string() }];
    apply_directive(&mut st, &d("MANTENHO", "X", "20mg"));
    assert_eq!(pairs(&st), vec![p("X", "10mg")]);
}

#[test]
fn maintain_inserts_absent() {
    let mut st = Vec::new();
    apply_directive(&mut st, &d("MANTENHO", "X", "5mg"));
    assert_eq!(pairs(&st), vec![p("X", "5mg")]);
}

#[test]
fn suspend_absent_is_noop() {
    let mut st = Vec::new();
    apply_directive(&mut st, &d("SUSPENDO", "Y", ""));
    assert!(st.is_empty());
    let mut st2 = vec![Medication { name: "X".to_string(), dosage: "1mg".to_string() }];
    apply_directive(&mut st2, &d("SUSPENDO", "Y", ""));
    assert_eq!(pairs(&st2), vec![p("X", "1mg")]);
}

#[test]
fn adjust_overwrites_in_place() {
    let mut st = Vec::new();
    replay_directives(
        &mut st,
        &vec![d("PRESCREVO", "A", "1mg"), d("PRESCREVO", "B", "2mg"), d("AJUSTO", "A", "3mg")],
    );
    assert_eq!(pairs(&st), vec![p("A", "3mg"), p("B", "2mg")]);
}

#[test]
fn unknown_action_is_ignored() {
    let mut st = Vec::new();
    apply_directive(&mut st, &d("RECOMENDO", "X", "1mg"));
    assert!(st.is_empty());
}
