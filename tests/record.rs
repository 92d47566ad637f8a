use mymed::record::{parse_med_file, parse_patient_from_med, parse_record};

const TODAY: i32 = 738886; // 2024-01-01

fn document(plan: &str) -> String {
    format!(
        "[PATIENT]\nCPF: 111.222.333-44\nNome: Ana Souza\nIdade: 30\n\
         [DOCTOR]\nCRM: 12345-SP\nNome: Dr. Paulo\nEspecialidade: Cardiologia\n\
         [TRANSACTION]\nTimestamp: 2024-01-01T00:00:00\n\
         [CONTRACT_CONDITIONS]\nTermos padrao\n\
         [HIPOTESE DIAGNOSTICA]\nHipertensao arterial\n\n\
         [CONDUTA]\n{}",
        plan
    )
}

#[test]
fn parses_a_complete_record() {
    let c = parse_record(&document("!PRESCREVO Losartan 50mg"), TODAY).unwrap();
    assert_eq!(c.patient.id, "111.222.333-44");
    assert_eq!(c.patient.name, "Ana Souza");
    assert_eq!(c.patient.birth_date, "1994-01-08");
    assert_eq!(c.practitioner.license_id, "12345-SP");
    assert_eq!(c.practitioner.name, "Dr. Paulo");
    assert_eq!(c.practitioner.specialty, "Cardiologia");
    assert_eq!(c.timestamp, "2024-01-01T00:00:00");
    assert_eq!(c.source, "");
    assert_eq!(c.diagnostic_hypothesis, "Hipertensao arterial");
    assert_eq!(c.treatment_plan, "!PRESCREVO Losartan 50mg");
}

#[test]
fn plan_stops_at_blank_line() {
    let c = parse_record(&document("!SUSPENDO Losartan\n\nObservacoes finais"), TODAY).unwrap();
    assert_eq!(c.treatment_plan, "!SUSPENDO Losartan");
}

#[test]
fn plan_keeps_bracketed_directives() {
    let c = parse_record(&document("!PRESCREVO [Losartan] [50mg]"), TODAY).unwrap();
    assert_eq!(c.treatment_plan, "!PRESCREVO [Losartan] [50mg]");
}

#[test]
fn plan_stops_at_next_section_marker() {
    let c = parse_record(&document("!SUSPENDO Losartan\n[HIPOTESE DIAGNOSTICA]\nOutra"), TODAY).unwrap();
    assert_eq!(c.treatment_plan, "!SUSPENDO Losartan");
}

#[test]
fn hypothesis_runs_to_end_of_input() {
    let doc = "[PATIENT]\nCPF: 123\nNome: Ana\nIdade: 40\n[DOCTOR]\nCRM: 9\nNome: Rui\n\
               Especialidade: Cardio\n[TRANSACTION]\nTimestamp: 2024-01-01T00:00:00\n\
               [CONTRACT_CONDITIONS]\nok\n\n[HIPOTESE DIAGNOSTICA]\nHipertensao";
    let c = parse_record(doc, TODAY).unwrap();
    assert_eq!(c.diagnostic_hypothesis, "Hipertensao");
    assert_eq!(c.treatment_plan, "");
}

#[test]
fn end_to_end_from_documents() {
    let first = document("!PRESCREVO [Losartan] [50mg]");
    let second = document("!SUSPENDO Losartan; !PRESCREVO [Enalapril] [10mg]")
        .replace("2024-01-01T00:00:00", "2024-02-01T00:00:00");
    let cs = vec![parse_record(&second, TODAY).unwrap(), parse_record(&first, TODAY).unwrap()];
    let r = mymed::reconcile::reconcile(&cs);
    assert_eq!(r.len(), 1);
    let meds: Vec<(String, String)> =
        r[0].medications.iter().map(|m| (m.name.clone(), m.dosage.clone())).collect();
    assert_eq!(meds, vec![("Enalapril".to_string(), "10mg".to_string())]);
    assert_eq!(r[0].start_date, "2024-01-01T00:00:00");
}

#[test]
fn optional_sections_default_to_empty() {
    let doc = "[PATIENT]\nCPF: 1\nNome: B\nIdade: 40\n[DOCTOR]\nCRM: 2\nNome: C\nEspecialidade: D\n\
               [TRANSACTION]\nTimestamp: 2024-03-01T10:00:00\n[CONTRACT_CONDITIONS]\n";
    let c = parse_record(doc, TODAY).unwrap();
    assert_eq!(c.diagnostic_hypothesis, "");
    assert_eq!(c.treatment_plan, "");
}

#[test]
fn non_numeric_age_counts_as_zero() {
    let doc = document("").replace("Idade: 30", "Idade: trinta");
    let c = parse_record(&doc, TODAY).unwrap();
    assert_eq!(c.patient.birth_date, "2024-01-01");
}

#[test]
fn missing_required_field_rejects_record() {
    for label in ["CPF:", "Idade:", "CRM:", "Especialidade:", "Timestamp:"] {
        let doc = document("").replace(label, "Outro:");
        assert!(parse_record(&doc, TODAY).is_none(), "{}", label);
    }
}

#[test]
fn missing_section_rejects_record() {
    let doc = document("").replace("[CONTRACT_CONDITIONS]", "[TERMS]");
    assert!(parse_record(&doc, TODAY).is_none());
    assert!(parse_record("", TODAY).is_none());
}

#[test]
fn parse_with_clock_gives_the_record() {
    let c = parse_med_file(&document("!PRESCREVO [Losartan] [50mg]")).unwrap().unwrap();
    assert_eq!(c.patient.id, "111.222.333-44");
    assert_eq!(c.treatment_plan, "!PRESCREVO [Losartan] [50mg]");
    assert_eq!(c.patient.birth_date.len(), 10);
    let missing = document("").replace("CRM:", "Outro:");
    assert!(parse_med_file(&missing).unwrap().is_none());
    let p = parse_patient_from_med(&document("")).unwrap().unwrap();
    assert_eq!(p.name, "Ana Souza");
}
