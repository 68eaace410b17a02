use lab_records::dto::CreatePatientInput;
use lab_records::entity::Patient;
use lab_records::errors::{AppError, PatientDomainError};
use lab_records::store::MemoryLab;
use lab_records::usecases::CreatePatientUseCase;

fn build_input(name: &str, cpf: &str) -> CreatePatientInput {
    CreatePatientInput {
        full_name: name.to_string(),
        cpf: cpf.to_string(),
        birth_date: "1991-10-01".to_string(),
        sex: "F".to_string(),
        phone: "11999999999".to_string(),
        address: "Rua A".to_string(),
    }
}

#[test]
fn create_patient_requires_full_name() {
    let mut use_case = CreatePatientUseCase::new(MemoryLab::new());

    let result = use_case.execute(build_input("   ", "11111111111"));

    assert!(matches!(result, Err(AppError::Validation(msg)) if msg == "full_name is required"));
}

#[test]
fn create_patient_requires_cpf() {
    let mut use_case = CreatePatientUseCase::new(MemoryLab::new());

    let result = use_case.execute(build_input("Maria Silva", "  "));

    assert!(matches!(result, Err(AppError::Validation(msg)) if msg == "cpf is required"));
}

#[test]
fn create_patient_round_trips_fields() {
    let mut use_case = CreatePatientUseCase::new(MemoryLab::new());

    let view = use_case
        .execute(build_input("Maria Silva", "11111111111"))
        .expect("create should succeed");

    assert_eq!(view.full_name, "Maria Silva");
    assert_eq!(view.cpf, "11111111111");
    assert_eq!(view.birth_date, "1991-10-01");
    assert_eq!(view.sex, "F");
    assert_eq!(view.phone, "11999999999");
    assert_eq!(view.address, "Rua A");
    assert!(!view.id.is_empty());
    assert!(!view.created_at.is_empty());
}

#[test]
fn create_patient_maps_duplicate_cpf_to_conflict_message() {
    let mut use_case = CreatePatientUseCase::new(MemoryLab::new());

    use_case
        .execute(build_input("Maria Silva", "11111111111"))
        .expect("first create should succeed");
    let duplicate = use_case.execute(build_input("Joao Souza", "11111111111"));

    assert!(
        matches!(duplicate, Err(AppError::Database(msg)) if msg == "conflict while saving patient")
    );
}

#[test]
fn patient_entity_rejects_blank_name_and_cpf() {
    let blank_name = Patient::new(
        "p1".to_string(),
        " ".to_string(),
        "11111111111".to_string(),
        "1991-10-01".to_string(),
        "F".to_string(),
        "11999999999".to_string(),
        "Rua A".to_string(),
        "t1".to_string(),
        "t1".to_string(),
    );
    assert!(matches!(blank_name, Err(PatientDomainError::FullNameRequired)));

    let blank_cpf = Patient::new(
        "p1".to_string(),
        "Maria".to_string(),
        "\t".to_string(),
        "1991-10-01".to_string(),
        "F".to_string(),
        "11999999999".to_string(),
        "Rua A".to_string(),
        "t1".to_string(),
        "t1".to_string(),
    );
    assert!(matches!(blank_cpf, Err(PatientDomainError::CpfRequired)));
}
