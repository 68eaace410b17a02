use lab_records::dto::CreatePatientInput;
use lab_records::errors::PatientRepositoryError;
use lab_records::store::MemoryLab;

fn build_input(name: &str, cpf: &str) -> CreatePatientInput {
    CreatePatientInput {
        full_name: name.to_string(),
        cpf: cpf.to_string(),
        birth_date: "1991-10-01T00:00:00".to_string(),
        sex: "M".to_string(),
        phone: "5511988887777".to_string(),
        address: "Street 2".to_string(),
    }
}

#[test]
fn list_returns_inserted_patients() {
    let mut repo = MemoryLab::new();

    repo.insert(build_input("Maria Silva", "11111111111"))
        .expect("insert 1 should succeed");
    repo.insert(build_input("Joao Souza", "22222222222"))
        .expect("insert 2 should succeed");

    let listed = repo.list(None).expect("list should succeed");

    assert_eq!(listed.len(), 2);
    assert!(!listed[0].birth_date.is_empty());
    assert!(!listed[0].sex.is_empty());
    assert!(!listed[0].phone.is_empty());
    assert!(!listed[0].address.is_empty());
}

#[test]
fn list_filters_by_name_and_cpf() {
    let mut repo = MemoryLab::new();

    repo.insert(build_input("Maria Silva", "11111111111"))
        .expect("insert 1 should succeed");
    repo.insert(build_input("Joao Souza", "22222222222"))
        .expect("insert 2 should succeed");

    let by_name = repo
        .list(Some("maria".to_string()))
        .expect("list by name should succeed");
    let by_cpf = repo
        .list(Some("2222".to_string()))
        .expect("list by cpf should succeed");

    assert_eq!(by_name.len(), 1);
    assert_eq!(by_name[0].full_name, "Maria Silva");
    assert_eq!(by_cpf.len(), 1);
    assert_eq!(by_cpf[0].cpf, "22222222222");
}

#[test]
fn insert_round_trips_fields_and_assigns_id() {
    let mut repo = MemoryLab::new();

    let created = repo
        .insert(build_input("Maria Silva", "11111111111"))
        .expect("insert should succeed");

    assert_eq!(created.id, "p1");
    assert_eq!(created.full_name, "Maria Silva");
    assert_eq!(created.cpf, "11111111111");
    assert_eq!(created.birth_date, "1991-10-01T00:00:00");
    assert_eq!(created.sex, "M");
    assert_eq!(created.phone, "5511988887777");
    assert_eq!(created.address, "Street 2");
    assert!(!created.created_at.is_empty());
    assert_eq!(created.created_at, created.updated_at);

    let listed = repo.list(None).expect("list should succeed");
    assert_eq!(listed.len(), 1);
    assert_eq!(listed[0].id, created.id);
    assert_eq!(listed[0].full_name, "Maria Silva");
    assert_eq!(listed[0].cpf, "11111111111");
}

#[test]
fn insert_rejects_duplicate_cpf_with_conflict() {
    let mut repo = MemoryLab::new();

    repo.insert(build_input("Maria Silva", "11111111111"))
        .expect("insert should succeed");
    let duplicate = repo.insert(build_input("Other Name", "11111111111"));

    assert!(matches!(duplicate, Err(PatientRepositoryError::Conflict)));
    assert_eq!(repo.list(None).expect("list should succeed").len(), 1);
}

#[test]
fn blank_list_query_returns_all_patients() {
    let mut repo = MemoryLab::new();

    repo.insert(build_input("Maria Silva", "11111111111"))
        .expect("insert 1 should succeed");
    repo.insert(build_input("Joao Souza", "22222222222"))
        .expect("insert 2 should succeed");

    let listed = repo
        .list(Some("   ".to_string()))
        .expect("list should succeed");

    assert_eq!(listed.len(), 2);
}

#[test]
fn list_returns_most_recently_inserted_first() {
    let mut repo = MemoryLab::new();

    repo.insert(build_input("Maria Silva", "11111111111"))
        .expect("insert 1 should succeed");
    repo.insert(build_input("Joao Souza", "22222222222"))
        .expect("insert 2 should succeed");

    let listed = repo.list(None).expect("list should succeed");

    assert_eq!(listed[0].cpf, "22222222222");
    assert_eq!(listed[1].cpf, "11111111111");
}
