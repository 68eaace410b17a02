use lab_records::dto::{CreateAttendanceInput, CreateAttendanceItemInput};
use lab_records::entity::Patient;
use lab_records::errors::PatientRepositoryError;
use lab_records::store::{ExamRow, MemoryLab, RequesterRow};

fn seeded_patient_lab() -> MemoryLab {
    let mut lab = MemoryLab::new();
    lab.seed_patient(Patient {
        id: "pt-1".to_string(),
        full_name: "Maria Souza".to_string(),
        cpf: "12345678900".to_string(),
        birth_date: "1991-10-01".to_string(),
        sex: "F".to_string(),
        phone: "11999999999".to_string(),
        address: "Rua A".to_string(),
        created_at: "2026-01-01T00:00:00".to_string(),
        updated_at: "2026-01-01T00:00:00".to_string(),
    });
    lab
}

#[test]
fn create_attendance_and_get_record_work_together() {
    let mut repo = seeded_patient_lab();

    let created = repo
        .create_attendance(CreateAttendanceInput {
            patient_id: "pt-1".to_string(),
            exam_date: "2026-02-14".to_string(),
            requester_id: None,
            status: None,
            procedure_type: None,
            delivered_to: None,
            notes: None,
            items: vec![
                CreateAttendanceItemInput {
                    name: "Glicose".to_string(),
                    unit: Some("mg/dL".to_string()),
                    method: None,
                    reference_range: Some("70-99".to_string()),
                },
                CreateAttendanceItemInput {
                    name: "Colesterol Total".to_string(),
                    unit: Some("mg/dL".to_string()),
                    method: None,
                    reference_range: Some("<190".to_string()),
                },
            ],
        })
        .expect("create attendance should succeed");

    assert_eq!(created.status, "waiting");
    assert_eq!(created.items.len(), 2);

    let record = repo
        .get_patient_record("pt-1".to_string())
        .expect("get patient record should succeed");

    assert_eq!(record.patient.id, "pt-1");
    assert_eq!(record.entries.len(), 1);
    assert_eq!(record.entries[0].exam_id, created.exam_id);
    assert_eq!(record.entries[0].items.len(), 2);
}

#[test]
fn list_exam_catalog_returns_seed_items() {
    let repo = MemoryLab::new();

    let catalog = repo.list_exam_catalog().expect("catalog should load");

    assert!(!catalog.is_empty());
    assert!(catalog.iter().any(|item| item.id == "glicose"));
}

#[test]
fn exam_catalog_has_six_priced_entries() {
    let repo = MemoryLab::new();

    let catalog = repo.list_exam_catalog().expect("catalog should load");

    assert_eq!(catalog.len(), 6);
    assert_eq!(catalog[0].id, "glicose");
    assert_eq!(catalog[0].name, "Glicose");
    assert_eq!(catalog[0].category_id, "bioquimica");
    assert_eq!(catalog[0].category_title, "Bioquimica");
    assert_eq!(catalog[0].price_cents, 1000);
    assert_eq!(catalog[3].id, "ureia-creatinina");
    assert_eq!(catalog[3].price_cents, 2500);
    assert_eq!(catalog[5].id, "beta-hcg");
    assert_eq!(catalog[5].name, "Beta HCG Qualitativo");
}

#[test]
fn create_attendance_preserves_item_order_and_normalizes_fields() {
    let mut repo = seeded_patient_lab();

    let created = repo
        .create_attendance(CreateAttendanceInput {
            patient_id: "pt-1".to_string(),
            exam_date: "2026-02-14".to_string(),
            requester_id: None,
            status: Some("  ".to_string()),
            procedure_type: Some(" routine ".to_string()),
            delivered_to: None,
            notes: None,
            items: vec![
                CreateAttendanceItemInput {
                    name: "Glicose".to_string(),
                    unit: Some(" mg/dL ".to_string()),
                    method: None,
                    reference_range: None,
                },
                CreateAttendanceItemInput {
                    name: "Colesterol Total".to_string(),
                    unit: None,
                    method: Some("enzimatico".to_string()),
                    reference_range: None,
                },
            ],
        })
        .expect("create attendance should succeed");

    assert_eq!(created.status, "waiting");
    assert_eq!(created.exam_date, "2026-02-14");
    assert_eq!(created.items[0].name, "Glicose");
    assert_eq!(created.items[0].unit, Some("mg/dL".to_string()));
    assert_eq!(created.items[0].result_value, None);
    assert_eq!(created.items[0].result_flag, None);
    assert!(!created.items[0].report_available);
    assert_eq!(created.items[1].name, "Colesterol Total");
    assert_eq!(created.items[1].method, Some("enzimatico".to_string()));
}

#[test]
fn create_attendance_resolves_requester_name() {
    let mut repo = seeded_patient_lab();
    repo.seed_requester(RequesterRow {
        id: "rq-1".to_string(),
        name: "Dr. Souza".to_string(),
    });

    let created = repo
        .create_attendance(CreateAttendanceInput {
            patient_id: "pt-1".to_string(),
            exam_date: "2026-02-14".to_string(),
            requester_id: Some("rq-1".to_string()),
            status: None,
            procedure_type: None,
            delivered_to: None,
            notes: None,
            items: vec![CreateAttendanceItemInput {
                name: "Glicose".to_string(),
                unit: None,
                method: None,
                reference_range: None,
            }],
        })
        .expect("create attendance should succeed");

    assert_eq!(created.requester_name, Some("Dr. Souza".to_string()));
}

#[test]
fn create_attendance_tolerates_missing_requester() {
    let mut repo = seeded_patient_lab();

    let created = repo
        .create_attendance(CreateAttendanceInput {
            patient_id: "pt-1".to_string(),
            exam_date: "2026-02-14".to_string(),
            requester_id: Some("rq-unknown".to_string()),
            status: None,
            procedure_type: None,
            delivered_to: None,
            notes: None,
            items: vec![CreateAttendanceItemInput {
                name: "Glicose".to_string(),
                unit: None,
                method: None,
                reference_range: None,
            }],
        })
        .expect("create attendance should succeed");

    assert_eq!(created.requester_name, None);
}

#[test]
fn create_attendance_for_missing_patient_fails_and_stores_nothing() {
    let mut repo = seeded_patient_lab();

    let result = repo.create_attendance(CreateAttendanceInput {
        patient_id: "pt-missing".to_string(),
        exam_date: "2026-02-14".to_string(),
        requester_id: None,
        status: None,
        procedure_type: None,
        delivered_to: None,
        notes: None,
        items: vec![CreateAttendanceItemInput {
            name: "Glicose".to_string(),
            unit: None,
            method: None,
            reference_range: None,
        }],
    });

    assert!(matches!(
        result,
        Err(PatientRepositoryError::PersistenceError)
    ));

    let record = repo
        .get_patient_record("pt-1".to_string())
        .expect("get patient record should succeed");
    assert!(record.entries.is_empty());
}

#[test]
fn get_record_returns_not_found_for_missing_patient() {
    let repo = seeded_patient_lab();

    let result = repo.get_patient_record("pt-missing".to_string());

    assert!(matches!(result, Err(PatientRepositoryError::NotFound)));
}

#[test]
fn record_shows_attendance_without_items_as_empty_entry() {
    let mut repo = seeded_patient_lab();
    repo.seed_exam(ExamRow {
        id: "att-1".to_string(),
        patient_id: "pt-1".to_string(),
        requester_id: None,
        exam_date: "2026-02-17".to_string(),
        status: "waiting".to_string(),
        procedure_type: None,
        delivered_to: None,
        notes: None,
        updated_at: "2026-02-17T08:00:00".to_string(),
    });

    let record = repo
        .get_patient_record("pt-1".to_string())
        .expect("get patient record should succeed");

    assert_eq!(record.entries.len(), 1);
    assert_eq!(record.entries[0].exam_id, "att-1");
    assert!(record.entries[0].items.is_empty());
}

#[test]
fn record_orders_entries_newest_exam_date_first() {
    let mut repo = seeded_patient_lab();

    repo.create_attendance(CreateAttendanceInput {
        patient_id: "pt-1".to_string(),
        exam_date: "2026-02-14".to_string(),
        requester_id: None,
        status: None,
        procedure_type: None,
        delivered_to: None,
        notes: None,
        items: vec![CreateAttendanceItemInput {
            name: "Glicose".to_string(),
            unit: None,
            method: None,
            reference_range: None,
        }],
    })
    .expect("create attendance 1 should succeed");

    repo.create_attendance(CreateAttendanceInput {
        patient_id: "pt-1".to_string(),
        exam_date: "2026-02-16".to_string(),
        requester_id: None,
        status: None,
        procedure_type: None,
        delivered_to: None,
        notes: None,
        items: vec![CreateAttendanceItemInput {
            name: "Hemograma Completo".to_string(),
            unit: None,
            method: None,
            reference_range: None,
        }],
    })
    .expect("create attendance 2 should succeed");

    let record = repo
        .get_patient_record("pt-1".to_string())
        .expect("get patient record should succeed");

    assert_eq!(record.entries.len(), 2);
    assert_eq!(record.entries[0].exam_date, "2026-02-16");
    assert_eq!(record.entries[1].exam_date, "2026-02-14");
}
