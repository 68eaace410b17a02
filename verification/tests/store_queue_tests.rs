use lab_records::dto::AttendanceQueueQueryInput;
use lab_records::entity::Patient;
use lab_records::store::{ExamRow, ItemRow, MemoryLab};

fn mk_patient(id: &str, full_name: &str, cpf: &str, birth_date: &str, sex: &str) -> Patient {
    Patient {
        id: id.to_string(),
        full_name: full_name.to_string(),
        cpf: cpf.to_string(),
        birth_date: birth_date.to_string(),
        sex: sex.to_string(),
        phone: "11999999999".to_string(),
        address: "Rua A".to_string(),
        created_at: "2026-01-01T00:00:00".to_string(),
        updated_at: "2026-01-01T00:00:00".to_string(),
    }
}

fn mk_exam(id: &str, patient_id: &str, exam_date: &str, status: &str) -> ExamRow {
    ExamRow {
        id: id.to_string(),
        patient_id: patient_id.to_string(),
        requester_id: None,
        exam_date: exam_date.to_string(),
        status: status.to_string(),
        procedure_type: None,
        delivered_to: None,
        notes: None,
        updated_at: "2026-02-17T08:00:00".to_string(),
    }
}

fn mk_item(id: &str, exam_id: &str, name: &str) -> ItemRow {
    ItemRow {
        id: id.to_string(),
        exam_id: exam_id.to_string(),
        name: name.to_string(),
        unit: None,
        method: None,
        reference_range: None,
        result_value: None,
        result_flag: None,
    }
}

fn seeded_lab() -> MemoryLab {
    let mut lab = MemoryLab::new();
    lab.seed_patient(mk_patient("pt-1", "Maria Souza", "12345678900", "1991-10-01", "F"));
    lab.seed_patient(mk_patient("pt-2", "Joao Silva", "11122233344", "1992-11-01", "M"));
    lab.seed_exam(mk_exam("att-1", "pt-1", "2026-02-17", "waiting"));
    lab.seed_exam(mk_exam("att-2", "pt-2", "2026-02-17", "completed"));
    lab.seed_exam(mk_exam("att-3", "pt-1", "2026-02-18", "waiting"));
    lab.seed_exam_item(mk_item("it-1", "att-1", "Glicose"));
    lab.seed_exam_item(mk_item("it-2", "att-1", "Colesterol Total"));
    lab.seed_exam_item(mk_item("it-3", "att-2", "Hemograma Completo"));
    lab.seed_exam_item(mk_item("it-4", "att-3", "Beta HCG"));
    lab
}

#[test]
fn list_attendance_queue_filters_by_date_status_and_query() {
    let repo = seeded_lab();

    let listed = repo
        .list_attendance_queue(AttendanceQueueQueryInput {
            date: Some("2026-02-17".to_string()),
            status: Some("waiting".to_string()),
            query: Some("maria".to_string()),
        })
        .expect("list should succeed");

    assert_eq!(listed.len(), 1);
    assert_eq!(listed[0].attendance_id, "att-1");
    assert_eq!(listed[0].exam_names.len(), 2);
}

#[test]
fn list_attendance_queue_returns_empty_when_no_match() {
    let repo = seeded_lab();

    let listed = repo
        .list_attendance_queue(AttendanceQueueQueryInput {
            date: Some("2026-02-19".to_string()),
            status: Some("waiting".to_string()),
            query: None,
        })
        .expect("list should succeed");

    assert!(listed.is_empty());
}

#[test]
fn list_attendance_queue_orders_newest_date_first() {
    let repo = seeded_lab();

    let listed = repo
        .list_attendance_queue(AttendanceQueueQueryInput {
            date: None,
            status: None,
            query: None,
        })
        .expect("list should succeed");

    assert_eq!(listed.len(), 3);
    assert_eq!(listed[0].attendance_id, "att-3");
    assert_eq!(listed[1].attendance_id, "att-2");
    assert_eq!(listed[2].attendance_id, "att-1");
}

#[test]
fn queue_text_filter_matches_item_name_case_insensitively() {
    let repo = seeded_lab();

    let listed = repo
        .list_attendance_queue(AttendanceQueueQueryInput {
            date: None,
            status: None,
            query: Some("GLICOSE".to_string()),
        })
        .expect("list should succeed");

    assert_eq!(listed.len(), 1);
    assert_eq!(listed[0].attendance_id, "att-1");
    assert_eq!(listed[0].exam_names, vec!["Glicose".to_string()]);
}

#[test]
fn queue_deduplicates_repeated_item_names() {
    let mut repo = seeded_lab();
    repo.seed_exam_item(mk_item("it-5", "att-1", "Glicose"));

    let listed = repo
        .list_attendance_queue(AttendanceQueueQueryInput {
            date: Some("2026-02-17".to_string()),
            status: Some("waiting".to_string()),
            query: None,
        })
        .expect("list should succeed");

    assert_eq!(listed.len(), 1);
    assert_eq!(
        listed[0].exam_names,
        vec!["Glicose".to_string(), "Colesterol Total".to_string()]
    );
}

#[test]
fn queue_shows_attendance_without_items_as_empty_list() {
    let mut repo = seeded_lab();
    repo.seed_exam(mk_exam("att-4", "pt-2", "2026-02-20", "waiting"));

    let listed = repo
        .list_attendance_queue(AttendanceQueueQueryInput {
            date: Some("2026-02-20".to_string()),
            status: None,
            query: None,
        })
        .expect("list should succeed");

    assert_eq!(listed.len(), 1);
    assert_eq!(listed[0].attendance_id, "att-4");
    assert!(listed[0].exam_names.is_empty());
}

#[test]
fn blank_queue_filters_constrain_nothing() {
    let repo = seeded_lab();

    let listed = repo
        .list_attendance_queue(AttendanceQueueQueryInput {
            date: Some("   ".to_string()),
            status: Some("".to_string()),
            query: Some("  ".to_string()),
        })
        .expect("list should succeed");

    assert_eq!(listed.len(), 3);
}
