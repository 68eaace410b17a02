use lab_records::dto::{AttendanceQueueQueryInput, CompleteAttendanceInput};
use lab_records::entity::Patient;
use lab_records::errors::PatientRepositoryError;
use lab_records::store::{ExamRow, ItemRow, MemoryLab};

fn seeded_lab() -> MemoryLab {
    let mut lab = MemoryLab::new();
    lab.seed_patient(Patient {
        id: "pt-1".to_string(),
        full_name: "Maria Souza".to_string(),
        cpf: "12345678900".to_string(),
        birth_date: "1991-10-01".to_string(),
        sex: "F".to_string(),
        phone: "11999999999".to_string(),
        address: "Rua A".to_string(),
        created_at: "2026-01-01T00:00:00".to_string(),
        updated_at: "2026-01-01T00:00:00".to_string(),
    });
    lab.seed_exam(ExamRow {
        id: "att-1".to_string(),
        patient_id: "pt-1".to_string(),
        requester_id: None,
        exam_date: "2026-02-17".to_string(),
        status: "waiting".to_string(),
        procedure_type: None,
        delivered_to: None,
        notes: None,
        updated_at: "2026-02-17T08:00:00".to_string(),
    });
    lab.seed_exam_item(ItemRow {
        id: "it-1".to_string(),
        exam_id: "att-1".to_string(),
        name: "Glicose".to_string(),
        unit: None,
        method: None,
        reference_range: None,
        result_value: None,
        result_flag: None,
    });
    lab
}

#[test]
fn complete_attendance_updates_status_and_returns_updated_item() {
    let mut repo = seeded_lab();

    let completed = repo
        .complete_attendance(CompleteAttendanceInput {
            attendance_id: "att-1".to_string(),
        })
        .expect("complete should succeed");

    assert_eq!(completed.status, "completed");

    let listed = repo
        .list_attendance_queue(AttendanceQueueQueryInput {
            date: Some("2026-02-17".to_string()),
            status: Some("completed".to_string()),
            query: None,
        })
        .expect("list should succeed");

    assert_eq!(listed.len(), 1);
    assert_eq!(listed[0].attendance_id, "att-1");
}

#[test]
fn complete_attendance_returns_not_found_for_missing_id() {
    let mut repo = seeded_lab();

    let result = repo.complete_attendance(CompleteAttendanceInput {
        attendance_id: "missing".to_string(),
    });

    assert!(matches!(result, Err(PatientRepositoryError::NotFound)));
}

#[test]
fn complete_attendance_twice_keeps_attendance_completed() {
    let mut repo = seeded_lab();

    let first = repo
        .complete_attendance(CompleteAttendanceInput {
            attendance_id: "att-1".to_string(),
        })
        .expect("first completion should succeed");
    assert_eq!(first.status, "completed");

    let second = repo
        .complete_attendance(CompleteAttendanceInput {
            attendance_id: "att-1".to_string(),
        })
        .expect("second completion should succeed");
    assert_eq!(second.status, "completed");

    let listed = repo
        .list_attendance_queue(AttendanceQueueQueryInput {
            date: None,
            status: Some("completed".to_string()),
            query: None,
        })
        .expect("list should succeed");
    assert_eq!(listed.len(), 1);
    assert_eq!(listed[0].attendance_id, "att-1");

    let waiting = repo
        .list_attendance_queue(AttendanceQueueQueryInput {
            date: None,
            status: Some("waiting".to_string()),
            query: None,
        })
        .expect("list should succeed");
    assert!(waiting.is_empty());
}

#[test]
fn complete_attendance_of_missing_id_alters_no_row() {
    let mut repo = seeded_lab();

    let result = repo.complete_attendance(CompleteAttendanceInput {
        attendance_id: "missing".to_string(),
    });
    assert!(matches!(result, Err(PatientRepositoryError::NotFound)));

    let listed = repo
        .list_attendance_queue(AttendanceQueueQueryInput {
            date: None,
            status: Some("waiting".to_string()),
            query: None,
        })
        .expect("list should succeed");
    assert_eq!(listed.len(), 1);
    assert_eq!(listed[0].attendance_id, "att-1");
    assert_eq!(listed[0].updated_at, "2026-02-17T08:00:00");
}
