use lab_records::dto::AttendanceQueueQueryInput;
use lab_records::query::{build_queue_query, normalize_text, to_lower_string};
use lab_records::usecases::is_date_only;

const BASE: &str = "SELECT e.id AS attendance_id, e.patient_id AS patient_id, p.full_name AS patient_name, p.cpf AS patient_cpf, e.exam_date AS exam_date, e.status AS status, e.updated_at AS updated_at, ei.name AS exam_name FROM exams e JOIN patients p ON p.id = e.patient_id LEFT JOIN exam_items ei ON ei.exam_id = e.id WHERE 1 = 1";
const ORDER: &str = " ORDER BY e.exam_date DESC, e.created_at DESC, ei.created_at ASC";

#[test]
fn queue_query_without_filters_is_the_fixed_skeleton() {
    let q = build_queue_query(&AttendanceQueueQueryInput {
        date: None,
        status: None,
        query: None,
    });

    assert_eq!(q.sql, format!("{}{}", BASE, ORDER));
    assert!(q.params.is_empty());
}

#[test]
fn queue_query_binds_every_present_filter() {
    let q = build_queue_query(&AttendanceQueueQueryInput {
        date: Some(" 2026-02-17 ".to_string()),
        status: Some("waiting".to_string()),
        query: Some("MaRia".to_string()),
    });

    let expected = format!(
        "{} AND e.exam_date = ? AND e.status = ? AND (lower(p.full_name) LIKE ? OR p.cpf LIKE ? OR lower(e.id) LIKE ? OR lower(coalesce(ei.name, '')) LIKE ?){}",
        BASE, ORDER
    );
    assert_eq!(q.sql, expected);
    assert_eq!(
        q.params,
        vec![
            "2026-02-17".to_string(),
            "waiting".to_string(),
            "%maria%".to_string(),
            "%maria%".to_string(),
            "%maria%".to_string(),
            "%maria%".to_string(),
        ]
    );
}

#[test]
fn blank_filters_contribute_no_predicate() {
    let q = build_queue_query(&AttendanceQueueQueryInput {
        date: Some("  ".to_string()),
        status: None,
        query: Some("".to_string()),
    });

    assert_eq!(q.sql, format!("{}{}", BASE, ORDER));
    assert!(q.params.is_empty());
}

#[test]
fn user_text_never_appears_in_the_statement() {
    let hostile = "x' OR '1'='1".to_string();
    let q = build_queue_query(&AttendanceQueueQueryInput {
        date: None,
        status: None,
        query: Some(hostile.clone()),
    });

    assert!(!q.sql.contains("x'"));
    assert_eq!(q.params.len(), 4);
    assert_eq!(q.params[0], "%x' or '1'='1%");
}

#[test]
fn normalize_text_trims_and_drops_blank_values() {
    assert_eq!(normalize_text(Some("  x  ".to_string())), Some("x".to_string()));
    assert_eq!(normalize_text(Some("   ".to_string())), None);
    assert_eq!(normalize_text(None), None);
    assert_eq!(normalize_text(Some("kept".to_string())), Some("kept".to_string()));
}

#[test]
fn to_lower_string_folds_ascii_only() {
    assert_eq!(to_lower_string("MaRiA 123-XYZ"), "maria 123-xyz");
    assert_eq!(to_lower_string(""), "");
}

#[test]
fn is_date_only_accepts_exactly_the_date_shape() {
    assert!(is_date_only("2026-02-17"));
    assert!(!is_date_only("2026-2-17"));
    assert!(!is_date_only("2026-02-17 "));
    assert!(!is_date_only("2026/02/17"));
    assert!(!is_date_only("20260217xx"));
    assert!(!is_date_only(""));
}
