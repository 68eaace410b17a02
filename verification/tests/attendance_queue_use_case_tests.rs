use lab_records::dto::{
    AttendanceQueueItemView, AttendanceQueueQueryInput, CompleteAttendanceInput,
    CreateAttendanceInput, CreatePatientInput, ExamCatalogItemView, PatientRecordEntryView,
    PatientRecordView,
};
use lab_records::entity::Patient;
use lab_records::errors::{AppError, PatientRepositoryError};
use lab_records::ports::PatientRepository;
use lab_records::usecases::ListAttendanceQueueUseCase;

struct StubAttendanceQueueRepository {
    result: Result<Vec<AttendanceQueueItemView>, PatientRepositoryError>,
}

impl PatientRepository for StubAttendanceQueueRepository {
    fn insert(&mut self, _input: CreatePatientInput) -> Result<Patient, PatientRepositoryError> {
        panic!("not used")
    }

    fn list(&self, _query: Option<String>) -> Result<Vec<Patient>, PatientRepositoryError> {
        panic!("not used")
    }

    fn get_patient_record(
        &self,
        _patient_id: String,
    ) -> Result<PatientRecordView, PatientRepositoryError> {
        panic!("not used")
    }

    fn list_exam_catalog(&self) -> Result<Vec<ExamCatalogItemView>, PatientRepositoryError> {
        panic!("not used")
    }

    fn create_attendance(
        &mut self,
        _input: CreateAttendanceInput,
    ) -> Result<PatientRecordEntryView, PatientRepositoryError> {
        panic!("not used")
    }

    fn list_attendance_queue(
        &self,
        _input: AttendanceQueueQueryInput,
    ) -> Result<Vec<AttendanceQueueItemView>, PatientRepositoryError> {
        self.result.clone()
    }

    fn complete_attendance(
        &mut self,
        _input: CompleteAttendanceInput,
    ) -> Result<AttendanceQueueItemView, PatientRepositoryError> {
        panic!("not used")
    }
}

#[test]
fn list_attendance_queue_returns_items() {
    let repo = StubAttendanceQueueRepository {
        result: Ok(vec![AttendanceQueueItemView {
            attendance_id: "att-1".to_string(),
            patient_id: "pt-1".to_string(),
            patient_name: "Maria".to_string(),
            patient_cpf: "12345678900".to_string(),
            exam_date: "2026-02-14".to_string(),
            status: "waiting".to_string(),
            exam_names: vec!["Glicose".to_string()],
            updated_at: "2026-02-14T09:00:00".to_string(),
        }]),
    };
    let use_case = ListAttendanceQueueUseCase::new(repo);

    let result = use_case.execute(AttendanceQueueQueryInput {
        date: Some("2026-02-14".to_string()),
        status: Some("waiting".to_string()),
        query: None,
    });

    match result {
        Ok(items) => {
            assert_eq!(items.len(), 1);
            assert_eq!(items[0].attendance_id, "att-1");
        }
        Err(_) => panic!("expected success"),
    }
}

#[test]
fn list_attendance_queue_rejects_invalid_status() {
    let repo = StubAttendanceQueueRepository { result: Ok(vec![]) };
    let use_case = ListAttendanceQueueUseCase::new(repo);

    let result = use_case.execute(AttendanceQueueQueryInput {
        date: None,
        status: Some("done".to_string()),
        query: None,
    });

    assert!(
        matches!(result, Err(AppError::Validation(msg)) if msg == "status must be waiting or completed")
    );
}

#[test]
fn list_attendance_queue_rejects_invalid_date() {
    let repo = StubAttendanceQueueRepository { result: Ok(vec![]) };
    let use_case = ListAttendanceQueueUseCase::new(repo);

    let result = use_case.execute(AttendanceQueueQueryInput {
        date: Some("2026-2-17".to_string()),
        status: None,
        query: None,
    });

    assert!(matches!(result, Err(AppError::Validation(msg)) if msg == "date must be YYYY-MM-DD"));
}

#[test]
fn list_attendance_queue_maps_repository_error() {
    let repo = StubAttendanceQueueRepository {
        result: Err(PatientRepositoryError::PersistenceError),
    };
    let use_case = ListAttendanceQueueUseCase::new(repo);

    let result = use_case.execute(AttendanceQueueQueryInput {
        date: None,
        status: None,
        query: None,
    });

    assert!(
        matches!(result, Err(AppError::Database(msg)) if msg == "failed to fetch attendance queue")
    );
}
