use lab_records::dto::{
    AttendanceQueueItemView, AttendanceQueueQueryInput, CompleteAttendanceInput,
    CreateAttendanceInput, CreatePatientInput, ExamCatalogItemView, PatientRecordEntryView,
    PatientRecordView,
};
use lab_records::entity::Patient;
use lab_records::errors::{AppError, PatientRepositoryError};
use lab_records::ports::PatientRepository;
use lab_records::usecases::CompleteAttendanceUseCase;

struct StubCompleteAttendanceRepository {
    result: Result<AttendanceQueueItemView, PatientRepositoryError>,
}

impl PatientRepository for StubCompleteAttendanceRepository {
    fn insert(&mut self, _input: CreatePatientInput) -> Result<Patient, PatientRepositoryError> {
        panic!("not used")
    }

    fn list(&self, _query: Option<String>) -> Result<Vec<Patient>, PatientRepositoryError> {
        panic!("not used")
    }

    fn get_patient_record(
        &self,
        _patient_id: String,
    ) -> Result<PatientRecordView, PatientRepositoryError> {
        panic!("not used")
    }

    fn list_exam_catalog(&self) -> Result<Vec<ExamCatalogItemView>, PatientRepositoryError> {
        panic!("not used")
    }

    fn create_attendance(
        &mut self,
        _input: CreateAttendanceInput,
    ) -> Result<PatientRecordEntryView, PatientRepositoryError> {
        panic!("not used")
    }

    fn list_attendance_queue(
        &self,
        _input: AttendanceQueueQueryInput,
    ) -> Result<Vec<AttendanceQueueItemView>, PatientRepositoryError> {
        panic!("not used")
    }

    fn complete_attendance(
        &mut self,
        _input: CompleteAttendanceInput,
    ) -> Result<AttendanceQueueItemView, PatientRepositoryError> {
        self.result.clone()
    }
}

#[test]
fn complete_attendance_requires_attendance_id() {
    let repo = StubCompleteAttendanceRepository {
        result: Err(PatientRepositoryError::PersistenceError),
    };
    let mut use_case = CompleteAttendanceUseCase::new(repo);

    let result = use_case.execute(CompleteAttendanceInput {
        attendance_id: "  ".to_string(),
    });

    assert!(matches!(result, Err(AppError::Validation(msg)) if msg == "attendance_id is required"));
}

#[test]
fn complete_attendance_returns_updated_item() {
    let repo = StubCompleteAttendanceRepository {
        result: Ok(AttendanceQueueItemView {
            attendance_id: "att-1".to_string(),
            patient_id: "pt-1".to_string(),
            patient_name: "Maria".to_string(),
            patient_cpf: "12345678900".to_string(),
            exam_date: "2026-02-14".to_string(),
            status: "completed".to_string(),
            exam_names: vec!["Glicose".to_string()],
            updated_at: "2026-02-14T10:30:00".to_string(),
        }),
    };
    let mut use_case = CompleteAttendanceUseCase::new(repo);

    let result = use_case.execute(CompleteAttendanceInput {
        attendance_id: "att-1".to_string(),
    });

    match result {
        Ok(item) => assert_eq!(item.status, "completed"),
        Err(_) => panic!("expected success"),
    }
}

#[test]
fn complete_attendance_maps_repository_error() {
    let repo = StubCompleteAttendanceRepository {
        result: Err(PatientRepositoryError::NotFound),
    };
    let mut use_case = CompleteAttendanceUseCase::new(repo);

    let result = use_case.execute(CompleteAttendanceInput {
        attendance_id: "missing".to_string(),
    });

    assert!(matches!(result, Err(AppError::Database(msg)) if msg == "attendance not found"));
}
