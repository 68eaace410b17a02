use lab_records::dto::{
    AttendanceQueueItemView, AttendanceQueueQueryInput, CompleteAttendanceInput,
    CreateAttendanceInput, CreatePatientInput, ExamCatalogItemView, PatientRecordEntryView,
    PatientRecordView,
};
use lab_records::entity::Patient;
use lab_records::errors::{AppError, PatientRepositoryError};
use lab_records::ports::PatientRepository;
use lab_records::usecases::ListPatientsUseCase;

struct StubListRepository {
    data: Vec<Patient>,
}

impl PatientRepository for StubListRepository {
    fn insert(&mut self, _input: CreatePatientInput) -> Result<Patient, PatientRepositoryError> {
        Err(PatientRepositoryError::PersistenceError)
    }

    fn list(&self, query: Option<String>) -> Result<Vec<Patient>, PatientRepositoryError> {
        let q = query.unwrap_or_default().to_lowercase();
        if q.trim().is_empty() {
            return Ok(self.data.clone());
        }

        Ok(self
            .data
            .iter()
            .filter(|p| p.full_name.to_lowercase().contains(&q) || p.cpf.contains(&q))
            .cloned()
            .collect())
    }

    fn get_patient_record(
        &self,
        _patient_id: String,
    ) -> Result<PatientRecordView, PatientRepositoryError> {
        panic!("not used")
    }

    fn list_exam_catalog(&self) -> Result<Vec<ExamCatalogItemView>, PatientRepositoryError> {
        panic!("not used")
    }

    fn create_attendance(
        &mut self,
        _input: CreateAttendanceInput,
    ) -> Result<PatientRecordEntryView, PatientRepositoryError> {
        panic!("not used")
    }

    fn list_attendance_queue(
        &self,
        _input: AttendanceQueueQueryInput,
    ) -> Result<Vec<AttendanceQueueItemView>, PatientRepositoryError> {
        panic!("not used")
    }

    fn complete_attendance(
        &mut self,
        _input: CompleteAttendanceInput,
    ) -> Result<AttendanceQueueItemView, PatientRepositoryError> {
        panic!("not used")
    }
}

fn mk_patient(id: &str, full_name: &str, cpf: &str) -> Patient {
    Patient {
        id: id.to_string(),
        full_name: full_name.to_string(),
        cpf: cpf.to_string(),
        birth_date: "1990-01-01T00:00:00".to_string(),
        sex: "F".to_string(),
        phone: "11999999999".to_string(),
        address: "Rua A, 1".to_string(),
        created_at: "2026-01-01T00:00:00".to_string(),
        updated_at: "2026-01-01T00:00:00".to_string(),
    }
}

#[test]
fn list_patients_returns_all_when_query_is_none() {
    let repo = StubListRepository {
        data: vec![
            mk_patient("1", "Maria Silva", "11111111111"),
            mk_patient("2", "Joao Souza", "22222222222"),
        ],
    };
    let use_case = ListPatientsUseCase::new(repo);

    let result = use_case.execute(None);

    match result {
        Ok(items) => {
            assert_eq!(items.len(), 2);
            assert_eq!(items[0].cpf, "11111111111");
            assert_eq!(items[1].cpf, "22222222222");
        }
        Err(_) => panic!("expected success"),
    }
}

#[test]
fn list_patients_filters_by_name_or_cpf() {
    let repo = StubListRepository {
        data: vec![
            mk_patient("1", "Maria Silva", "11111111111"),
            mk_patient("2", "Joao Souza", "22222222222"),
        ],
    };
    let use_case = ListPatientsUseCase::new(repo);

    let by_name = use_case.execute(Some("maria".to_string()));
    let by_cpf = use_case.execute(Some("2222".to_string()));

    match by_name {
        Ok(items) => assert_eq!(items.len(), 1),
        Err(_) => panic!("expected success"),
    }
    match by_cpf {
        Ok(items) => assert_eq!(items.len(), 1),
        Err(_) => panic!("expected success"),
    }
}

struct ErrRepo;

impl PatientRepository for ErrRepo {
    fn insert(&mut self, _input: CreatePatientInput) -> Result<Patient, PatientRepositoryError> {
        Err(PatientRepositoryError::PersistenceError)
    }

    fn list(&self, _query: Option<String>) -> Result<Vec<Patient>, PatientRepositoryError> {
        Err(PatientRepositoryError::PersistenceError)
    }

    fn get_patient_record(
        &self,
        _patient_id: String,
    ) -> Result<PatientRecordView, PatientRepositoryError> {
        panic!("not used")
    }

    fn list_exam_catalog(&self) -> Result<Vec<ExamCatalogItemView>, PatientRepositoryError> {
        panic!("not used")
    }

    fn create_attendance(
        &mut self,
        _input: CreateAttendanceInput,
    ) -> Result<PatientRecordEntryView, PatientRepositoryError> {
        panic!("not used")
    }

    fn list_attendance_queue(
        &self,
        _input: AttendanceQueueQueryInput,
    ) -> Result<Vec<AttendanceQueueItemView>, PatientRepositoryError> {
        panic!("not used")
    }

    fn complete_attendance(
        &mut self,
        _input: CompleteAttendanceInput,
    ) -> Result<AttendanceQueueItemView, PatientRepositoryError> {
        panic!("not used")
    }
}

#[test]
fn list_patients_maps_repository_error() {
    let use_case = ListPatientsUseCase::new(ErrRepo);
    let result = use_case.execute(None);

    assert!(matches!(result, Err(AppError::Database(msg)) if msg == "failed to fetch patients"));
}
