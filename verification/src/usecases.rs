//! The use-case layer over the storage port: cheap structural validation
//! before any storage work, delegation to the repository, and a one-time
//! mapping of repository errors into caller-facing errors.
//!
//! No partial state is ever created by a request that fails validation:
//! an invalid input is rejected before the repository is touched.

use vstd::prelude::*;

use crate::aggregate::distinct_names;
use crate::catalog::is_seed_catalog;
use crate::dto::{
    AttendanceQueueItemView, AttendanceQueueQueryInput, CompleteAttendanceInput,
    CreateAttendanceInput, CreatePatientInput, ExamCatalogItemView, PatientRecordEntryView,
    PatientRecordView, PatientView, SpecPatientView,
};
use crate::entity::Patient;
use crate::errors::{AppError, PatientDomainError, PatientRepositoryError};
use crate::ports::{item_view_matches, queue_item_passes, PatientRepository};
use crate::query::{effective_query, norm_status, norm_text};
use crate::text::{contains_seq, is_blank, is_blank_str, lower_seq, str_eq};

verus! {

/// A decimal digit.
pub open spec fn is_digit_char(c: char) -> bool {
    '0' <= c && c <= '9'
}

/// The `YYYY-MM-DD` shape: exactly ten characters, digits and dashes in
/// the fixed layout.
pub open spec fn is_date_shape(s: Seq<char>) -> bool {
    &&& s.len() == 10
    &&& is_digit_char(s[0])
    &&& is_digit_char(s[1])
    &&& is_digit_char(s[2])
    &&& is_digit_char(s[3])
    &&& s[4] == '-'
    &&& is_digit_char(s[5])
    &&& is_digit_char(s[6])
    &&& s[7] == '-'
    &&& is_digit_char(s[8])
    &&& is_digit_char(s[9])
}

/// Whether the text is exactly a `YYYY-MM-DD` date.
pub fn is_date_only(value: &str) -> (r: bool)
    ensures
        r == is_date_shape(value@),
{
    if value.unicode_len() != 10 {
        return false;
    }
    let c0 = value.get_char(0);
    let c1 = value.get_char(1);
    let c2 = value.get_char(2);
    let c3 = value.get_char(3);
    let c4 = value.get_char(4);
    let c5 = value.get_char(5);
    let c6 = value.get_char(6);
    let c7 = value.get_char(7);
    let c8 = value.get_char(8);
    let c9 = value.get_char(9);
    digit(c0) && digit(c1) && digit(c2) && digit(c3) && c4 == '-' && digit(c5) && digit(c6)
        && c7 == '-' && digit(c8) && digit(c9)
}

fn digit(c: char) -> (r: bool)
    ensures
        r == is_digit_char(c),
{
    let u = c as u32;
    48 <= u && u <= 57
}

/// Whether a patient view matches a (lowered, trimmed, non-empty) listing
/// query, by the same rule the storage layer filters with.
pub open spec fn view_matches_query(v: SpecPatientView, q: Seq<char>) -> bool {
    contains_seq(lower_seq(v.full_name), q) || contains_seq(lower_seq(v.cpf), q)
}

fn to_view(p: &Patient) -> (r: PatientView)
    ensures
        r@.id == p@.id,
        r@.full_name == p@.full_name,
        r@.cpf == p@.cpf,
        r@.birth_date == p@.birth_date,
        r@.sex == p@.sex,
        r@.phone == p@.phone,
        r@.address == p@.address,
        r@.created_at == p@.created_at,
        r@.updated_at == p@.updated_at,
{
    PatientView {
        id: p.id.clone(),
        full_name: p.full_name.clone(),
        cpf: p.cpf.clone(),
        birth_date: p.birth_date.clone(),
        sex: p.sex.clone(),
        phone: p.phone.clone(),
        address: p.address.clone(),
        created_at: p.created_at.clone(),
        updated_at: p.updated_at.clone(),
    }
}

/// Creates patients: validates the structural preconditions, inserts, and
/// revalidates the persisted entity.
pub struct CreatePatientUseCase<R: PatientRepository> {
    repo: R,
}

fn validate_create_input(input: &CreatePatientInput) -> (r: Result<(), AppError>)
    ensures
        is_blank(input.full_name@) ==> (r matches Err(AppError::Validation(m)) && m@
            == "full_name is required"@),
        !is_blank(input.full_name@) && is_blank(input.cpf@) ==> (r matches Err(
            AppError::Validation(m),
        ) && m@ == "cpf is required"@),
        !is_blank(input.full_name@) && !is_blank(input.cpf@) ==> r is Ok,
{
    if is_blank_str(input.full_name.as_str()) {
        return Err(AppError::Validation("full_name is required".to_owned()));
    }
    if is_blank_str(input.cpf.as_str()) {
        return Err(AppError::Validation("cpf is required".to_owned()));
    }
    Ok(())
}

fn map_domain_error(err: PatientDomainError) -> (r: AppError)
    ensures
        err == PatientDomainError::FullNameRequired ==> (r matches AppError::Validation(m) && m@
            == "full_name is required"@),
        err == PatientDomainError::CpfRequired ==> (r matches AppError::Validation(m) && m@
            == "cpf is required"@),
{
    match err {
        PatientDomainError::FullNameRequired => AppError::Validation(
            "full_name is required".to_owned(),
        ),
        PatientDomainError::CpfRequired => AppError::Validation("cpf is required".to_owned()),
    }
}

fn map_create_patient_error(err: PatientRepositoryError) -> (r: AppError)
    ensures
        r matches AppError::Database(m) && (m@ == "failed to persist patient"@ || m@
            == "conflict while saving patient"@ || m@ == "patient not found"@),
{
    match err {
        PatientRepositoryError::PersistenceError => AppError::Database(
            "failed to persist patient".to_owned(),
        ),
        PatientRepositoryError::Conflict => AppError::Database(
            "conflict while saving patient".to_owned(),
        ),
        PatientRepositoryError::NotFound => AppError::Database("patient not found".to_owned()),
    }
}

impl<R: PatientRepository> CreatePatientUseCase<R> {
    pub fn new(repo: R) -> (r: Self) {
        CreatePatientUseCase { repo }
    }

    /// Validate, persist, and return the created patient; on success every
    /// input field is round-tripped unchanged.
    pub fn execute(&mut self, input: CreatePatientInput) -> (r: Result<PatientView, AppError>)
        ensures
            is_blank(input.full_name@) ==> (r matches Err(AppError::Validation(m)) && m@
                == "full_name is required"@),
            !is_blank(input.full_name@) && is_blank(input.cpf@) ==> (r matches Err(
                AppError::Validation(m),
            ) && m@ == "cpf is required"@),
            !is_blank(input.full_name@) && !is_blank(input.cpf@) ==> (match r {
                Ok(v) => v@.full_name == input.full_name@ && v@.cpf == input.cpf@ && v@.birth_date
                    == input.birth_date@ && v@.sex == input.sex@ && v@.phone == input.phone@
                    && v@.address == input.address@,
                Err(e) => e matches AppError::Database(m) && (m@ == "failed to persist patient"@
                    || m@ == "conflict while saving patient"@ || m@ == "patient not found"@),
            }),
    {
        match validate_create_input(&input) {
            Ok(()) => {},
            Err(e) => {
                return Err(e);
            },
        }
        let persisted = match self.repo.insert(input) {
            Ok(p) => p,
            Err(e) => {
                return Err(map_create_patient_error(e));
            },
        };
        let patient = match Patient::new(
            persisted.id,
            persisted.full_name,
            persisted.cpf,
            persisted.birth_date,
            persisted.sex,
            persisted.phone,
            persisted.address,
            persisted.created_at,
            persisted.updated_at,
        ) {
            Ok(p) => p,
            Err(e) => {
                return Err(map_domain_error(e));
            },
        };
        Ok(to_view(&patient))
    }
}

/// Lists patients, optionally filtered by a substring of the name or of
/// the identifier.
pub struct ListPatientsUseCase<R: PatientRepository> {
    repo: R,
}

fn map_list_patients_error(err: PatientRepositoryError) -> (r: AppError)
    ensures
        r matches AppError::Database(m) && (m@ == "failed to fetch patients"@ || m@
            == "conflict while fetching patients"@ || m@ == "patient not found"@),
{
    match err {
        PatientRepositoryError::PersistenceError => AppError::Database(
            "failed to fetch patients".to_owned(),
        ),
        PatientRepositoryError::Conflict => AppError::Database(
            "conflict while fetching patients".to_owned(),
        ),
        PatientRepositoryError::NotFound => AppError::Database("patient not found".to_owned()),
    }
}

impl<R: PatientRepository> ListPatientsUseCase<R> {
    pub fn new(repo: R) -> (r: Self) {
        ListPatientsUseCase { repo }
    }

    /// List patients as views; every returned view matches the query.
    pub fn execute(&self, query: Option<String>) -> (r: Result<Vec<PatientView>, AppError>)
        ensures
            (match r {
                Ok(vs) => forall|i: int|
                    0 <= i < vs@.len() ==> (effective_query(query).len() == 0 || view_matches_query(
                        (#[trigger] vs@[i])@,
                        effective_query(query),
                    )),
                Err(e) => e matches AppError::Database(m) && (m@ == "failed to fetch patients"@
                    || m@ == "conflict while fetching patients"@ || m@ == "patient not found"@),
            }),
    {
        let patients = match self.repo.list(query) {
            Ok(ps) => ps,
            Err(e) => {
                return Err(map_list_patients_error(e));
            },
        };
        let mut out: Vec<PatientView> = Vec::new();
        let mut i: usize = 0;
        while i < patients.len()
            invariant
                0 <= i <= patients@.len(),
                forall|k: int|
                    0 <= k < patients@.len() ==> (effective_query(query).len() == 0
                        || crate::query::patient_matches(
                        #[trigger] patients@[k],
                        effective_query(query),
                    )),
                out@.len() == i,
                forall|k: int|
                    0 <= k < i ==> (effective_query(query).len() == 0 || view_matches_query(
                        (#[trigger] out@[k])@,
                        effective_query(query),
                    )),
            decreases patients@.len() - i,
        {
            let v = to_view(&patients[i]);
            out.push(v);
            i += 1;
        }
        Ok(out)
    }
}

/// Fetches one patient's full historical record.
pub struct GetPatientRecordUseCase<R: PatientRepository> {
    repo: R,
}

fn map_record_error(err: PatientRepositoryError) -> (r: AppError)
    ensures
        r matches AppError::Database(m) && (m@ == "failed to fetch patient record"@ || m@
            == "patient not found"@ || m@ == "conflict while fetching patient record"@),
{
    match err {
        PatientRepositoryError::PersistenceError => AppError::Database(
            "failed to fetch patient record".to_owned(),
        ),
        PatientRepositoryError::NotFound => AppError::Database("patient not found".to_owned()),
        PatientRepositoryError::Conflict => AppError::Database(
            "conflict while fetching patient record".to_owned(),
        ),
    }
}

impl<R: PatientRepository> GetPatientRecordUseCase<R> {
    pub fn new(repo: R) -> (r: Self) {
        GetPatientRecordUseCase { repo }
    }

    /// Validate the id and fetch the record of that patient.
    pub fn execute(&self, patient_id: String) -> (r: Result<PatientRecordView, AppError>)
        ensures
            is_blank(patient_id@) ==> (r matches Err(AppError::Validation(m)) && m@
                == "patient_id is required"@),
            !is_blank(patient_id@) ==> (match r {
                Ok(rec) => rec@.patient.id == patient_id@,
                Err(e) => e matches AppError::Database(m) && (m@
                    == "failed to fetch patient record"@ || m@ == "patient not found"@ || m@
                    == "conflict while fetching patient record"@),
            }),
    {
        if is_blank_str(patient_id.as_str()) {
            return Err(AppError::Validation("patient_id is required".to_owned()));
        }
        match self.repo.get_patient_record(patient_id) {
            Ok(rec) => Ok(rec),
            Err(e) => Err(map_record_error(e)),
        }
    }
}

/// Lists the static exam catalog.
pub struct ListExamCatalogUseCase<R: PatientRepository> {
    repo: R,
}

fn map_catalog_error(err: PatientRepositoryError) -> (r: AppError)
    ensures
        r matches AppError::Database(m) && (m@ == "failed to fetch exam catalog"@ || m@
            == "exam catalog not found"@ || m@ == "conflict while fetching exam catalog"@),
{
    match err {
        PatientRepositoryError::PersistenceError => AppError::Database(
            "failed to fetch exam catalog".to_owned(),
        ),
        PatientRepositoryError::NotFound => AppError::Database("exam catalog not found".to_owned()),
        PatientRepositoryError::Conflict => AppError::Database(
            "conflict while fetching exam catalog".to_owned(),
        ),
    }
}

impl<R: PatientRepository> ListExamCatalogUseCase<R> {
    pub fn new(repo: R) -> (r: Self) {
        ListExamCatalogUseCase { repo }
    }

    /// The seeded catalog.
    pub fn execute(&self) -> (r: Result<Vec<ExamCatalogItemView>, AppError>)
        ensures
            (match r {
                Ok(c) => is_seed_catalog(c@),
                Err(e) => e matches AppError::Database(m) && (m@ == "failed to fetch exam catalog"@
                    || m@ == "exam catalog not found"@ || m@
                    == "conflict while fetching exam catalog"@),
            }),
    {
        match self.repo.list_exam_catalog() {
            Ok(c) => Ok(c),
            Err(e) => Err(map_catalog_error(e)),
        }
    }
}

/// Creates one attendance with its line items atomically.
pub struct CreateAttendanceUseCase<R: PatientRepository> {
    repo: R,
}

fn map_create_attendance_error(err: PatientRepositoryError) -> (r: AppError)
    ensures
        r matches AppError::Database(m) && (m@ == "failed to create attendance"@ || m@
            == "patient not found"@ || m@ == "conflict while creating attendance"@),
{
    match err {
        PatientRepositoryError::PersistenceError => AppError::Database(
            "failed to create attendance".to_owned(),
        ),
        PatientRepositoryError::NotFound => AppError::Database("patient not found".to_owned()),
        PatientRepositoryError::Conflict => AppError::Database(
            "conflict while creating attendance".to_owned(),
        ),
    }
}

impl<R: PatientRepository> CreateAttendanceUseCase<R> {
    pub fn new(repo: R) -> (r: Self) {
        CreateAttendanceUseCase { repo }
    }

    /// Validate the structural preconditions and create the attendance; on
    /// success the returned entry carries the given date, the normalized
    /// status, and one report-less item per descriptor, in input order.
    pub fn execute(&mut self, input: CreateAttendanceInput) -> (r: Result<
        PatientRecordEntryView,
        AppError,
    >)
        ensures
            is_blank(input.patient_id@) ==> (r matches Err(AppError::Validation(m)) && m@
                == "patient_id is required"@),
            !is_blank(input.patient_id@) && is_blank(input.exam_date@) ==> (r matches Err(
                AppError::Validation(m),
            ) && m@ == "exam_date is required"@),
            !is_blank(input.patient_id@) && !is_blank(input.exam_date@) && input.items@.len() == 0
                ==> (r matches Err(AppError::Validation(m)) && m@ == "items is required"@),
            !is_blank(input.patient_id@) && !is_blank(input.exam_date@) && input.items@.len() > 0
                ==> (match r {
                Ok(entry) => entry@.exam_date == input.exam_date@ && entry@.status == norm_status(
                    input.status,
                ) && entry@.items.len() == input.items@.len() && forall|k: int|
                    0 <= k < entry@.items.len() ==> item_view_matches(
                        #[trigger] entry@.items[k],
                        input.items@[k],
                    ),
                Err(e) => e matches AppError::Database(m) && (m@ == "failed to create attendance"@
                    || m@ == "patient not found"@ || m@ == "conflict while creating attendance"@),
            }),
    {
        if is_blank_str(input.patient_id.as_str()) {
            return Err(AppError::Validation("patient_id is required".to_owned()));
        }
        if is_blank_str(input.exam_date.as_str()) {
            return Err(AppError::Validation("exam_date is required".to_owned()));
        }
        if input.items.len() == 0 {
            return Err(AppError::Validation("items is required".to_owned()));
        }
        match self.repo.create_attendance(input) {
            Ok(entry) => Ok(entry),
            Err(e) => Err(map_create_attendance_error(e)),
        }
    }
}

/// Lists the attendance work queue under validated filters.
pub struct ListAttendanceQueueUseCase<R: PatientRepository> {
    repo: R,
}

fn map_queue_error(err: PatientRepositoryError) -> (r: AppError)
    ensures
        r matches AppError::Database(m) && (m@ == "failed to fetch attendance queue"@ || m@
            == "attendance not found"@ || m@ == "conflict while fetching attendance queue"@),
{
    match err {
        PatientRepositoryError::PersistenceError => AppError::Database(
            "failed to fetch attendance queue".to_owned(),
        ),
        PatientRepositoryError::NotFound => AppError::Database("attendance not found".to_owned()),
        PatientRepositoryError::Conflict => AppError::Database(
            "conflict while fetching attendance queue".to_owned(),
        ),
    }
}

impl<R: PatientRepository> ListAttendanceQueueUseCase<R> {
    pub fn new(repo: R) -> (r: Self) {
        ListAttendanceQueueUseCase { repo }
    }

    /// Reject a malformed date or status filter before any query runs;
    /// otherwise list the queue, where every returned item satisfies the
    /// normalized predicates.
    pub fn execute(&self, input: AttendanceQueueQueryInput) -> (r: Result<
        Vec<AttendanceQueueItemView>,
        AppError,
    >)
        ensures
            (input.date matches Some(d) && !is_date_shape(d@)) ==> (r matches Err(
                AppError::Validation(m),
            ) && m@ == "date must be YYYY-MM-DD"@),
            !(input.date matches Some(d) && !is_date_shape(d@)) && (input.status matches Some(st)
                && st@ != "waiting"@ && st@ != "completed"@) ==> (r matches Err(
                AppError::Validation(m),
            ) && m@ == "status must be waiting or completed"@),
            !(input.date matches Some(d) && !is_date_shape(d@)) && !(input.status matches Some(st)
                && st@ != "waiting"@ && st@ != "completed"@) ==> (match r {
                Ok(items) => forall|i: int|
                    0 <= i < items@.len() ==> (queue_item_passes(
                        (#[trigger] items@[i])@,
                        norm_text(input.date),
                        norm_text(input.status),
                    ) && distinct_names(items@[i]@.exam_names)),
                Err(e) => e matches AppError::Database(m) && (m@
                    == "failed to fetch attendance queue"@ || m@ == "attendance not found"@ || m@
                    == "conflict while fetching attendance queue"@),
            }),
    {
        match &input.date {
            Some(d) => {
                if !is_date_only(d.as_str()) {
                    return Err(AppError::Validation("date must be YYYY-MM-DD".to_owned()));
                }
            },
            None => {},
        }
        match &input.status {
            Some(st) => {
                if !str_eq(st.as_str(), "waiting") && !str_eq(st.as_str(), "completed") {
                    return Err(
                        AppError::Validation("status must be waiting or completed".to_owned()),
                    );
                }
            },
            None => {},
        }
        match self.repo.list_attendance_queue(input) {
            Ok(items) => Ok(items),
            Err(e) => Err(map_queue_error(e)),
        }
    }
}

/// Marks an attendance completed.
pub struct CompleteAttendanceUseCase<R: PatientRepository> {
    repo: R,
}

fn map_complete_error(err: PatientRepositoryError) -> (r: AppError)
    ensures
        r matches AppError::Database(m) && (m@ == "failed to complete attendance"@ || m@
            == "attendance not found"@ || m@ == "conflict while completing attendance"@),
{
    match err {
        PatientRepositoryError::PersistenceError => AppError::Database(
            "failed to complete attendance".to_owned(),
        ),
        PatientRepositoryError::NotFound => AppError::Database("attendance not found".to_owned()),
        PatientRepositoryError::Conflict => AppError::Database(
            "conflict while completing attendance".to_owned(),
        ),
    }
}

impl<R: PatientRepository> CompleteAttendanceUseCase<R> {
    pub fn new(repo: R) -> (r: Self) {
        CompleteAttendanceUseCase { repo }
    }

    /// Validate the id and complete the attendance; a successful result is
    /// the requested attendance in the queue-view shape, completed.
    pub fn execute(&mut self, input: CompleteAttendanceInput) -> (r: Result<
        AttendanceQueueItemView,
        AppError,
    >)
        ensures
            is_blank(input.attendance_id@) ==> (r matches Err(AppError::Validation(m)) && m@
                == "attendance_id is required"@),
            !is_blank(input.attendance_id@) ==> (match r {
                Ok(it) => it@.attendance_id == input.attendance_id@ && it@.status == "completed"@,
                Err(e) => e matches AppError::Database(m) && (m@
                    == "failed to complete attendance"@ || m@ == "attendance not found"@ || m@
                    == "conflict while completing attendance"@),
            }),
    {
        if is_blank_str(input.attendance_id.as_str()) {
            return Err(AppError::Validation("attendance_id is required".to_owned()));
        }
        match self.repo.complete_attendance(input) {
            Ok(it) => Ok(it),
            Err(e) => Err(map_complete_error(e)),
        }
    }
}

/// The assembled application state: one use case per exposed operation,
/// each owning its repository handle.
pub struct AppState<R: PatientRepository> {
    pub create_patient_use_case: CreatePatientUseCase<R>,
    pub list_patients_use_case: ListPatientsUseCase<R>,
    pub get_patient_record_use_case: GetPatientRecordUseCase<R>,
    pub list_exam_catalog_use_case: ListExamCatalogUseCase<R>,
    pub create_attendance_use_case: CreateAttendanceUseCase<R>,
    pub list_attendance_queue_use_case: ListAttendanceQueueUseCase<R>,
    pub complete_attendance_use_case: CompleteAttendanceUseCase<R>,
}

} // verus!
