//! The storage port of the repository layer.
//!
//! The facade is a capability, not a concrete type: the verified use cases
//! run against any implementation of `PatientRepository` — the verified
//! in-memory store of this crate, or an external database adapter.  The
//! method contracts state what every backend owes its callers about a
//! successful result; how complete each listing is can only be judged
//! against a backend's own model, and the in-memory store pins it exactly.

use vstd::prelude::*;

use crate::catalog::is_seed_catalog;
use crate::dto::{
    AttendanceQueueItemView, AttendanceQueueQueryInput, CompleteAttendanceInput,
    CreateAttendanceInput, CreateAttendanceItemInput, CreatePatientInput, ExamCatalogItemView,
    PatientRecordEntryView, PatientRecordView, SpecQueueItem, SpecRecordItem,
};
use crate::aggregate::distinct_names;
use crate::entity::Patient;
use crate::errors::PatientRepositoryError;
use crate::query::{effective_query, norm_status, norm_text, patient_matches};

verus! {

/// Whether a queue item satisfies the date and status predicates; the text
/// predicate is a property of the underlying rows, not of the flattened
/// item alone.
pub open spec fn queue_item_passes(
    it: SpecQueueItem,
    date: Option<Seq<char>>,
    status: Option<Seq<char>>,
) -> bool {
    &&& (match date {
        None => true,
        Some(d) => it.exam_date == d,
    })
    &&& (match status {
        None => true,
        Some(st) => it.status == st,
    })
}

/// How a created item view relates to the descriptor it was created from:
/// the name as given, the optional fields normalized, the result fields
/// empty, so no report is available yet.
pub open spec fn item_view_matches(v: SpecRecordItem, descr: CreateAttendanceItemInput) -> bool {
    &&& v.name == descr.name@
    &&& v.unit == norm_text(descr.unit)
    &&& v.method == norm_text(descr.method)
    &&& v.reference_range == norm_text(descr.reference_range)
    &&& v.result_value is None
    &&& v.result_flag is None
    &&& v.report_available == false
}

/// A transactional store of patients, attendances and their items.
///
/// Writes are atomic: either the whole operation is visible to later reads
/// or none of it is.  Every operation returns either a fully-populated
/// value or one error of the repository taxonomy.
pub trait PatientRepository: Sized {
    /// Insert a patient with server-assigned id and timestamps; a
    /// successful result carries the input fields unchanged.
    fn insert(&mut self, input: CreatePatientInput) -> (r: Result<
        Patient,
        PatientRepositoryError,
    >)
        ensures
            r matches Ok(p) ==> (p@.full_name == input.full_name@ && p@.cpf == input.cpf@
                && p@.birth_date == input.birth_date@ && p@.sex == input.sex@ && p@.phone
                == input.phone@ && p@.address == input.address@),
    ;

    /// List patients; every returned patient matches the trimmed, lowered
    /// query, and an absent or blank query constrains nothing.
    fn list(&self, query: Option<String>) -> (r: Result<Vec<Patient>, PatientRepositoryError>)
        ensures
            r matches Ok(ps) ==> forall|i: int|
                0 <= i < ps@.len() ==> (effective_query(query).len() == 0 || patient_matches(
                    #[trigger] ps@[i],
                    effective_query(query),
                )),
    ;

    /// Fetch one patient's historical record; a successful result is the
    /// record of the requested patient.
    fn get_patient_record(&self, patient_id: String) -> (r: Result<
        PatientRecordView,
        PatientRepositoryError,
    >)
        ensures
            r matches Ok(rec) ==> rec@.patient.id == patient_id@,
    ;

    /// The fixed exam-price catalog.
    fn list_exam_catalog(&self) -> (r: Result<Vec<ExamCatalogItemView>, PatientRepositoryError>)
        ensures
            r matches Ok(c) ==> is_seed_catalog(c@),
    ;

    /// Create one attendance with its items atomically; a successful
    /// result carries the given date, the normalized status, and one item
    /// per descriptor in input order, each without a report.
    fn create_attendance(&mut self, input: CreateAttendanceInput) -> (r: Result<
        PatientRecordEntryView,
        PatientRepositoryError,
    >)
        ensures
            r matches Ok(entry) ==> (entry@.exam_date == input.exam_date@ && entry@.status
                == norm_status(input.status) && entry@.items.len() == input.items@.len() && forall|
                k: int,
            |
                0 <= k < entry@.items.len() ==> item_view_matches(
                    #[trigger] entry@.items[k],
                    input.items@[k],
                )),
    ;

    /// List the work queue; every returned item satisfies the normalized
    /// date and status predicates, and its item names are distinct.
    fn list_attendance_queue(&self, input: AttendanceQueueQueryInput) -> (r: Result<
        Vec<AttendanceQueueItemView>,
        PatientRepositoryError,
    >)
        ensures
            r matches Ok(items) ==> forall|i: int|
                0 <= i < items@.len() ==> (queue_item_passes(
                    (#[trigger] items@[i])@,
                    norm_text(input.date),
                    norm_text(input.status),
                ) && distinct_names(items@[i]@.exam_names)),
    ;

    /// Mark an attendance completed and return its refreshed queue view; a
    /// successful result is the requested attendance, completed.
    fn complete_attendance(&mut self, input: CompleteAttendanceInput) -> (r: Result<
        AttendanceQueueItemView,
        PatientRepositoryError,
    >)
        ensures
            r matches Ok(it) ==> (it@.attendance_id == input.attendance_id@ && it@.status
                == "completed"@),
    ;
}

} // verus!
