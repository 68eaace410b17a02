//! Inputs and view objects crossing the repository boundary, together with
//! their abstract values (character sequences in place of strings).
//!
//! All entities are returned by value; no shared mutable state escapes the
//! layer.

use vstd::prelude::*;

verus! {

/// The abstract value of an optional text field.
pub open spec fn opt_text(o: Option<String>) -> Option<Seq<char>> {
    match o {
        Some(s) => Some(s@),
        None => None,
    }
}

/// Clone an optional text field, preserving its value.
pub fn clone_opt(o: &Option<String>) -> (r: Option<String>)
    ensures
        r == *o,
{
    match o {
        Some(s) => Some(s.clone()),
        None => None,
    }
}

/// Request to create a patient.  Name and identifier must be non-blank; the
/// remaining fields are stored as given.
#[derive(Clone, Debug)]
pub struct CreatePatientInput {
    pub full_name: String,
    pub cpf: String,
    pub birth_date: String,
    pub sex: String,
    pub phone: String,
    pub address: String,
}

/// A patient as presented to callers.
#[derive(Clone, Debug)]
pub struct PatientView {
    pub id: String,
    pub full_name: String,
    pub cpf: String,
    pub birth_date: String,
    pub sex: String,
    pub phone: String,
    pub address: String,
    pub created_at: String,
    pub updated_at: String,
}

/// Request to create an attendance together with its line items.
#[derive(Clone, Debug)]
pub struct CreateAttendanceInput {
    pub patient_id: String,
    pub exam_date: String,
    pub requester_id: Option<String>,
    pub status: Option<String>,
    pub procedure_type: Option<String>,
    pub delivered_to: Option<String>,
    pub notes: Option<String>,
    pub items: Vec<CreateAttendanceItemInput>,
}

/// One line item of an attendance creation request.
#[derive(Clone, Debug)]
pub struct CreateAttendanceItemInput {
    pub name: String,
    pub unit: Option<String>,
    pub method: Option<String>,
    pub reference_range: Option<String>,
}

/// Request to mark an attendance as completed.
#[derive(Clone, Debug)]
pub struct CompleteAttendanceInput {
    pub attendance_id: String,
}

/// Optional filters of the attendance queue: exact date, exact status, and
/// a case-insensitive text search.
#[derive(Clone, Debug)]
pub struct AttendanceQueueQueryInput {
    pub date: Option<String>,
    pub status: Option<String>,
    pub query: Option<String>,
}

/// One priced entry of the static exam catalog.
#[derive(Clone, Debug)]
pub struct ExamCatalogItemView {
    pub id: String,
    pub name: String,
    pub category_id: String,
    pub category_title: String,
    pub price_cents: i64,
}

/// A patient's full historical record: the patient plus one entry per
/// attendance, most recent exam date first.
#[derive(Clone, Debug)]
pub struct PatientRecordView {
    pub patient: PatientView,
    pub entries: Vec<PatientRecordEntryView>,
}

/// One attendance inside a patient record, carrying its line items in
/// creation order.
#[derive(Clone, Debug)]
pub struct PatientRecordEntryView {
    pub exam_id: String,
    pub exam_date: String,
    pub status: String,
    pub requester_name: Option<String>,
    pub items: Vec<PatientRecordExamItemView>,
}

/// One line item inside a patient record entry.  A report is available
/// exactly when a result value or a result flag is present.
#[derive(Clone, Debug)]
pub struct PatientRecordExamItemView {
    pub exam_item_id: String,
    pub name: String,
    pub unit: Option<String>,
    pub method: Option<String>,
    pub reference_range: Option<String>,
    pub result_value: Option<String>,
    pub result_flag: Option<String>,
    pub report_available: bool,
}

/// One attendance in the work-queue view: the attendance flattened with its
/// owning patient's name and identifier and the distinct names of its items.
#[derive(Clone, Debug)]
pub struct AttendanceQueueItemView {
    pub attendance_id: String,
    pub patient_id: String,
    pub patient_name: String,
    pub patient_cpf: String,
    pub exam_date: String,
    pub status: String,
    pub exam_names: Vec<String>,
    pub updated_at: String,
}

/// Abstract value of [`PatientView`].
#[verifier::ext_equal]
pub struct SpecPatientView {
    pub id: Seq<char>,
    pub full_name: Seq<char>,
    pub cpf: Seq<char>,
    pub birth_date: Seq<char>,
    pub sex: Seq<char>,
    pub phone: Seq<char>,
    pub address: Seq<char>,
    pub created_at: Seq<char>,
    pub updated_at: Seq<char>,
}

impl View for PatientView {
    type V = SpecPatientView;

    open spec fn view(&self) -> SpecPatientView {
        SpecPatientView {
            id: self.id@,
            full_name: self.full_name@,
            cpf: self.cpf@,
            birth_date: self.birth_date@,
            sex: self.sex@,
            phone: self.phone@,
            address: self.address@,
            created_at: self.created_at@,
            updated_at: self.updated_at@,
        }
    }
}

/// Abstract value of [`PatientRecordExamItemView`].
#[verifier::ext_equal]
pub struct SpecRecordItem {
    pub exam_item_id: Seq<char>,
    pub name: Seq<char>,
    pub unit: Option<Seq<char>>,
    pub method: Option<Seq<char>>,
    pub reference_range: Option<Seq<char>>,
    pub result_value: Option<Seq<char>>,
    pub result_flag: Option<Seq<char>>,
    pub report_available: bool,
}

impl View for PatientRecordExamItemView {
    type V = SpecRecordItem;

    open spec fn view(&self) -> SpecRecordItem {
        SpecRecordItem {
            exam_item_id: self.exam_item_id@,
            name: self.name@,
            unit: opt_text(self.unit),
            method: opt_text(self.method),
            reference_range: opt_text(self.reference_range),
            result_value: opt_text(self.result_value),
            result_flag: opt_text(self.result_flag),
            report_available: self.report_available,
        }
    }
}

/// Abstract value of [`PatientRecordEntryView`].
#[verifier::ext_equal]
pub struct SpecRecordEntry {
    pub exam_id: Seq<char>,
    pub exam_date: Seq<char>,
    pub status: Seq<char>,
    pub requester_name: Option<Seq<char>>,
    pub items: Seq<SpecRecordItem>,
}

impl View for PatientRecordEntryView {
    type V = SpecRecordEntry;

    open spec fn view(&self) -> SpecRecordEntry {
        SpecRecordEntry {
            exam_id: self.exam_id@,
            exam_date: self.exam_date@,
            status: self.status@,
            requester_name: opt_text(self.requester_name),
            items: self.items@.map_values(|it: PatientRecordExamItemView| it@),
        }
    }
}

/// Abstract value of [`PatientRecordView`].
#[verifier::ext_equal]
pub struct SpecRecord {
    pub patient: SpecPatientView,
    pub entries: Seq<SpecRecordEntry>,
}

impl View for PatientRecordView {
    type V = SpecRecord;

    open spec fn view(&self) -> SpecRecord {
        SpecRecord {
            patient: self.patient@,
            entries: self.entries@.map_values(|e: PatientRecordEntryView| e@),
        }
    }
}

/// Abstract value of [`AttendanceQueueItemView`].
#[verifier::ext_equal]
pub struct SpecQueueItem {
    pub attendance_id: Seq<char>,
    pub patient_id: Seq<char>,
    pub patient_name: Seq<char>,
    pub patient_cpf: Seq<char>,
    pub exam_date: Seq<char>,
    pub status: Seq<char>,
    pub exam_names: Seq<Seq<char>>,
    pub updated_at: Seq<char>,
}

impl View for AttendanceQueueItemView {
    type V = SpecQueueItem;

    open spec fn view(&self) -> SpecQueueItem {
        SpecQueueItem {
            attendance_id: self.attendance_id@,
            patient_id: self.patient_id@,
            patient_name: self.patient_name@,
            patient_cpf: self.patient_cpf@,
            exam_date: self.exam_date@,
            status: self.status@,
            exam_names: self.exam_names@.map_values(|n: String| n@),
            updated_at: self.updated_at@,
        }
    }
}

} // verus!
