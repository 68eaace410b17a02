//! The verified in-memory storage backend.
//!
//! `MemoryLab` holds the four relational tables as plain vectors in
//! insertion order, assigns identifiers and logical timestamps from its own
//! counters, and implements every repository operation against an abstract
//! model (`LabModel`) of the stored rows.  Row creation order is the vector
//! position, which stands in for the creation timestamp of an on-disk
//! store; view ordering and filtering are specified over that model.

use vstd::prelude::*;

use crate::aggregate::{
    fold_queue_rows, fold_record_rows, queue_fold, queue_items_view, queue_rows_view, record_fold,
    record_rows_view, QueueRow, RecordItemRow, RecordRow, SpecQueueRow, SpecRecordRow,
    SpecRecordRowItem,
};
use crate::catalog::{is_seed_catalog, seed_catalog};
use crate::dto::{
    clone_opt, opt_text, AttendanceQueueItemView, AttendanceQueueQueryInput,
    CompleteAttendanceInput, CreateAttendanceInput, CreateAttendanceItemInput, CreatePatientInput,
    ExamCatalogItemView,
    PatientRecordEntryView, PatientRecordExamItemView, PatientRecordView, PatientView,
    SpecPatientView,
};
use crate::entity::Patient;
use crate::errors::PatientRepositoryError;
use crate::ports::{item_view_matches, queue_item_passes, PatientRepository};
use crate::query::{
    effective_query, norm_status, norm_text, normalize_text, patient_matches, queue_row_passes,
    text_filter,
};
use crate::text::{
    chars_of, contains_chars, dec_str, lex_lt, lex_lt_chars, lower_chars, lower_seq, make_tag,
    str_eq, trim,
};

verus! {

/// One stored attendance ("exam") row.  Creation order is the row's
/// position in the store.
#[derive(Clone, Debug)]
pub struct ExamRow {
    pub id: String,
    pub patient_id: String,
    pub requester_id: Option<String>,
    pub exam_date: String,
    pub status: String,
    pub procedure_type: Option<String>,
    pub delivered_to: Option<String>,
    pub notes: Option<String>,
    pub updated_at: String,
}

/// One stored attendance line item.  Creation order is the row's position
/// in the store.
#[derive(Clone, Debug)]
pub struct ItemRow {
    pub id: String,
    pub exam_id: String,
    pub name: String,
    pub unit: Option<String>,
    pub method: Option<String>,
    pub reference_range: Option<String>,
    pub result_value: Option<String>,
    pub result_flag: Option<String>,
}

/// One stored requester; referenced, never created, by this layer.
#[derive(Clone, Debug)]
pub struct RequesterRow {
    pub id: String,
    pub name: String,
}

/// The abstract state of the store: the four tables and the two counters.
#[verifier::ext_equal]
pub struct LabModel {
    pub patients: Seq<Patient>,
    pub exams: Seq<ExamRow>,
    pub items: Seq<ItemRow>,
    pub requesters: Seq<RequesterRow>,
    pub next_id: int,
    pub clock: int,
}

/// The in-memory storage backend.
pub struct MemoryLab {
    patients: Vec<Patient>,
    exams: Vec<ExamRow>,
    items: Vec<ItemRow>,
    requesters: Vec<RequesterRow>,
    next_id: u64,
    clock: u64,
}

impl View for MemoryLab {
    type V = LabModel;

    closed spec fn view(&self) -> LabModel {
        LabModel {
            patients: self.patients@,
            exams: self.exams@,
            items: self.items@,
            requesters: self.requesters@,
            next_id: self.next_id as int,
            clock: self.clock as int,
        }
    }
}

/// Whether the id and clock counters can still advance; an exhausted
/// counter is reported as a storage failure.
pub open spec fn counters_ok(m: LabModel) -> bool {
    m.next_id < u64::MAX && m.clock < u64::MAX
}

/// Whether a stored patient already carries this identifier; inserting such
/// a patient again is a uniqueness conflict.
pub open spec fn cpf_taken(patients: Seq<Patient>, cpf: Seq<char>) -> bool {
    exists|i: int| 0 <= i < patients.len() && patients[i].cpf@ == cpf
}

/// Index of the first stored patient with this id, or `-1`.
pub open spec fn find_patient(patients: Seq<Patient>, id: Seq<char>) -> int
    decreases patients.len(),
{
    if patients.len() == 0 {
        -1
    } else if patients[0].id@ == id {
        0
    } else {
        let t = find_patient(patients.drop_first(), id);
        if t < 0 {
            -1
        } else {
            t + 1
        }
    }
}

/// The display name of the first requester with this id, if any; a missing
/// requester is tolerated, not an error.
pub open spec fn find_requester_name(requesters: Seq<RequesterRow>, id: Seq<char>) -> Option<
    Seq<char>,
>
    decreases requesters.len(),
{
    if requesters.len() == 0 {
        None
    } else if requesters[0].id@ == id {
        Some(requesters[0].name@)
    } else {
        find_requester_name(requesters.drop_first(), id)
    }
}

/// Whether any stored exam carries this id.
pub open spec fn has_exam(exams: Seq<ExamRow>, id: Seq<char>) -> bool {
    exists|i: int| 0 <= i < exams.len() && exams[i].id@ == id
}


/// The patient listing: most recently stored first; an empty query keeps
/// every patient, a non-empty one keeps exactly the matching subset.
pub open spec fn list_spec(patients: Seq<Patient>, q: Seq<char>) -> Seq<Patient>
    decreases patients.len(),
{
    if patients.len() == 0 {
        Seq::<Patient>::empty()
    } else {
        let rest = list_spec(patients.drop_first(), q);
        if q.len() == 0 || patient_matches(patients[0], q) {
            rest.push(patients[0])
        } else {
            rest
        }
    }
}

/// Whether the exam at index `a` stands strictly before the one at `b` in
/// the display order: later exam date first, later creation first among
/// equal dates.
pub open spec fn exam_before(exams: Seq<ExamRow>, a: usize, b: usize) -> bool {
    lex_lt(exams[b as int].exam_date@, exams[a as int].exam_date@) || (exams[a as int].exam_date@
        == exams[b as int].exam_date@ && a > b)
}

/// Whether an index sequence lists exams in strict display order.
pub open spec fn display_sorted(exams: Seq<ExamRow>, s: Seq<usize>) -> bool {
    forall|a: int, b: int| 0 <= a < b < s.len() ==> exam_before(exams, s[a], s[b])
}

/// Index `x` placed into an ordered index sequence, before the first entry
/// it stands before.
pub open spec fn insert_ordered(exams: Seq<ExamRow>, x: usize, s: Seq<usize>) -> Seq<usize>
    decreases s.len(),
{
    if s.len() == 0 {
        seq![x]
    } else if exam_before(exams, x, s[0]) {
        seq![x] + s
    } else {
        seq![s[0]] + insert_ordered(exams, x, s.drop_first())
    }
}

/// The display order of the first `n` exams.
pub open spec fn display_order_up_to(exams: Seq<ExamRow>, n: int) -> Seq<usize>
    decreases n,
{
    if n <= 0 {
        Seq::<usize>::empty()
    } else {
        insert_ordered(exams, (n - 1) as usize, display_order_up_to(exams, n - 1))
    }
}

/// The indices of all exams, ordered for display: exam date descending,
/// creation order descending among equal dates.
pub open spec fn display_order(exams: Seq<ExamRow>) -> Seq<usize> {
    display_order_up_to(exams, exams.len() as int)
}

/// The items of one exam, in creation order.
pub open spec fn items_of_exam(items: Seq<ItemRow>, exam_id: Seq<char>) -> Seq<ItemRow>
    decreases items.len(),
{
    if items.len() == 0 {
        Seq::<ItemRow>::empty()
    } else {
        let rest = items_of_exam(items.drop_last(), exam_id);
        if items.last().exam_id@ == exam_id {
            rest.push(items.last())
        } else {
            rest
        }
    }
}

/// The item columns of one stored item row.
pub open spec fn spec_item_columns(it: ItemRow) -> SpecRecordRowItem {
    SpecRecordRowItem {
        exam_item_id: it.id@,
        name: it.name@,
        unit: opt_text(it.unit),
        method: opt_text(it.method),
        reference_range: opt_text(it.reference_range),
        result_value: opt_text(it.result_value),
        result_flag: opt_text(it.result_flag),
    }
}

/// The flat join rows one exam contributes to the record view: one row per
/// item, or a single row without item columns when it has none.
pub open spec fn record_rows_of_exam(
    e: ExamRow,
    items: Seq<ItemRow>,
    requesters: Seq<RequesterRow>,
) -> Seq<SpecRecordRow> {
    let rname = match e.requester_id {
        None => None,
        Some(rid) => find_requester_name(requesters, rid@),
    };
    let its = items_of_exam(items, e.id@);
    if its.len() == 0 {
        seq![
            SpecRecordRow {
                exam_id: e.id@,
                exam_date: e.exam_date@,
                status: e.status@,
                requester_name: rname,
                item: None,
            },
        ]
    } else {
        Seq::new(
            its.len(),
            |k: int|
                SpecRecordRow {
                    exam_id: e.id@,
                    exam_date: e.exam_date@,
                    status: e.status@,
                    requester_name: rname,
                    item: Some(spec_item_columns(its[k])),
                },
        )
    }
}

/// The record join rows of one patient, walking the exams in display
/// order.
pub open spec fn record_rows_for(m: LabModel, order: Seq<usize>, pid: Seq<char>) -> Seq<
    SpecRecordRow,
>
    decreases order.len(),
{
    if order.len() == 0 {
        Seq::<SpecRecordRow>::empty()
    } else {
        let rest = record_rows_for(m, order.drop_last(), pid);
        let idx = order.last();
        if (idx as int) < m.exams.len() && m.exams[idx as int].patient_id@ == pid {
            rest + record_rows_of_exam(m.exams[idx as int], m.items, m.requesters)
        } else {
            rest
        }
    }
}

/// The full record row set of one patient.
pub open spec fn record_rows_spec(m: LabModel, pid: Seq<char>) -> Seq<SpecRecordRow> {
    record_rows_for(m, display_order(m.exams), pid)
}

/// The record entries of one patient: the ordered join rows, aggregated.
pub open spec fn record_entries_spec(m: LabModel, pid: Seq<char>) -> Seq<
    crate::dto::SpecRecordEntry,
> {
    record_fold(record_rows_spec(m, pid))
}

/// The abstract patient view built from a stored patient.
pub open spec fn patient_view_of(p: Patient) -> SpecPatientView {
    SpecPatientView {
        id: p.id@,
        full_name: p.full_name@,
        cpf: p.cpf@,
        birth_date: p.birth_date@,
        sex: p.sex@,
        phone: p.phone@,
        address: p.address@,
        created_at: p.created_at@,
        updated_at: p.updated_at@,
    }
}

/// The flat join rows one exam contributes to the queue view, given its
/// owning patient: one row per item, or a single row without an item name
/// when it has none.
pub open spec fn queue_rows_of_exam(e: ExamRow, p: Patient, items: Seq<ItemRow>) -> Seq<
    SpecQueueRow,
> {
    let its = items_of_exam(items, e.id@);
    if its.len() == 0 {
        seq![
            SpecQueueRow {
                attendance_id: e.id@,
                patient_id: e.patient_id@,
                patient_name: p.full_name@,
                patient_cpf: p.cpf@,
                exam_date: e.exam_date@,
                status: e.status@,
                updated_at: e.updated_at@,
                exam_name: None,
            },
        ]
    } else {
        Seq::new(
            its.len(),
            |k: int|
                SpecQueueRow {
                    attendance_id: e.id@,
                    patient_id: e.patient_id@,
                    patient_name: p.full_name@,
                    patient_cpf: p.cpf@,
                    exam_date: e.exam_date@,
                    status: e.status@,
                    updated_at: e.updated_at@,
                    exam_name: Some(its[k].name@),
                },
        )
    }
}

/// The queue join rows, walking the exams in display order; an exam whose
/// patient is missing joins to nothing.
pub open spec fn queue_rows_for(m: LabModel, order: Seq<usize>) -> Seq<SpecQueueRow>
    decreases order.len(),
{
    if order.len() == 0 {
        Seq::<SpecQueueRow>::empty()
    } else {
        let rest = queue_rows_for(m, order.drop_last());
        let idx = order.last();
        if (idx as int) < m.exams.len() && find_patient(
            m.patients,
            m.exams[idx as int].patient_id@,
        ) >= 0 {
            rest + queue_rows_of_exam(
                m.exams[idx as int],
                m.patients[find_patient(m.patients, m.exams[idx as int].patient_id@)],
                m.items,
            )
        } else {
            rest
        }
    }
}

/// The full ordered queue row set.
pub open spec fn queue_rows_spec(m: LabModel) -> Seq<SpecQueueRow> {
    queue_rows_for(m, display_order(m.exams))
}


/// The queue rows surviving the supplied predicates, in order.
pub open spec fn filter_queue_rows(
    rows: Seq<SpecQueueRow>,
    date: Option<Seq<char>>,
    status: Option<Seq<char>>,
    q: Option<Seq<char>>,
) -> Seq<SpecQueueRow>
    decreases rows.len(),
{
    if rows.len() == 0 {
        Seq::<SpecQueueRow>::empty()
    } else {
        let rest = filter_queue_rows(rows.drop_last(), date, status, q);
        if queue_row_passes(rows.last(), date, status, q) {
            rest.push(rows.last())
        } else {
            rest
        }
    }
}

/// The queue listing: ordered rows, row-filtered by the normalized
/// predicates, then aggregated into one item per attendance.
pub open spec fn queue_spec(
    m: LabModel,
    date: Option<String>,
    status: Option<String>,
    query: Option<String>,
) -> Seq<crate::dto::SpecQueueItem> {
    queue_fold(
        filter_queue_rows(queue_rows_spec(m), norm_text(date), norm_text(status), text_filter(query)),
    )
}

/// The join rows of the single-attendance lookup: the exams carrying the
/// id, in creation order, joined as in the queue view.
pub open spec fn attendance_rows_for(m: LabModel, upto: int, aid: Seq<char>) -> Seq<SpecQueueRow>
    decreases upto,
{
    if upto <= 0 {
        Seq::<SpecQueueRow>::empty()
    } else {
        let rest = attendance_rows_for(m, upto - 1, aid);
        let e = m.exams[upto - 1];
        if e.id@ == aid && find_patient(m.patients, e.patient_id@) >= 0 {
            rest + queue_rows_of_exam(e, m.patients[find_patient(m.patients, e.patient_id@)], m.items)
        } else {
            rest
        }
    }
}

/// The join rows of the single-attendance lookup.
pub open spec fn attendance_rows_spec(m: LabModel, aid: Seq<char>) -> Seq<SpecQueueRow> {
    attendance_rows_for(m, m.exams.len() as int, aid)
}

/// How a completed exam row relates to the row it replaces: status set to
/// `completed`, the update timestamp refreshed, everything else unchanged.
pub open spec fn completed_version(o: ExamRow, n: ExamRow, ts: Seq<char>) -> bool {
    &&& n.id@ == o.id@
    &&& n.patient_id@ == o.patient_id@
    &&& opt_text(n.requester_id) == opt_text(o.requester_id)
    &&& n.exam_date@ == o.exam_date@
    &&& n.status@ == "completed"@
    &&& opt_text(n.procedure_type) == opt_text(o.procedure_type)
    &&& opt_text(n.delivered_to) == opt_text(o.delivered_to)
    &&& opt_text(n.notes) == opt_text(o.notes)
    &&& n.updated_at@ == ts
}

proof fn lemma_insert_ordered_at(exams: Seq<ExamRow>, x: usize, s: Seq<usize>, p: int)
    requires
        0 <= p <= s.len(),
        forall|k: int| 0 <= k < p ==> !exam_before(exams, x, s[k]),
        p < s.len() ==> exam_before(exams, x, s[p]),
    ensures
        insert_ordered(exams, x, s) =~= s.subrange(0, p) + seq![x] + s.subrange(
            p,
            s.len() as int,
        ),
    decreases p,
{
    if p == 0 {
        assert(s.subrange(0, 0) =~= Seq::<usize>::empty());
        assert(s.subrange(0, s.len() as int) =~= s);
    } else {
        lemma_insert_ordered_at(exams, x, s.drop_first(), p - 1);
        assert(s.drop_first().subrange(0, p - 1) =~= s.subrange(1, p));
        assert(s.drop_first().subrange(p - 1, s.drop_first().len() as int) =~= s.subrange(
            p,
            s.len() as int,
        ));
    }
}

fn exam_before_exec(exams: &Vec<ExamRow>, a: usize, b: usize) -> (r: bool)
    requires
        a < exams@.len(),
        b < exams@.len(),
    ensures
        r == exam_before(exams@, a, b),
{
    let date_a = chars_of(exams[a].exam_date.as_str());
    let date_b = chars_of(exams[b].exam_date.as_str());
    if lex_lt_chars(&date_b, &date_a) {
        true
    } else if str_eq(exams[a].exam_date.as_str(), exams[b].exam_date.as_str()) {
        a > b
    } else {
        false
    }
}

fn insert_ordered_exec(exams: &Vec<ExamRow>, x: usize, s: &Vec<usize>) -> (r: Vec<usize>)
    requires
        x < exams@.len(),
        forall|k: int| 0 <= k < s@.len() ==> s@[k] < exams@.len(),
    ensures
        r@ == insert_ordered(exams@, x, s@),
        r@.len() == s@.len() + 1,
        forall|k: int| 0 <= k < r@.len() ==> r@[k] < exams@.len(),
{
    let mut p: usize = 0;
    while p < s.len() && !exam_before_exec(exams, x, s[p])
        invariant
            0 <= p <= s@.len(),
            x < exams@.len(),
            forall|k: int| 0 <= k < s@.len() ==> s@[k] < exams@.len(),
            forall|k: int| 0 <= k < p ==> !exam_before(exams@, x, s@[k]),
        decreases s@.len() - p,
    {
        p += 1;
    }
    proof {
        lemma_insert_ordered_at(exams@, x, s@, p as int);
    }
    let mut r: Vec<usize> = Vec::new();
    let mut i: usize = 0;
    while i < p
        invariant
            0 <= i <= p <= s@.len(),
            r@ =~= s@.subrange(0, i as int),
        decreases p - i,
    {
        r.push(s[i]);
        i += 1;
    }
    r.push(x);
    let mut j: usize = p;
    while j < s.len()
        invariant
            p <= j <= s@.len(),
            r@ =~= s@.subrange(0, p as int) + seq![x] + s@.subrange(p as int, j as int),
        decreases s@.len() - j,
    {
        r.push(s[j]);
        j += 1;
    }
    proof {
        assert(r@ =~= s@.subrange(0, p as int) + seq![x] + s@.subrange(p as int, s@.len() as int));
    }
    r
}

fn display_order_exec(exams: &Vec<ExamRow>) -> (order: Vec<usize>)
    ensures
        order@ == display_order(exams@),
        order@.len() == exams@.len(),
        forall|k: int| 0 <= k < order@.len() ==> order@[k] < exams@.len(),
{
    let mut order: Vec<usize> = Vec::new();
    let mut n: usize = 0;
    while n < exams.len()
        invariant
            0 <= n <= exams@.len(),
            order@ == display_order_up_to(exams@, n as int),
            order@.len() == n,
            forall|k: int| 0 <= k < order@.len() ==> order@[k] < exams@.len(),
        decreases exams@.len() - n,
    {
        order = insert_ordered_exec(exams, n, &order);
        n += 1;
    }
    order
}

fn dup_item(it: &ItemRow) -> (r: ItemRow)
    ensures
        r == *it,
{
    ItemRow {
        id: it.id.clone(),
        exam_id: it.exam_id.clone(),
        name: it.name.clone(),
        unit: clone_opt(&it.unit),
        method: clone_opt(&it.method),
        reference_range: clone_opt(&it.reference_range),
        result_value: clone_opt(&it.result_value),
        result_flag: clone_opt(&it.result_flag),
    }
}

fn items_of_exam_exec(items: &Vec<ItemRow>, exam_id: &String) -> (r: Vec<ItemRow>)
    ensures
        r@ == items_of_exam(items@, exam_id@),
{
    let mut r: Vec<ItemRow> = Vec::new();
    let mut k: usize = 0;
    while k < items.len()
        invariant
            0 <= k <= items@.len(),
            r@ =~= items_of_exam(items@.subrange(0, k as int), exam_id@),
        decreases items@.len() - k,
    {
        proof {
            assert(items@.subrange(0, k + 1).drop_last() =~= items@.subrange(0, k as int));
            assert(items@.subrange(0, k + 1).last() == items@[k as int]);
        }
        if str_eq(items[k].exam_id.as_str(), exam_id.as_str()) {
            r.push(dup_item(&items[k]));
        }
        k += 1;
    }
    proof {
        assert(items@.subrange(0, items@.len() as int) =~= items@);
    }
    r
}

fn rows_for_exam_exec(e: &ExamRow, items: &Vec<ItemRow>, requesters: &Vec<RequesterRow>) -> (rows:
    Vec<RecordRow>)
    ensures
        record_rows_view(rows@) == record_rows_of_exam(*e, items@, requesters@),
{
    let rname: Option<String> = match &e.requester_id {
        None => None,
        Some(rid) => find_requester_name_exec(requesters, rid),
    };
    let its = items_of_exam_exec(items, &e.id);
    let mut rows: Vec<RecordRow> = Vec::new();
    if its.len() == 0 {
        rows.push(
            RecordRow {
                exam_id: e.id.clone(),
                exam_date: e.exam_date.clone(),
                status: e.status.clone(),
                requester_name: rname,
                item: None,
            },
        );
        proof {
            assert(record_rows_view(rows@) =~~= record_rows_of_exam(*e, items@, requesters@));
        }
    } else {
        let n = its.len();
        let mut k: usize = 0;
        while k < n
            invariant
                0 <= k <= n,
                n == its@.len(),
                its@ == items_of_exam(items@, e.id@),
                opt_text(rname) == (match e.requester_id {
                    None => None,
                    Some(rid) => find_requester_name(requesters@, rid@),
                }),
                rows@.len() == k,
                forall|j: int|
                    0 <= j < k ==> record_rows_view(rows@)[j] == record_rows_of_exam(
                        *e,
                        items@,
                        requesters@,
                    )[j],
            decreases n - k,
        {
            let ghost pre = rows@;
            let it = &its[k];
            rows.push(
                RecordRow {
                    exam_id: e.id.clone(),
                    exam_date: e.exam_date.clone(),
                    status: e.status.clone(),
                    requester_name: clone_opt(&rname),
                    item: Some(
                        RecordItemRow {
                            exam_item_id: it.id.clone(),
                            name: it.name.clone(),
                            unit: clone_opt(&it.unit),
                            method: clone_opt(&it.method),
                            reference_range: clone_opt(&it.reference_range),
                            result_value: clone_opt(&it.result_value),
                            result_flag: clone_opt(&it.result_flag),
                        },
                    ),
                },
            );
            proof {
                assert forall|j: int| 0 <= j < k implies record_rows_view(rows@)[j]
                    == record_rows_of_exam(*e, items@, requesters@)[j] by {
                    assert(rows@[j] == pre[j]);
                    assert(record_rows_view(rows@)[j] == rows@[j]@);
                    assert(record_rows_view(pre)[j] == pre[j]@);
                }
                assert(record_rows_view(rows@)[k as int] =~~= record_rows_of_exam(
                    *e,
                    items@,
                    requesters@,
                )[k as int]);
            }
            k += 1;
        }
        proof {
            assert(record_rows_view(rows@) =~~= record_rows_of_exam(*e, items@, requesters@));
        }
    }
    rows
}

proof fn lemma_find_patient_at(patients: Seq<Patient>, id: Seq<char>, i: int)
    requires
        0 <= i <= patients.len(),
        forall|k: int| 0 <= k < i ==> patients[k].id@ != id,
        i < patients.len() ==> patients[i].id@ == id,
    ensures
        find_patient(patients, id) == if i == patients.len() {
            -1 as int
        } else {
            i
        },
    decreases i,
{
    if i > 0 {
        lemma_find_patient_at(patients.drop_first(), id, i - 1);
    }
}

proof fn lemma_find_requester_at(requesters: Seq<RequesterRow>, id: Seq<char>, i: int)
    requires
        0 <= i <= requesters.len(),
        forall|k: int| 0 <= k < i ==> requesters[k].id@ != id,
        i < requesters.len() ==> requesters[i].id@ == id,
    ensures
        find_requester_name(requesters, id) == if i == requesters.len() {
            None::<Seq<char>>
        } else {
            Some(requesters[i].name@)
        },
    decreases i,
{
    if i > 0 {
        lemma_find_requester_at(requesters.drop_first(), id, i - 1);
    }
}

fn dup_patient(p: &Patient) -> (r: Patient)
    ensures
        r == *p,
{
    Patient {
        id: p.id.clone(),
        full_name: p.full_name.clone(),
        cpf: p.cpf.clone(),
        birth_date: p.birth_date.clone(),
        sex: p.sex.clone(),
        phone: p.phone.clone(),
        address: p.address.clone(),
        created_at: p.created_at.clone(),
        updated_at: p.updated_at.clone(),
    }
}


fn find_patient_idx(patients: &Vec<Patient>, id: &String) -> (r: Option<usize>)
    ensures
        (match r {
            Some(j) => 0 <= j < patients@.len() && find_patient(patients@, id@) == j,
            None => find_patient(patients@, id@) == -1,
        }),
{
    let mut i: usize = 0;
    while i < patients.len()
        invariant
            0 <= i <= patients@.len(),
            forall|k: int| 0 <= k < i ==> patients@[k].id@ != id@,
        decreases patients@.len() - i,
    {
        if str_eq(patients[i].id.as_str(), id.as_str()) {
            proof {
                lemma_find_patient_at(patients@, id@, i as int);
            }
            return Some(i);
        }
        i += 1;
    }
    proof {
        lemma_find_patient_at(patients@, id@, patients@.len() as int);
    }
    None
}

fn find_requester_name_exec(requesters: &Vec<RequesterRow>, id: &String) -> (r: Option<String>)
    ensures
        opt_text(r) == find_requester_name(requesters@, id@),
{
    let mut i: usize = 0;
    while i < requesters.len()
        invariant
            0 <= i <= requesters@.len(),
            forall|k: int| 0 <= k < i ==> requesters@[k].id@ != id@,
        decreases requesters@.len() - i,
    {
        if str_eq(requesters[i].id.as_str(), id.as_str()) {
            proof {
                lemma_find_requester_at(requesters@, id@, i as int);
            }
            return Some(requesters[i].name.clone());
        }
        i += 1;
    }
    proof {
        lemma_find_requester_at(requesters@, id@, requesters@.len() as int);
    }
    None
}

/// The id a created attendance receives.
pub open spec fn exam_id_of(next_id: int) -> Seq<char> {
    "e"@ + dec_str(next_id)
}

/// The id the `k`-th created item receives.
pub open spec fn item_id_of(next_id: int, k: int) -> Seq<char> {
    "i"@ + dec_str(next_id + 1 + k)
}

/// Whether the id counter can assign one exam id and `n` item ids, and the
/// clock can advance.
pub open spec fn create_counters_ok(m: LabModel, n: int) -> bool {
    m.next_id + 1 + n <= u64::MAX && m.clock < u64::MAX
}

/// How a stored item row relates to the item descriptor it was created
/// from: name stored as given, optional fields normalized, result fields
/// empty.
pub open spec fn stored_item_ok(
    it: ItemRow,
    descr: CreateAttendanceItemInput,
    exam_id: Seq<char>,
    id: Seq<char>,
) -> bool {
    &&& it.id@ == id
    &&& it.exam_id@ == exam_id
    &&& it.name@ == descr.name@
    &&& opt_text(it.unit) == norm_text(descr.unit)
    &&& opt_text(it.method) == norm_text(descr.method)
    &&& opt_text(it.reference_range) == norm_text(descr.reference_range)
    &&& it.result_value is None
    &&& it.result_flag is None
}

/// How one returned item view relates to the item descriptor it was
/// created from: result fields empty, so no report is available.
pub open spec fn created_item_view_ok(
    v: crate::dto::SpecRecordItem,
    descr: CreateAttendanceItemInput,
    id: Seq<char>,
) -> bool {
    v.exam_item_id == id && item_view_matches(v, descr)
}

/// How the stored exam row relates to the creation request.
pub open spec fn created_exam_ok(e: ExamRow, input: CreateAttendanceInput, m: LabModel) -> bool {
    &&& e.id@ == exam_id_of(m.next_id)
    &&& e.patient_id@ == input.patient_id@
    &&& opt_text(e.requester_id) == norm_text(input.requester_id)
    &&& e.exam_date@ == input.exam_date@
    &&& e.status@ == norm_status(input.status)
    &&& opt_text(e.procedure_type) == norm_text(input.procedure_type)
    &&& opt_text(e.delivered_to) == norm_text(input.delivered_to)
    &&& opt_text(e.notes) == norm_text(input.notes)
    &&& e.updated_at@ == "t"@ + dec_str(m.clock)
}

/// How the returned record entry relates to the creation request: the
/// assigned id, the given date, the normalized status, the requester's
/// display name when one matches, and one item view per descriptor, in
/// input order.
pub open spec fn created_entry_ok(
    v: crate::dto::SpecRecordEntry,
    input: CreateAttendanceInput,
    m: LabModel,
) -> bool {
    &&& v.exam_id == exam_id_of(m.next_id)
    &&& v.exam_date == input.exam_date@
    &&& v.status == norm_status(input.status)
    &&& v.requester_name == (match norm_text(input.requester_id) {
        None => None::<Seq<char>>,
        Some(rid) => find_requester_name(m.requesters, rid),
    })
    &&& v.items.len() == input.items@.len()
    &&& forall|k: int|
        0 <= k < v.items.len() ==> created_item_view_ok(
            #[trigger] v.items[k],
            input.items@[k],
            item_id_of(m.next_id, k),
        )
}

proof fn lemma_find_patient_props(patients: Seq<Patient>, id: Seq<char>)
    ensures
        find_patient(patients, id) >= 0 ==> 0 <= find_patient(patients, id) < patients.len()
            && patients[find_patient(patients, id)].id@ == id,
    decreases patients.len(),
{
    if patients.len() > 0 && patients[0].id@ != id {
        lemma_find_patient_props(patients.drop_first(), id);
    }
}

proof fn lemma_list_spec_elements(patients: Seq<Patient>, q: Seq<char>)
    ensures
        forall|i: int|
            0 <= i < list_spec(patients, q).len() ==> (q.len() == 0 || patient_matches(
                #[trigger] list_spec(patients, q)[i],
                q,
            )),
    decreases patients.len(),
{
    if patients.len() > 0 {
        lemma_list_spec_elements(patients.drop_first(), q);
        let rest = list_spec(patients.drop_first(), q);
        let out = list_spec(patients, q);
        assert forall|i: int| 0 <= i < out.len() implies (q.len() == 0 || patient_matches(
            #[trigger] out[i],
            q,
        )) by {
            if q.len() == 0 || patient_matches(patients[0], q) {
                assert(out == rest.push(patients[0]));
                if i < rest.len() {
                    assert(out[i] == rest[i]);
                } else {
                    assert(out[i] == patients[0]);
                }
            } else {
                assert(out == rest);
            }
        }
    }
}

proof fn lemma_filter_queue_rows_pass(
    rows: Seq<SpecQueueRow>,
    date: Option<Seq<char>>,
    status: Option<Seq<char>>,
    q: Option<Seq<char>>,
)
    ensures
        forall|i: int|
            0 <= i < filter_queue_rows(rows, date, status, q).len() ==> queue_row_passes(
                #[trigger] filter_queue_rows(rows, date, status, q)[i],
                date,
                status,
                q,
            ),
    decreases rows.len(),
{
    if rows.len() > 0 {
        lemma_filter_queue_rows_pass(rows.drop_last(), date, status, q);
        let rest = filter_queue_rows(rows.drop_last(), date, status, q);
        let out = filter_queue_rows(rows, date, status, q);
        assert forall|i: int| 0 <= i < out.len() implies queue_row_passes(
            #[trigger] out[i],
            date,
            status,
            q,
        ) by {
            if queue_row_passes(rows.last(), date, status, q) {
                assert(out == rest.push(rows.last()));
                if i < rest.len() {
                    assert(out[i] == rest[i]);
                } else {
                    assert(out[i] == rows.last());
                }
            } else {
                assert(out == rest);
            }
        }
    }
}

proof fn lemma_attendance_rows_status(m: LabModel, upto: int, aid: Seq<char>, st: Seq<char>)
    requires
        upto <= m.exams.len(),
        forall|z: int|
            0 <= z < m.exams.len() && (#[trigger] m.exams[z]).id@ == aid ==> m.exams[z].status@
                == st,
    ensures
        forall|i: int|
            0 <= i < attendance_rows_for(m, upto, aid).len() ==> (#[trigger] attendance_rows_for(
                m,
                upto,
                aid,
            )[i]).attendance_id == aid && attendance_rows_for(m, upto, aid)[i].status == st,
    decreases upto,
{
    if upto > 0 {
        lemma_attendance_rows_status(m, upto - 1, aid, st);
        let rest = attendance_rows_for(m, upto - 1, aid);
        let e = m.exams[upto - 1];
        let out = attendance_rows_for(m, upto, aid);
        if e.id@ == aid && find_patient(m.patients, e.patient_id@) >= 0 {
            let block = queue_rows_of_exam(e, m.patients[find_patient(m.patients, e.patient_id@)], m.items);
            assert forall|i: int| 0 <= i < out.len() implies (#[trigger] out[i]).attendance_id
                == aid && out[i].status == st by {
                if i < rest.len() {
                    assert(out[i] == rest[i]);
                } else {
                    assert(out[i] == block[i - rest.len()]);
                    assert(block[i - rest.len()].attendance_id == e.id@);
                    assert(block[i - rest.len()].status == e.status@);
                }
            }
        }
    }
}

proof fn lemma_queue_fold_nonempty(rows: Seq<SpecQueueRow>)
    requires
        rows.len() > 0,
    ensures
        queue_fold(rows).len() >= 1,
    decreases rows.len(),
{
    if rows.len() > 1 {
        lemma_queue_fold_nonempty(rows.drop_last());
    }
    let acc = queue_fold(rows.drop_last());
    let row = rows.last();
    let j = crate::aggregate::queue_index(acc, row.attendance_id);
    if j < 0 {
        assert(queue_fold(rows) == acc.push(crate::aggregate::new_queue_item(row)));
    } else {
        crate::aggregate::lemma_queue_index_props(acc, row.attendance_id);
    }
}

fn has_exam_exec(exams: &Vec<ExamRow>, id: &String) -> (r: bool)
    ensures
        r == has_exam(exams@, id@),
{
    let mut i: usize = 0;
    while i < exams.len()
        invariant
            0 <= i <= exams@.len(),
            forall|k: int| 0 <= k < i ==> exams@[k].id@ != id@,
        decreases exams@.len() - i,
    {
        if str_eq(exams[i].id.as_str(), id.as_str()) {
            assert(exams@[i as int].id@ == id@);
            return true;
        }
        i += 1;
    }
    false
}

fn dup_queue_row(row: &QueueRow) -> (r: QueueRow)
    ensures
        r == *row,
{
    QueueRow {
        attendance_id: row.attendance_id.clone(),
        patient_id: row.patient_id.clone(),
        patient_name: row.patient_name.clone(),
        patient_cpf: row.patient_cpf.clone(),
        exam_date: row.exam_date.clone(),
        status: row.status.clone(),
        updated_at: row.updated_at.clone(),
        exam_name: clone_opt(&row.exam_name),
    }
}

fn queue_rows_of_exam_exec(e: &ExamRow, p: &Patient, items: &Vec<ItemRow>) -> (rows: Vec<QueueRow>)
    ensures
        queue_rows_view(rows@) == queue_rows_of_exam(*e, *p, items@),
{
    let its = items_of_exam_exec(items, &e.id);
    let mut rows: Vec<QueueRow> = Vec::new();
    if its.len() == 0 {
        rows.push(
            QueueRow {
                attendance_id: e.id.clone(),
                patient_id: e.patient_id.clone(),
                patient_name: p.full_name.clone(),
                patient_cpf: p.cpf.clone(),
                exam_date: e.exam_date.clone(),
                status: e.status.clone(),
                updated_at: e.updated_at.clone(),
                exam_name: None,
            },
        );
        proof {
            assert(queue_rows_view(rows@) =~~= queue_rows_of_exam(*e, *p, items@));
        }
    } else {
        let n = its.len();
        let mut k: usize = 0;
        while k < n
            invariant
                0 <= k <= n,
                n == its@.len(),
                its@ == items_of_exam(items@, e.id@),
                rows@.len() == k,
                forall|j: int|
                    0 <= j < k ==> queue_rows_view(rows@)[j] == queue_rows_of_exam(
                        *e,
                        *p,
                        items@,
                    )[j],
            decreases n - k,
        {
            let ghost pre = rows@;
            rows.push(
                QueueRow {
                    attendance_id: e.id.clone(),
                    patient_id: e.patient_id.clone(),
                    patient_name: p.full_name.clone(),
                    patient_cpf: p.cpf.clone(),
                    exam_date: e.exam_date.clone(),
                    status: e.status.clone(),
                    updated_at: e.updated_at.clone(),
                    exam_name: Some(its[k].name.clone()),
                },
            );
            proof {
                assert forall|j: int| 0 <= j < k implies queue_rows_view(rows@)[j]
                    == queue_rows_of_exam(*e, *p, items@)[j] by {
                    assert(rows@[j] == pre[j]);
                    assert(queue_rows_view(rows@)[j] == rows@[j]@);
                    assert(queue_rows_view(pre)[j] == pre[j]@);
                }
                assert(queue_rows_view(rows@)[k as int] =~~= queue_rows_of_exam(
                    *e,
                    *p,
                    items@,
                )[k as int]);
            }
            k += 1;
        }
        proof {
            assert(queue_rows_view(rows@) =~~= queue_rows_of_exam(*e, *p, items@));
        }
    }
    rows
}

fn queue_row_passes_exec(
    row: &QueueRow,
    date_f: &Option<String>,
    status_f: &Option<String>,
    q_f: &Option<Vec<char>>,
) -> (r: bool)
    ensures
        r == queue_row_passes(
            row@,
            opt_text(*date_f),
            opt_text(*status_f),
            match q_f {
                Some(q) => Some(q@),
                None => None,
            },
        ),
{
    let date_ok = match date_f {
        None => true,
        Some(d) => str_eq(row.exam_date.as_str(), d.as_str()),
    };
    let status_ok = match status_f {
        None => true,
        Some(st) => str_eq(row.status.as_str(), st.as_str()),
    };
    let query_ok = match q_f {
        None => true,
        Some(q) => {
            let name = lower_chars(&chars_of(row.patient_name.as_str()));
            let cpf = lower_chars(&chars_of(row.patient_cpf.as_str()));
            let aid = lower_chars(&chars_of(row.attendance_id.as_str()));
            let iname: Vec<char> = match &row.exam_name {
                Some(n) => lower_chars(&chars_of(n.as_str())),
                None => Vec::new(),
            };
            proof {
                match row.exam_name {
                    Some(_) => {},
                    None => {
                        assert(iname@ =~= lower_seq(Seq::<char>::empty()));
                    },
                }
            }
            contains_chars(&name, q) || contains_chars(&cpf, q) || contains_chars(&aid, q)
                || contains_chars(&iname, q)
        },
    };
    date_ok && status_ok && query_ok
}

impl MemoryLab {
    /// An empty store.
    pub fn new() -> (r: MemoryLab)
        ensures
            r@.patients.len() == 0,
            r@.exams.len() == 0,
            r@.items.len() == 0,
            r@.requesters.len() == 0,
            r@.next_id == 1,
            r@.clock == 1,
    {
        MemoryLab {
            patients: Vec::new(),
            exams: Vec::new(),
            items: Vec::new(),
            requesters: Vec::new(),
            next_id: 1,
            clock: 1,
        }
    }

    /// Store a patient row as given, bypassing id and timestamp assignment;
    /// schema seeding for tests and data import.
    pub fn seed_patient(&mut self, p: Patient)
        ensures
            final(self)@ == (LabModel { patients: old(self)@.patients.push(p), ..old(self)@ }),
    {
        self.patients.push(p);
        proof {
            assert(final(self)@ =~= (LabModel {
                patients: old(self)@.patients.push(p),
                ..old(self)@
            }));
        }
    }

    /// Store an exam row as given.
    pub fn seed_exam(&mut self, e: ExamRow)
        ensures
            final(self)@ == (LabModel { exams: old(self)@.exams.push(e), ..old(self)@ }),
    {
        self.exams.push(e);
        proof {
            assert(final(self)@ =~= (LabModel { exams: old(self)@.exams.push(e), ..old(self)@ }));
        }
    }

    /// Store an exam item row as given.
    pub fn seed_exam_item(&mut self, it: ItemRow)
        ensures
            final(self)@ == (LabModel { items: old(self)@.items.push(it), ..old(self)@ }),
    {
        self.items.push(it);
        proof {
            assert(final(self)@ =~= (LabModel { items: old(self)@.items.push(it), ..old(self)@ }));
        }
    }

    /// Store a requester row as given.
    pub fn seed_requester(&mut self, r: RequesterRow)
        ensures
            final(self)@ == (LabModel { requesters: old(self)@.requesters.push(r), ..old(self)@ }),
    {
        self.requesters.push(r);
        proof {
            assert(final(self)@ =~= (LabModel {
                requesters: old(self)@.requesters.push(r),
                ..old(self)@
            }));
        }
    }

    /// Insert a patient with a server-assigned id and timestamps.  Fails
    /// with `Conflict` exactly when the identifier is already stored, and
    /// with `PersistenceError` exactly when the id counter is exhausted;
    /// otherwise the stored and returned patient carries the input fields
    /// unchanged.
    pub fn insert(&mut self, input: CreatePatientInput) -> (r: Result<
        Patient,
        PatientRepositoryError,
    >)
        ensures
            cpf_taken(old(self)@.patients, input.cpf@) ==> r == Err::<
                Patient,
                PatientRepositoryError,
            >(PatientRepositoryError::Conflict) && final(self)@ == old(self)@,
            !cpf_taken(old(self)@.patients, input.cpf@) && !counters_ok(old(self)@) ==> r == Err::<
                Patient,
                PatientRepositoryError,
            >(PatientRepositoryError::PersistenceError) && final(self)@ == old(self)@,
            !cpf_taken(old(self)@.patients, input.cpf@) && counters_ok(old(self)@) ==> (
            r matches Ok(p) && p@.id == "p"@ + dec_str(old(self)@.next_id)
                && p@.full_name == input.full_name@ && p@.cpf == input.cpf@ && p@.birth_date
                == input.birth_date@ && p@.sex == input.sex@ && p@.phone == input.phone@
                && p@.address == input.address@ && p@.created_at == "t"@ + dec_str(
                old(self)@.clock,
            ) && p@.updated_at == p@.created_at && final(self)@ == (LabModel {
                patients: old(self)@.patients.push(p),
                next_id: old(self)@.next_id + 1,
                clock: old(self)@.clock + 1,
                ..old(self)@
            })),
    {
        let mut i: usize = 0;
        while i < self.patients.len()
            invariant
                0 <= i <= self.patients@.len(),
                forall|k: int| 0 <= k < i ==> self.patients@[k].cpf@ != input.cpf@,
        decreases self.patients@.len() - i,
        {
            if str_eq(self.patients[i].cpf.as_str(), input.cpf.as_str()) {
                assert(cpf_taken(self@.patients, input.cpf@));
                return Err(PatientRepositoryError::Conflict);
            }
            i += 1;
        }
        assert(!cpf_taken(self@.patients, input.cpf@));
        if self.next_id == u64::MAX || self.clock == u64::MAX {
            return Err(PatientRepositoryError::PersistenceError);
        }
        let id = make_tag("p", self.next_id);
        let ts = make_tag("t", self.clock);
        let stored = Patient {
            id,
            full_name: input.full_name,
            cpf: input.cpf,
            birth_date: input.birth_date,
            sex: input.sex,
            phone: input.phone,
            address: input.address,
            created_at: ts.clone(),
            updated_at: ts,
        };
        let returned = dup_patient(&stored);
        self.patients.push(stored);
        self.next_id = self.next_id + 1;
        self.clock = self.clock + 1;
        proof {
            assert(final(self)@ =~= (LabModel {
                patients: old(self)@.patients.push(returned),
                next_id: old(self)@.next_id + 1,
                clock: old(self)@.clock + 1,
                ..old(self)@
            }));
        }
        Ok(returned)
    }

    /// List patients, most recently stored first.  An absent or blank query
    /// returns every patient; a non-empty one returns exactly those whose
    /// name matches case-insensitively or whose identifier matches.
    pub fn list(&self, query: Option<String>) -> (r: Result<Vec<Patient>, PatientRepositoryError>)
        ensures
            r matches Ok(ps) && ps@ == list_spec(self@.patients, effective_query(query)),
    {
        let q: Vec<char> = match &query {
            None => Vec::new(),
            Some(s) => {
                let t = trim(s.as_str());
                let cs = chars_of(t.as_str());
                lower_chars(&cs)
            },
        };
        proof {
            assert(q@ == effective_query(query));
        }
        let mut out: Vec<Patient> = Vec::new();
        let mut i: usize = self.patients.len();
        while i > 0
            invariant
                0 <= i <= self.patients@.len(),
                q@ == effective_query(query),
                out@ == list_spec(self.patients@.skip(i as int), q@),
            decreases i,
        {
            i -= 1;
            let p = &self.patients[i];
            let keep = if q.len() == 0 {
                true
            } else {
                let name = lower_chars(&chars_of(p.full_name.as_str()));
                let cpf = lower_chars(&chars_of(p.cpf.as_str()));
                contains_chars(&name, &q) || contains_chars(&cpf, &q)
            };
            proof {
                assert(keep == (q@.len() == 0 || patient_matches(self.patients@[i as int], q@)));
                assert(self.patients@.skip(i as int).drop_first() =~= self.patients@.skip(
                    i + 1,
                ));
                assert(self.patients@.skip(i as int)[0] == self.patients@[i as int]);
            }
            if keep {
                out.push(dup_patient(p));
            }
        }
        proof {
            assert(self.patients@.skip(0) =~= self.patients@);
        }
        Ok(out)
    }

    /// The static exam catalog.
    pub fn list_exam_catalog(&self) -> (r: Result<Vec<ExamCatalogItemView>, PatientRepositoryError>)
        ensures
            r matches Ok(c) && is_seed_catalog(c@),
    {
        Ok(seed_catalog())
    }

    /// A patient's full historical record: `NotFound` exactly when no
    /// patient carries the id; otherwise the patient's fields together with
    /// the aggregated entries of its attendances, most recent exam date
    /// first, creation order breaking ties, items in creation order.
    pub fn get_patient_record(&self, patient_id: String) -> (r: Result<
        PatientRecordView,
        PatientRepositoryError,
    >)
        ensures
            find_patient(self@.patients, patient_id@) < 0 ==> r == Err::<
                PatientRecordView,
                PatientRepositoryError,
            >(PatientRepositoryError::NotFound),
            find_patient(self@.patients, patient_id@) >= 0 ==> (r matches Ok(rec) && rec@.patient
                == patient_view_of(self@.patients[find_patient(self@.patients, patient_id@)])
                && rec@.entries == record_entries_spec(self@, patient_id@)),
    {
        let found = find_patient_idx(&self.patients, &patient_id);
        match found {
            None => Err(PatientRepositoryError::NotFound),
            Some(pi) => {
                let p = &self.patients[pi];
                let patient = PatientView {
                    id: p.id.clone(),
                    full_name: p.full_name.clone(),
                    cpf: p.cpf.clone(),
                    birth_date: p.birth_date.clone(),
                    sex: p.sex.clone(),
                    phone: p.phone.clone(),
                    address: p.address.clone(),
                    created_at: p.created_at.clone(),
                    updated_at: p.updated_at.clone(),
                };
                let order = display_order_exec(&self.exams);
                let mut rows: Vec<RecordRow> = Vec::new();
                let mut k: usize = 0;
                while k < order.len()
                    invariant
                        0 <= k <= order@.len(),
                        forall|j: int| 0 <= j < order@.len() ==> order@[j] < self.exams@.len(),
                        record_rows_view(rows@) =~~= record_rows_for(
                            self@,
                            order@.subrange(0, k as int),
                            patient_id@,
                        ),
                    decreases order@.len() - k,
                {
                    proof {
                        assert(order@.subrange(0, k + 1).drop_last() =~= order@.subrange(
                            0,
                            k as int,
                        ));
                        assert(order@.subrange(0, k + 1).last() == order@[k as int]);
                    }
                    let idx = order[k];
                    if str_eq(self.exams[idx].patient_id.as_str(), patient_id.as_str()) {
                        let mut ex_rows = rows_for_exam_exec(
                            &self.exams[idx],
                            &self.items,
                            &self.requesters,
                        );
                        let ghost pre = rows@;
                        let ghost ex_pre = ex_rows@;
                        rows.append(&mut ex_rows);
                        proof {
                            assert(rows@ =~= pre + ex_pre);
                            assert(record_rows_view(pre + ex_pre) =~~= record_rows_view(pre)
                                + record_rows_view(ex_pre));
                        }
                    }
                    k += 1;
                }
                proof {
                    assert(order@.subrange(0, order@.len() as int) =~= order@);
                }
                let entries = fold_record_rows(&rows);
                let rec = PatientRecordView { patient, entries };
                proof {
                    assert(rec@.patient =~= patient_view_of(self@.patients[pi as int]));
                    assert(rec@.entries =~~= record_entries_spec(self@, patient_id@));
                }
                Ok(rec)
            },
        }
    }

    /// List the attendance queue, newest exam date first, filtered by the
    /// normalized predicates with AND semantics; absent or blank filters
    /// contribute no predicate.
    pub fn list_attendance_queue(&self, input: AttendanceQueueQueryInput) -> (r: Result<
        Vec<AttendanceQueueItemView>,
        PatientRepositoryError,
    >)
        ensures
            r matches Ok(items) && queue_items_view(items@) == queue_spec(
                self@,
                input.date,
                input.status,
                input.query,
            ),
    {
        let date_f = normalize_text(input.date);
        let status_f = normalize_text(input.status);
        let q_f: Option<Vec<char>> = match normalize_text(input.query) {
            None => None,
            Some(s) => Some(lower_chars(&chars_of(s.as_str()))),
        };
        proof {
            assert((match q_f {
                Some(q) => Some(q@),
                None => None::<Seq<char>>,
            }) == text_filter(input.query));
        }
        let order = display_order_exec(&self.exams);
        let mut rows: Vec<QueueRow> = Vec::new();
        let mut k: usize = 0;
        while k < order.len()
            invariant
                0 <= k <= order@.len(),
                forall|j: int| 0 <= j < order@.len() ==> order@[j] < self.exams@.len(),
                queue_rows_view(rows@) =~~= queue_rows_for(self@, order@.subrange(0, k as int)),
            decreases order@.len() - k,
        {
            proof {
                assert(order@.subrange(0, k + 1).drop_last() =~= order@.subrange(0, k as int));
                assert(order@.subrange(0, k + 1).last() == order@[k as int]);
            }
            let idx = order[k];
            let pfound = find_patient_idx(&self.patients, &self.exams[idx].patient_id);
            match pfound {
                None => {},
                Some(pi) => {
                    let mut ex_rows = queue_rows_of_exam_exec(
                        &self.exams[idx],
                        &self.patients[pi],
                        &self.items,
                    );
                    let ghost pre = rows@;
                    let ghost ex_pre = ex_rows@;
                    rows.append(&mut ex_rows);
                    proof {
                        assert(rows@ =~= pre + ex_pre);
                        assert(queue_rows_view(pre + ex_pre) =~~= queue_rows_view(pre)
                            + queue_rows_view(ex_pre));
                    }
                },
            }
            k += 1;
        }
        proof {
            assert(order@.subrange(0, order@.len() as int) =~= order@);
        }
        let mut kept: Vec<QueueRow> = Vec::new();
        let mut i: usize = 0;
        while i < rows.len()
            invariant
                0 <= i <= rows@.len(),
                queue_rows_view(rows@) == queue_rows_spec(self@),
                opt_text(date_f) == norm_text(input.date),
                opt_text(status_f) == norm_text(input.status),
                (match q_f {
                    Some(q) => Some(q@),
                    None => None::<Seq<char>>,
                }) == text_filter(input.query),
                queue_rows_view(kept@) =~~= filter_queue_rows(
                    queue_rows_view(rows@.subrange(0, i as int)),
                    norm_text(input.date),
                    norm_text(input.status),
                    text_filter(input.query),
                ),
            decreases rows@.len() - i,
        {
            proof {
                assert(queue_rows_view(rows@.subrange(0, i + 1)).drop_last() =~= queue_rows_view(
                    rows@.subrange(0, i as int),
                ));
                assert(queue_rows_view(rows@.subrange(0, i + 1)).last() == rows@[i as int]@);
            }
            if queue_row_passes_exec(&rows[i], &date_f, &status_f, &q_f) {
                kept.push(dup_queue_row(&rows[i]));
            }
            i += 1;
        }
        proof {
            assert(rows@.subrange(0, rows@.len() as int) =~= rows@);
        }
        let items = fold_queue_rows(&kept);
        Ok(items)
    }

    /// The queue-view projection of one attendance: `NotFound` exactly when
    /// the id joins to no row.
    fn get_attendance_by_id(&self, attendance_id: &String) -> (r: Result<
        AttendanceQueueItemView,
        PatientRepositoryError,
    >)
        ensures
            attendance_rows_spec(self@, attendance_id@).len() == 0 ==> r == Err::<
                AttendanceQueueItemView,
                PatientRepositoryError,
            >(PatientRepositoryError::NotFound),
            attendance_rows_spec(self@, attendance_id@).len() > 0 ==> (r matches Ok(it) && it@
                == queue_fold(attendance_rows_spec(self@, attendance_id@))[0]),
    {
        let mut rows: Vec<QueueRow> = Vec::new();
        let mut k: usize = 0;
        while k < self.exams.len()
            invariant
                0 <= k <= self.exams@.len(),
                queue_rows_view(rows@) =~~= attendance_rows_for(self@, k as int, attendance_id@),
            decreases self.exams@.len() - k,
        {
            if str_eq(self.exams[k].id.as_str(), attendance_id.as_str()) {
                let pfound = find_patient_idx(&self.patients, &self.exams[k].patient_id);
                match pfound {
                    None => {},
                    Some(pi) => {
                        let mut ex_rows = queue_rows_of_exam_exec(
                            &self.exams[k],
                            &self.patients[pi],
                            &self.items,
                        );
                        let ghost pre = rows@;
                        let ghost ex_pre = ex_rows@;
                        rows.append(&mut ex_rows);
                        proof {
                            assert(rows@ =~= pre + ex_pre);
                            assert(queue_rows_view(pre + ex_pre) =~~= queue_rows_view(pre)
                                + queue_rows_view(ex_pre));
                        }
                    },
                }
            }
            k += 1;
        }
        if rows.len() == 0 {
            return Err(PatientRepositoryError::NotFound);
        }
        proof {
            lemma_queue_fold_nonempty(queue_rows_view(rows@));
        }
        let mut items = fold_queue_rows(&rows);
        let first = items.remove(0);
        Ok(first)
    }

    /// Atomically set an attendance's status to `completed` and refresh its
    /// update timestamp, then return its queue-view projection.  `NotFound`
    /// exactly when no stored attendance carries the id; a no-op is never
    /// reported as a completion.
    pub fn complete_attendance(&mut self, input: CompleteAttendanceInput) -> (r: Result<
        AttendanceQueueItemView,
        PatientRepositoryError,
    >)
        ensures
            !has_exam(old(self)@.exams, input.attendance_id@) ==> r == Err::<
                AttendanceQueueItemView,
                PatientRepositoryError,
            >(PatientRepositoryError::NotFound) && final(self)@ == old(self)@,
            has_exam(old(self)@.exams, input.attendance_id@) && !counters_ok(old(self)@) ==> r
                == Err::<AttendanceQueueItemView, PatientRepositoryError>(
                PatientRepositoryError::PersistenceError,
            ) && final(self)@ == old(self)@,
            has_exam(old(self)@.exams, input.attendance_id@) && counters_ok(old(self)@) ==> ({
                &&& final(self)@.patients == old(self)@.patients
                &&& final(self)@.items == old(self)@.items
                &&& final(self)@.requesters == old(self)@.requesters
                &&& final(self)@.next_id == old(self)@.next_id
                &&& final(self)@.clock == old(self)@.clock + 1
                &&& final(self)@.exams.len() == old(self)@.exams.len()
                &&& forall|i: int|
                    0 <= i < old(self)@.exams.len() && old(self)@.exams[i].id@
                        != input.attendance_id@ ==> final(self)@.exams[i] == old(self)@.exams[i]
                &&& forall|i: int|
                    0 <= i < old(self)@.exams.len() && old(self)@.exams[i].id@
                        == input.attendance_id@ ==> completed_version(
                        old(self)@.exams[i],
                        final(self)@.exams[i],
                        "t"@ + dec_str(old(self)@.clock),
                    )
                &&& (attendance_rows_spec(final(self)@, input.attendance_id@).len() == 0 ==> r
                    == Err::<AttendanceQueueItemView, PatientRepositoryError>(
                    PatientRepositoryError::NotFound,
                ))
                &&& (attendance_rows_spec(final(self)@, input.attendance_id@).len() > 0 ==> (
                r matches Ok(it) && it@ == queue_fold(
                    attendance_rows_spec(final(self)@, input.attendance_id@),
                )[0]))
            }),
    {
        if !has_exam_exec(&self.exams, &input.attendance_id) {
            return Err(PatientRepositoryError::NotFound);
        }
        if self.next_id == u64::MAX || self.clock == u64::MAX {
            return Err(PatientRepositoryError::PersistenceError);
        }
        let ts = make_tag("t", self.clock);
        let mut i: usize = 0;
        while i < self.exams.len()
            invariant
                0 <= i <= self.exams@.len(),
                self.exams@.len() == old(self)@.exams.len(),
                ts@ == "t"@ + dec_str(old(self)@.clock),
                self.patients@ == old(self)@.patients,
                self.items@ == old(self)@.items,
                self.requesters@ == old(self)@.requesters,
                self.next_id == old(self).next_id,
                self.clock == old(self).clock,
                forall|j: int|
                    i <= j < self.exams@.len() ==> self.exams@[j] == old(self)@.exams[j],
                forall|j: int|
                    0 <= j < i && old(self)@.exams[j].id@ != input.attendance_id@ ==> self.exams@[j]
                        == old(self)@.exams[j],
                forall|j: int|
                    0 <= j < i && old(self)@.exams[j].id@ == input.attendance_id@
                        ==> completed_version(old(self)@.exams[j], self.exams@[j], ts@),
            decreases self.exams@.len() - i,
        {
            if str_eq(self.exams[i].id.as_str(), input.attendance_id.as_str()) {
                self.exams[i].status = "completed".to_owned();
                self.exams[i].updated_at = ts.clone();
            }
            i += 1;
        }
        self.clock = self.clock + 1;
        self.get_attendance_by_id(&input.attendance_id)
    }

    /// Create one attendance together with its items as a single atomic
    /// unit: the parent row, an optional requester lookup whose absence is
    /// tolerated, and one child row per descriptor in input order, all
    /// visible at once or not at all.  Fails with `PersistenceError`
    /// exactly when the referenced patient does not exist or the id counter
    /// cannot assign the needed ids.
    pub fn create_attendance(&mut self, input: CreateAttendanceInput) -> (r: Result<
        PatientRecordEntryView,
        PatientRepositoryError,
    >)
        ensures
            find_patient(old(self)@.patients, input.patient_id@) < 0 ==> r == Err::<
                PatientRecordEntryView,
                PatientRepositoryError,
            >(PatientRepositoryError::PersistenceError) && final(self)@ == old(self)@,
            find_patient(old(self)@.patients, input.patient_id@) >= 0 && !create_counters_ok(
                old(self)@,
                input.items@.len() as int,
            ) ==> r == Err::<PatientRecordEntryView, PatientRepositoryError>(
                PatientRepositoryError::PersistenceError,
            ) && final(self)@ == old(self)@,
            find_patient(old(self)@.patients, input.patient_id@) >= 0 && create_counters_ok(
                old(self)@,
                input.items@.len() as int,
            ) ==> ({
                &&& r matches Ok(entry) && created_entry_ok(entry@, input, old(self)@)
                &&& final(self)@.patients == old(self)@.patients
                &&& final(self)@.requesters == old(self)@.requesters
                &&& final(self)@.exams.len() == old(self)@.exams.len() + 1
                &&& final(self)@.exams.subrange(0, old(self)@.exams.len() as int) == old(
                    self,
                )@.exams
                &&& created_exam_ok(final(self)@.exams.last(), input, old(self)@)
                &&& final(self)@.items.len() == old(self)@.items.len() + input.items@.len()
                &&& final(self)@.items.subrange(0, old(self)@.items.len() as int) == old(
                    self,
                )@.items
                &&& forall|k: int|
                    0 <= k < input.items@.len() ==> stored_item_ok(
                        final(self)@.items[old(self)@.items.len() + k],
                        #[trigger] input.items@[k],
                        exam_id_of(old(self)@.next_id),
                        item_id_of(old(self)@.next_id, k),
                    )
                &&& final(self)@.next_id == old(self)@.next_id + 1 + input.items@.len()
                &&& final(self)@.clock == old(self)@.clock + 1
            }),
    {
        let ghost input0 = input;
        let CreateAttendanceInput {
            patient_id,
            exam_date,
            requester_id,
            status,
            procedure_type,
            delivered_to,
            notes,
            items,
        } = input;
        let found = find_patient_idx(&self.patients, &patient_id);
        if found.is_none() {
            return Err(PatientRepositoryError::PersistenceError);
        }
        let n_u64: u64 = items.len() as u64;
        let counters_fine = n_u64 <= u64::MAX - 1 && self.next_id <= u64::MAX - 1 - n_u64
            && self.clock < u64::MAX;
        proof {
            assert(counters_fine == create_counters_ok(self@, input0.items@.len() as int));
        }
        if !counters_fine {
            return Err(PatientRepositoryError::PersistenceError);
        }
        let base: u64 = self.next_id;
        let exam_id = make_tag("e", base);
        let ts = make_tag("t", self.clock);
        let status_s: String = match normalize_text(status) {
            None => "waiting".to_owned(),
            Some(st) => st,
        };
        proof {
            assert(status_s@ == norm_status(input0.status));
        }
        let requester_id_n = normalize_text(requester_id);
        let requester_name: Option<String> = match &requester_id_n {
            None => None,
            Some(rid) => find_requester_name_exec(&self.requesters, rid),
        };
        let exam = ExamRow {
            id: exam_id.clone(),
            patient_id: patient_id.clone(),
            requester_id: requester_id_n,
            exam_date: exam_date.clone(),
            status: status_s.clone(),
            procedure_type: normalize_text(procedure_type),
            delivered_to: normalize_text(delivered_to),
            notes: normalize_text(notes),
            updated_at: ts.clone(),
        };
        self.exams.push(exam);
        proof {
            assert(self.exams@.subrange(0, old(self)@.exams.len() as int) =~= old(self)@.exams);
        }
        let mut out_items: Vec<PatientRecordExamItemView> = Vec::new();
        let mut k: usize = 0;
        while k < items.len()
            invariant
                0 <= k <= items@.len(),
                items@ == input0.items@,
                base == old(self)@.next_id,
                base + 1 + items@.len() <= u64::MAX,
                exam_id@ == exam_id_of(base as int),
                self.patients@ == old(self)@.patients,
                self.requesters@ == old(self)@.requesters,
                self.exams@.len() == old(self)@.exams.len() + 1,
                self.exams@.subrange(0, old(self)@.exams.len() as int) == old(self)@.exams,
                created_exam_ok(self.exams@.last(), input0, old(self)@),
                self.next_id == old(self).next_id,
                self.clock == old(self).clock,
                self.items@.len() == old(self)@.items.len() + k,
                self.items@.subrange(0, old(self)@.items.len() as int) == old(self)@.items,
                forall|j: int|
                    0 <= j < k ==> stored_item_ok(
                        self.items@[old(self)@.items.len() + j],
                        #[trigger] items@[j],
                        exam_id_of(base as int),
                        item_id_of(base as int, j),
                    ),
                out_items@.len() == k,
                forall|j: int|
                    0 <= j < k ==> created_item_view_ok(
                        #[trigger] out_items@[j]@,
                        items@[j],
                        item_id_of(base as int, j),
                    ),
            decreases items@.len() - k,
        {
            let it = &items[k];
            let item_id = make_tag("i", base + 1 + (k as u64));
            proof {
                assert(item_id@ == item_id_of(base as int, k as int));
            }
            let unit_n = normalize_text(clone_opt(&it.unit));
            let method_n = normalize_text(clone_opt(&it.method));
            let range_n = normalize_text(clone_opt(&it.reference_range));
            let view_item = PatientRecordExamItemView {
                exam_item_id: item_id.clone(),
                name: it.name.clone(),
                unit: clone_opt(&unit_n),
                method: clone_opt(&method_n),
                reference_range: clone_opt(&range_n),
                result_value: None,
                result_flag: None,
                report_available: false,
            };
            let row = ItemRow {
                id: item_id,
                exam_id: exam_id.clone(),
                name: it.name.clone(),
                unit: unit_n,
                method: method_n,
                reference_range: range_n,
                result_value: None,
                result_flag: None,
            };
            let ghost items_pre = self.items@;
            let ghost out_pre = out_items@;
            self.items.push(row);
            out_items.push(view_item);
            proof {
                assert(self.items@.subrange(0, old(self)@.items.len() as int) =~= old(
                    self,
                )@.items);
                assert forall|j: int| 0 <= j < k + 1 implies stored_item_ok(
                    self.items@[old(self)@.items.len() + j],
                    #[trigger] items@[j],
                    exam_id_of(base as int),
                    item_id_of(base as int, j),
                ) by {
                    if j < k {
                        assert(self.items@[old(self)@.items.len() + j] == items_pre[old(
                            self,
                        )@.items.len() + j]);
                    }
                }
                assert forall|j: int| 0 <= j < k + 1 implies created_item_view_ok(
                    #[trigger] out_items@[j]@,
                    items@[j],
                    item_id_of(base as int, j),
                ) by {
                    if j < k {
                        assert(out_items@[j] == out_pre[j]);
                    }
                }
            }
            k += 1;
        }
        self.next_id = base + 1 + n_u64;
        self.clock = self.clock + 1;
        let entry = PatientRecordEntryView {
            exam_id,
            exam_date,
            status: status_s,
            requester_name,
            items: out_items,
        };
        proof {
            assert(created_entry_ok(entry@, input0, old(self)@));
        }
        Ok(entry)
    }
}

impl PatientRepository for MemoryLab {
    fn insert(&mut self, input: CreatePatientInput) -> (r: Result<
        Patient,
        PatientRepositoryError,
    >) {
        MemoryLab::insert(self, input)
    }

    fn list(&self, query: Option<String>) -> (r: Result<Vec<Patient>, PatientRepositoryError>) {
        let r = MemoryLab::list(self, query);
        proof {
            lemma_list_spec_elements(self@.patients, effective_query(query));
        }
        r
    }

    fn get_patient_record(&self, patient_id: String) -> (r: Result<
        PatientRecordView,
        PatientRepositoryError,
    >) {
        let r = MemoryLab::get_patient_record(self, patient_id);
        proof {
            lemma_find_patient_props(self@.patients, patient_id@);
        }
        r
    }

    fn list_exam_catalog(&self) -> (r: Result<Vec<ExamCatalogItemView>, PatientRepositoryError>) {
        MemoryLab::list_exam_catalog(self)
    }

    fn create_attendance(&mut self, input: CreateAttendanceInput) -> (r: Result<
        PatientRecordEntryView,
        PatientRepositoryError,
    >) {
        MemoryLab::create_attendance(self, input)
    }

    fn list_attendance_queue(&self, input: AttendanceQueueQueryInput) -> (r: Result<
        Vec<AttendanceQueueItemView>,
        PatientRepositoryError,
    >) {
        let r = MemoryLab::list_attendance_queue(self, input);
        proof {
            let date = norm_text(input.date);
            let status = norm_text(input.status);
            let q = text_filter(input.query);
            let kept = filter_queue_rows(queue_rows_spec(self@), date, status, q);
            lemma_filter_queue_rows_pass(queue_rows_spec(self@), date, status, q);
            crate::aggregate::lemma_queue_fold_items_from_rows(kept);
            crate::aggregate::lemma_queue_fold_distinct_names(kept);
            if r is Ok {
                let items = r->Ok_0;
                assert forall|i: int| 0 <= i < items@.len() implies (queue_item_passes(
                    (#[trigger] items@[i])@,
                    date,
                    status,
                ) && crate::aggregate::distinct_names(items@[i]@.exam_names)) by {
                    assert(queue_items_view(items@)[i] == items@[i]@);
                    assert(queue_fold(kept)[i] == items@[i]@);
                    let z = choose|z: int|
                        0 <= z < kept.len() && crate::aggregate::item_from_row_fields(
                            kept[z],
                            queue_fold(kept)[i],
                        );
                    assert(queue_row_passes(kept[z], date, status, q));
                }
            }
        }
        r
    }

    fn complete_attendance(&mut self, input: CompleteAttendanceInput) -> (r: Result<
        AttendanceQueueItemView,
        PatientRepositoryError,
    >) {
        let r = MemoryLab::complete_attendance(self, input);
        proof {
            let aid = input.attendance_id@;
            if r is Ok {
                assert forall|z: int|
                    0 <= z < self@.exams.len() && (#[trigger] self@.exams[z]).id@
                        == aid implies self@.exams[z].status@ == "completed"@ by {
                    if old(self)@.exams[z].id@ == aid {
                        assert(completed_version(
                            old(self)@.exams[z],
                            self@.exams[z],
                            "t"@ + dec_str(old(self)@.clock),
                        ));
                    } else {
                        assert(self@.exams[z] == old(self)@.exams[z]);
                    }
                }
                let rows = attendance_rows_spec(self@, aid);
                lemma_attendance_rows_status(self@, self@.exams.len() as int, aid, "completed"@);
                lemma_queue_fold_nonempty(rows);
                crate::aggregate::lemma_queue_fold_items_from_rows(rows);
                let z = choose|z: int|
                    0 <= z < rows.len() && crate::aggregate::item_from_row_fields(
                        rows[z],
                        queue_fold(rows)[0],
                    );
                assert(rows[z].attendance_id == aid && rows[z].status == "completed"@);
            }
        }
        r
    }
}

} // verus!
