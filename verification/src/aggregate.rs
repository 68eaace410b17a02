//! The row aggregator: folds the flat rows produced by a one-to-many join
//! (parent columns repeated per child row, child columns absent when the
//! parent has no children) into a sequence of parent objects carrying their
//! nested children, with no duplicate parents and no lost children.
//!
//! Rows are processed in the order received.  The first sight of a parent
//! key materialises the parent; every row carrying a child appends it to
//! that parent unless the same child key was appended to it before.  A
//! parent is indexed by key, not by position, so a key arriving
//! non-contiguously still aggregates correctly.
//!
//! The same algorithm serves two shapes: record entries carrying full item
//! detail (children keyed by item id), and queue items carrying only
//! distinct item names (children keyed by the name itself).

use vstd::prelude::*;

use crate::dto::{
    clone_opt, opt_text, AttendanceQueueItemView, PatientRecordEntryView,
    PatientRecordExamItemView, SpecQueueItem, SpecRecordEntry, SpecRecordItem,
};
use crate::text::str_eq;

verus! {

/// One flat row of the record join: attendance columns plus, when the
/// attendance has items, one of its items.
#[derive(Clone, Debug)]
pub struct RecordRow {
    pub exam_id: String,
    pub exam_date: String,
    pub status: String,
    pub requester_name: Option<String>,
    pub item: Option<RecordItemRow>,
}

/// The item columns of one record join row.
#[derive(Clone, Debug)]
pub struct RecordItemRow {
    pub exam_item_id: String,
    pub name: String,
    pub unit: Option<String>,
    pub method: Option<String>,
    pub reference_range: Option<String>,
    pub result_value: Option<String>,
    pub result_flag: Option<String>,
}

/// Abstract value of [`RecordItemRow`].
#[verifier::ext_equal]
pub struct SpecRecordRowItem {
    pub exam_item_id: Seq<char>,
    pub name: Seq<char>,
    pub unit: Option<Seq<char>>,
    pub method: Option<Seq<char>>,
    pub reference_range: Option<Seq<char>>,
    pub result_value: Option<Seq<char>>,
    pub result_flag: Option<Seq<char>>,
}

impl View for RecordItemRow {
    type V = SpecRecordRowItem;

    open spec fn view(&self) -> SpecRecordRowItem {
        SpecRecordRowItem {
            exam_item_id: self.exam_item_id@,
            name: self.name@,
            unit: opt_text(self.unit),
            method: opt_text(self.method),
            reference_range: opt_text(self.reference_range),
            result_value: opt_text(self.result_value),
            result_flag: opt_text(self.result_flag),
        }
    }
}

/// Abstract value of [`RecordRow`].
#[verifier::ext_equal]
pub struct SpecRecordRow {
    pub exam_id: Seq<char>,
    pub exam_date: Seq<char>,
    pub status: Seq<char>,
    pub requester_name: Option<Seq<char>>,
    pub item: Option<SpecRecordRowItem>,
}

impl View for RecordRow {
    type V = SpecRecordRow;

    open spec fn view(&self) -> SpecRecordRow {
        SpecRecordRow {
            exam_id: self.exam_id@,
            exam_date: self.exam_date@,
            status: self.status@,
            requester_name: opt_text(self.requester_name),
            item: match self.item {
                Some(it) => Some(it@),
                None => None,
            },
        }
    }
}

/// One flat row of the queue join: attendance and patient columns plus,
/// when the attendance has items, one item name.
#[derive(Clone, Debug)]
pub struct QueueRow {
    pub attendance_id: String,
    pub patient_id: String,
    pub patient_name: String,
    pub patient_cpf: String,
    pub exam_date: String,
    pub status: String,
    pub updated_at: String,
    pub exam_name: Option<String>,
}

/// Abstract value of [`QueueRow`].
#[verifier::ext_equal]
pub struct SpecQueueRow {
    pub attendance_id: Seq<char>,
    pub patient_id: Seq<char>,
    pub patient_name: Seq<char>,
    pub patient_cpf: Seq<char>,
    pub exam_date: Seq<char>,
    pub status: Seq<char>,
    pub updated_at: Seq<char>,
    pub exam_name: Option<Seq<char>>,
}

impl View for QueueRow {
    type V = SpecQueueRow;

    open spec fn view(&self) -> SpecQueueRow {
        SpecQueueRow {
            attendance_id: self.attendance_id@,
            patient_id: self.patient_id@,
            patient_name: self.patient_name@,
            patient_cpf: self.patient_cpf@,
            exam_date: self.exam_date@,
            status: self.status@,
            updated_at: self.updated_at@,
            exam_name: opt_text(self.exam_name),
        }
    }
}

/// The abstract values of a sequence of record rows.
pub open spec fn record_rows_view(rows: Seq<RecordRow>) -> Seq<SpecRecordRow> {
    rows.map_values(|r: RecordRow| r@)
}

/// The abstract values of a sequence of record entries.
pub open spec fn entries_view(es: Seq<PatientRecordEntryView>) -> Seq<SpecRecordEntry> {
    es.map_values(|e: PatientRecordEntryView| e@)
}

/// The abstract values of a sequence of queue rows.
pub open spec fn queue_rows_view(rows: Seq<QueueRow>) -> Seq<SpecQueueRow> {
    rows.map_values(|r: QueueRow| r@)
}

/// The abstract values of a sequence of queue items.
pub open spec fn queue_items_view(items: Seq<AttendanceQueueItemView>) -> Seq<SpecQueueItem> {
    items.map_values(|it: AttendanceQueueItemView| it@)
}

/// The record item built from one row's item columns: a report is available
/// exactly when a result value or a result flag is present.
pub open spec fn record_item_of_row(it: SpecRecordRowItem) -> SpecRecordItem {
    SpecRecordItem {
        exam_item_id: it.exam_item_id,
        name: it.name,
        unit: it.unit,
        method: it.method,
        reference_range: it.reference_range,
        result_value: it.result_value,
        result_flag: it.result_flag,
        report_available: it.result_value is Some || it.result_flag is Some,
    }
}

/// Index of the first entry carrying `exam_id`, or `-1` when none does.
pub open spec fn entry_index(entries: Seq<SpecRecordEntry>, exam_id: Seq<char>) -> int
    decreases entries.len(),
{
    if entries.len() == 0 {
        -1
    } else if entries[0].exam_id == exam_id {
        0
    } else {
        let t = entry_index(entries.drop_first(), exam_id);
        if t < 0 {
            -1
        } else {
            t + 1
        }
    }
}

/// Whether an item with this id was already appended.
pub open spec fn items_have_id(items: Seq<SpecRecordItem>, id: Seq<char>) -> bool {
    exists|k: int| 0 <= k < items.len() && items[k].exam_item_id == id
}

/// The entry materialised on first sight of a parent key.
pub open spec fn new_record_entry(row: SpecRecordRow) -> SpecRecordEntry {
    SpecRecordEntry {
        exam_id: row.exam_id,
        exam_date: row.exam_date,
        status: row.status,
        requester_name: row.requester_name,
        items: match row.item {
            None => Seq::<SpecRecordItem>::empty(),
            Some(it) => seq![record_item_of_row(it)],
        },
    }
}

/// One aggregation step of the record shape.
pub open spec fn record_step(acc: Seq<SpecRecordEntry>, row: SpecRecordRow) -> Seq<
    SpecRecordEntry,
> {
    let j = entry_index(acc, row.exam_id);
    if j < 0 {
        acc.push(new_record_entry(row))
    } else {
        match row.item {
            None => acc,
            Some(it) => if items_have_id(acc[j].items, it.exam_item_id) {
                acc
            } else {
                acc.update(
                    j,
                    SpecRecordEntry {
                        exam_id: acc[j].exam_id,
                        exam_date: acc[j].exam_date,
                        status: acc[j].status,
                        requester_name: acc[j].requester_name,
                        items: acc[j].items.push(record_item_of_row(it)),
                    },
                )
            },
        }
    }
}

/// The record aggregation: rows folded in the order received.
pub open spec fn record_fold(rows: Seq<SpecRecordRow>) -> Seq<SpecRecordEntry>
    decreases rows.len(),
{
    if rows.len() == 0 {
        Seq::<SpecRecordEntry>::empty()
    } else {
        record_step(record_fold(rows.drop_last()), rows.last())
    }
}

/// Index of the first queue item carrying `attendance_id`, or `-1`.
pub open spec fn queue_index(items: Seq<SpecQueueItem>, attendance_id: Seq<char>) -> int
    decreases items.len(),
{
    if items.len() == 0 {
        -1
    } else if items[0].attendance_id == attendance_id {
        0
    } else {
        let t = queue_index(items.drop_first(), attendance_id);
        if t < 0 {
            -1
        } else {
            t + 1
        }
    }
}

/// Whether this name was already appended.
pub open spec fn names_have(names: Seq<Seq<char>>, name: Seq<char>) -> bool {
    exists|k: int| 0 <= k < names.len() && names[k] == name
}

/// The queue item materialised on first sight of a parent key.
pub open spec fn new_queue_item(row: SpecQueueRow) -> SpecQueueItem {
    SpecQueueItem {
        attendance_id: row.attendance_id,
        patient_id: row.patient_id,
        patient_name: row.patient_name,
        patient_cpf: row.patient_cpf,
        exam_date: row.exam_date,
        status: row.status,
        exam_names: match row.exam_name {
            None => Seq::<Seq<char>>::empty(),
            Some(n) => seq![n],
        },
        updated_at: row.updated_at,
    }
}

/// One aggregation step of the queue shape: children are item names,
/// de-duplicated by equality.
pub open spec fn queue_step(acc: Seq<SpecQueueItem>, row: SpecQueueRow) -> Seq<SpecQueueItem> {
    let j = queue_index(acc, row.attendance_id);
    if j < 0 {
        acc.push(new_queue_item(row))
    } else {
        match row.exam_name {
            None => acc,
            Some(n) => if names_have(acc[j].exam_names, n) {
                acc
            } else {
                acc.update(
                    j,
                    SpecQueueItem {
                        attendance_id: acc[j].attendance_id,
                        patient_id: acc[j].patient_id,
                        patient_name: acc[j].patient_name,
                        patient_cpf: acc[j].patient_cpf,
                        exam_date: acc[j].exam_date,
                        status: acc[j].status,
                        exam_names: acc[j].exam_names.push(n),
                        updated_at: acc[j].updated_at,
                    },
                )
            },
        }
    }
}

/// The queue aggregation: rows folded in the order received.
pub open spec fn queue_fold(rows: Seq<SpecQueueRow>) -> Seq<SpecQueueItem>
    decreases rows.len(),
{
    if rows.len() == 0 {
        Seq::<SpecQueueItem>::empty()
    } else {
        queue_step(queue_fold(rows.drop_last()), rows.last())
    }
}

proof fn lemma_entry_index_at(acc: Seq<SpecRecordEntry>, id: Seq<char>, i: int)
    requires
        0 <= i <= acc.len(),
        forall|k: int| 0 <= k < i ==> acc[k].exam_id != id,
        i < acc.len() ==> acc[i].exam_id == id,
    ensures
        entry_index(acc, id) == if i == acc.len() {
            -1 as int
        } else {
            i
        },
    decreases i,
{
    if i == 0 {
    } else {
        lemma_entry_index_at(acc.drop_first(), id, i - 1);
    }
}

proof fn lemma_queue_index_at(acc: Seq<SpecQueueItem>, id: Seq<char>, i: int)
    requires
        0 <= i <= acc.len(),
        forall|k: int| 0 <= k < i ==> acc[k].attendance_id != id,
        i < acc.len() ==> acc[i].attendance_id == id,
    ensures
        queue_index(acc, id) == if i == acc.len() {
            -1 as int
        } else {
            i
        },
    decreases i,
{
    if i == 0 {
    } else {
        lemma_queue_index_at(acc.drop_first(), id, i - 1);
    }
}

/// What `entry_index` finds: `-1` means the key is absent, a non-negative
/// index points at the one entry carrying it.
pub proof fn lemma_entry_index_props(acc: Seq<SpecRecordEntry>, id: Seq<char>)
    ensures
        entry_index(acc, id) < 0 ==> forall|j: int| 0 <= j < acc.len() ==> acc[j].exam_id != id,
        entry_index(acc, id) >= 0 ==> 0 <= entry_index(acc, id) < acc.len() && acc[entry_index(
            acc,
            id,
        )].exam_id == id,
    decreases acc.len(),
{
    if acc.len() > 0 && acc[0].exam_id != id {
        lemma_entry_index_props(acc.drop_first(), id);
        if entry_index(acc, id) < 0 {
            assert forall|j: int| 0 <= j < acc.len() implies acc[j].exam_id != id by {
                if j > 0 {
                    assert(acc.drop_first()[j - 1] == acc[j]);
                }
            }
        }
    }
}

/// What `queue_index` finds.
pub proof fn lemma_queue_index_props(acc: Seq<SpecQueueItem>, id: Seq<char>)
    ensures
        queue_index(acc, id) < 0 ==> forall|j: int|
            0 <= j < acc.len() ==> acc[j].attendance_id != id,
        queue_index(acc, id) >= 0 ==> 0 <= queue_index(acc, id) < acc.len() && acc[queue_index(
            acc,
            id,
        )].attendance_id == id,
    decreases acc.len(),
{
    if acc.len() > 0 && acc[0].attendance_id != id {
        lemma_queue_index_props(acc.drop_first(), id);
        if queue_index(acc, id) < 0 {
            assert forall|j: int| 0 <= j < acc.len() implies acc[j].attendance_id != id by {
                if j > 0 {
                    assert(acc.drop_first()[j - 1] == acc[j]);
                }
            }
        }
    }
}

/// Whether an aggregated item carries the parent columns of this row.
pub open spec fn item_from_row_fields(row: SpecQueueRow, it: SpecQueueItem) -> bool {
    &&& it.attendance_id == row.attendance_id
    &&& it.patient_id == row.patient_id
    &&& it.patient_name == row.patient_name
    &&& it.patient_cpf == row.patient_cpf
    &&& it.exam_date == row.exam_date
    &&& it.status == row.status
    &&& it.updated_at == row.updated_at
}

/// Pairwise-distinct child names.
pub open spec fn distinct_names(names: Seq<Seq<char>>) -> bool {
    forall|a: int, b: int| 0 <= a < b < names.len() ==> names[a] != names[b]
}

/// Every aggregated queue item takes its parent columns from one of the
/// rows: the aggregation invents no parent.
pub proof fn lemma_queue_fold_items_from_rows(rows: Seq<SpecQueueRow>)
    ensures
        forall|j: int|
            0 <= j < queue_fold(rows).len() ==> exists|i: int|
                0 <= i < rows.len() && item_from_row_fields(rows[i], #[trigger] queue_fold(rows)[j]),
    decreases rows.len(),
{
    if rows.len() > 0 {
        lemma_queue_fold_items_from_rows(rows.drop_last());
        let acc = queue_fold(rows.drop_last());
        let row = rows.last();
        let out = queue_fold(rows);
        assert forall|j: int| 0 <= j < out.len() implies exists|i: int|
            0 <= i < rows.len() && item_from_row_fields(rows[i], #[trigger] out[j]) by {
            if j < acc.len() && out[j] == acc[j] {
                let i0 = choose|i: int|
                    0 <= i < rows.drop_last().len() && item_from_row_fields(
                        rows.drop_last()[i],
                        acc[j],
                    );
                assert(rows[i0] == rows.drop_last()[i0]);
                assert(item_from_row_fields(rows[i0], out[j]));
            } else {
                let jx = queue_index(acc, row.attendance_id);
                if jx < 0 {
                    assert(out == acc.push(new_queue_item(row)));
                    if j < acc.len() {
                        assert(out[j] == acc[j]);
                    } else {
                        assert(out[j] == new_queue_item(row));
                        assert(item_from_row_fields(rows[rows.len() - 1], out[j]));
                    }
                } else {
                    lemma_queue_index_props(acc, row.attendance_id);
                    match row.exam_name {
                        None => {
                            assert(out[j] == acc[j]);
                        },
                        Some(n) => {
                            if names_have(acc[jx].exam_names, n) {
                                assert(out[j] == acc[j]);
                            } else {
                                if j == jx {
                                    let i0 = choose|i: int|
                                        0 <= i < rows.drop_last().len() && item_from_row_fields(
                                            rows.drop_last()[i],
                                            acc[jx],
                                        );
                                    assert(rows[i0] == rows.drop_last()[i0]);
                                    assert(item_from_row_fields(rows[i0], out[j]));
                                } else {
                                    assert(out[j] == acc[j]);
                                }
                            }
                        },
                    }
                }
            }
        }
    }
}

/// The names of every aggregated queue item are pairwise distinct: a
/// repeated child name is never appended twice.
pub proof fn lemma_queue_fold_distinct_names(rows: Seq<SpecQueueRow>)
    ensures
        forall|j: int|
            0 <= j < queue_fold(rows).len() ==> distinct_names(
                (#[trigger] queue_fold(rows)[j]).exam_names,
            ),
    decreases rows.len(),
{
    if rows.len() > 0 {
        lemma_queue_fold_distinct_names(rows.drop_last());
        let acc = queue_fold(rows.drop_last());
        let row = rows.last();
        let out = queue_fold(rows);
        assert forall|j: int| 0 <= j < out.len() implies distinct_names(
            (#[trigger] out[j]).exam_names,
        ) by {
            let jx = queue_index(acc, row.attendance_id);
            if jx < 0 {
                if j < acc.len() {
                    assert(out[j] == acc[j]);
                } else {
                    assert(out[j] == new_queue_item(row));
                }
            } else {
                lemma_queue_index_props(acc, row.attendance_id);
                match row.exam_name {
                    None => {
                        assert(out[j] == acc[j]);
                    },
                    Some(n) => {
                        if names_have(acc[jx].exam_names, n) {
                            assert(out[j] == acc[j]);
                        } else {
                            if j == jx {
                                let names = acc[jx].exam_names;
                                assert(distinct_names(names));
                                assert(out[j].exam_names == names.push(n));
                                assert forall|a: int, b: int|
                                    0 <= a < b < names.push(n).len() implies names.push(n)[a]
                                    != names.push(n)[b] by {
                                    if b < names.len() {
                                        assert(names.push(n)[a] == names[a]);
                                        assert(names.push(n)[b] == names[b]);
                                    } else {
                                        assert(names.push(n)[b] == n);
                                        assert(!names_have(names, n));
                                        assert(names.push(n)[a] == names[a]);
                                    }
                                }
                            } else {
                                assert(out[j] == acc[j]);
                            }
                        }
                    },
                }
            }
        }
    }
}

/// Whether some queue row carries this parent key.
pub open spec fn qrows_have_key(rows: Seq<SpecQueueRow>, k: Seq<char>) -> bool {
    exists|i: int| 0 <= i < rows.len() && rows[i].attendance_id == k
}

/// Whether some queue item carries this parent key.
pub open spec fn qitems_have_key(items: Seq<SpecQueueItem>, k: Seq<char>) -> bool {
    exists|j: int| 0 <= j < items.len() && items[j].attendance_id == k
}

/// A parent key appears among the aggregated queue items exactly when some
/// row carries it.
pub proof fn lemma_queue_fold_keys(rows: Seq<SpecQueueRow>, k: Seq<char>)
    ensures
        qrows_have_key(rows, k) <==> qitems_have_key(queue_fold(rows), k),
    decreases rows.len(),
{
    if rows.len() > 0 {
        lemma_queue_fold_keys(rows.drop_last(), k);
        let acc = queue_fold(rows.drop_last());
        let row = rows.last();
        let out = queue_fold(rows);
        let jx = queue_index(acc, row.attendance_id);
        lemma_queue_index_props(acc, row.attendance_id);
        if qrows_have_key(rows, k) {
            let i0 = choose|i: int| 0 <= i < rows.len() && rows[i].attendance_id == k;
            if i0 < rows.len() - 1 {
                assert(rows.drop_last()[i0] == rows[i0]);
                assert(qrows_have_key(rows.drop_last(), k));
                let j0 = choose|j: int| 0 <= j < acc.len() && acc[j].attendance_id == k;
                if jx < 0 {
                    assert(out[j0] == acc[j0]);
                    assert(qitems_have_key(out, k));
                } else {
                    assert(out.len() == acc.len());
                    assert(out[j0].attendance_id == acc[j0].attendance_id);
                    assert(qitems_have_key(out, k));
                }
            } else {
                assert(row.attendance_id == k);
                if jx < 0 {
                    assert(out == acc.push(new_queue_item(row)));
                    assert(out[out.len() - 1].attendance_id == k);
                    assert(qitems_have_key(out, k));
                } else {
                    assert(out.len() == acc.len());
                    assert(out[jx].attendance_id == acc[jx].attendance_id);
                    assert(acc[jx].attendance_id == k);
                    assert(qitems_have_key(out, k));
                }
            }
        }
        if qitems_have_key(out, k) {
            let j0 = choose|j: int| 0 <= j < out.len() && out[j].attendance_id == k;
            if jx < 0 {
                assert(out == acc.push(new_queue_item(row)));
                if j0 < acc.len() {
                    assert(acc[j0].attendance_id == k);
                    assert(qitems_have_key(acc, k));
                    let i1 = choose|i: int|
                        0 <= i < rows.drop_last().len() && rows.drop_last()[i].attendance_id == k;
                    assert(rows[i1] == rows.drop_last()[i1]);
                    assert(qrows_have_key(rows, k));
                } else {
                    assert(out[j0] == new_queue_item(row));
                    assert(rows[rows.len() - 1].attendance_id == k);
                    assert(qrows_have_key(rows, k));
                }
            } else {
                assert(out.len() == acc.len());
                assert(out[j0].attendance_id == acc[j0].attendance_id);
                assert(qitems_have_key(acc, k));
                let i1 = choose|i: int|
                    0 <= i < rows.drop_last().len() && rows.drop_last()[i].attendance_id == k;
                assert(rows[i1] == rows.drop_last()[i1]);
                assert(qrows_have_key(rows, k));
            }
        }
    }
}

/// Whether some row carries this parent key.
pub open spec fn rows_have_key(rows: Seq<SpecRecordRow>, k: Seq<char>) -> bool {
    exists|i: int| 0 <= i < rows.len() && rows[i].exam_id == k
}

/// Whether some entry carries this parent key.
pub open spec fn entries_have_key(es: Seq<SpecRecordEntry>, k: Seq<char>) -> bool {
    exists|j: int| 0 <= j < es.len() && es[j].exam_id == k
}

/// A parent key appears among the aggregated entries exactly when some row
/// carries it: no parent is dropped and none is invented.
pub proof fn lemma_record_fold_keys(rows: Seq<SpecRecordRow>, k: Seq<char>)
    ensures
        rows_have_key(rows, k) <==> entries_have_key(record_fold(rows), k),
    decreases rows.len(),
{
    if rows.len() > 0 {
        lemma_record_fold_keys(rows.drop_last(), k);
        let acc = record_fold(rows.drop_last());
        let row = rows.last();
        let out = record_fold(rows);
        let jx = entry_index(acc, row.exam_id);
        lemma_entry_index_props(acc, row.exam_id);
        if rows_have_key(rows, k) {
            let i0 = choose|i: int| 0 <= i < rows.len() && rows[i].exam_id == k;
            if i0 < rows.len() - 1 {
                assert(rows.drop_last()[i0] == rows[i0]);
                assert(rows_have_key(rows.drop_last(), k));
                let j0 = choose|j: int| 0 <= j < acc.len() && acc[j].exam_id == k;
                if jx < 0 {
                    assert(out[j0] == acc[j0]);
                    assert(entries_have_key(out, k));
                } else {
                    assert(out.len() == acc.len());
                    assert(out[j0].exam_id == acc[j0].exam_id);
                    assert(entries_have_key(out, k));
                }
            } else {
                assert(row.exam_id == k);
                if jx < 0 {
                    assert(out == acc.push(new_record_entry(row)));
                    assert(out[out.len() - 1].exam_id == k);
                    assert(entries_have_key(out, k));
                } else {
                    assert(out.len() == acc.len());
                    assert(out[jx].exam_id == acc[jx].exam_id);
                    assert(acc[jx].exam_id == k);
                    assert(entries_have_key(out, k));
                }
            }
        }
        if entries_have_key(out, k) {
            let j0 = choose|j: int| 0 <= j < out.len() && out[j].exam_id == k;
            if jx < 0 {
                assert(out == acc.push(new_record_entry(row)));
                if j0 < acc.len() {
                    assert(acc[j0].exam_id == k);
                    assert(entries_have_key(acc, k));
                    let i1 = choose|i: int|
                        0 <= i < rows.drop_last().len() && rows.drop_last()[i].exam_id == k;
                    assert(rows[i1] == rows.drop_last()[i1]);
                    assert(rows_have_key(rows, k));
                } else {
                    assert(out[j0] == new_record_entry(row));
                    assert(rows[rows.len() - 1].exam_id == k);
                    assert(rows_have_key(rows, k));
                }
            } else {
                assert(out.len() == acc.len());
                assert(out[j0].exam_id == acc[j0].exam_id);
                assert(entries_have_key(acc, k));
                let i1 = choose|i: int|
                    0 <= i < rows.drop_last().len() && rows.drop_last()[i].exam_id == k;
                assert(rows[i1] == rows.drop_last()[i1]);
                assert(rows_have_key(rows, k));
            }
        }
    }
}

/// No two aggregated entries share a parent key.
pub proof fn lemma_record_fold_distinct(rows: Seq<SpecRecordRow>)
    ensures
        forall|a: int, b: int|
            0 <= a < b < record_fold(rows).len() ==> record_fold(rows)[a].exam_id != record_fold(
                rows,
            )[b].exam_id,
    decreases rows.len(),
{
    if rows.len() > 0 {
        lemma_record_fold_distinct(rows.drop_last());
        let acc = record_fold(rows.drop_last());
        let row = rows.last();
        let out = record_fold(rows);
        let jx = entry_index(acc, row.exam_id);
        lemma_entry_index_props(acc, row.exam_id);
        assert forall|a: int, b: int| 0 <= a < b < out.len() implies out[a].exam_id
            != out[b].exam_id by {
            if jx < 0 {
                assert(out == acc.push(new_record_entry(row)));
                if b < acc.len() {
                    assert(out[a] == acc[a] && out[b] == acc[b]);
                } else {
                    assert(out[a] == acc[a]);
                    assert(out[b].exam_id == row.exam_id);
                }
            } else {
                assert(out.len() == acc.len());
                assert(out[a].exam_id == acc[a].exam_id);
                assert(out[b].exam_id == acc[b].exam_id);
            }
        }
    }
}

/// A parent whose rows all arrive without child columns aggregates to an
/// entry with an empty item list: an absent child is never turned into a
/// spurious one.
pub proof fn lemma_record_fold_no_items(rows: Seq<SpecRecordRow>, k: Seq<char>)
    requires
        forall|i: int| 0 <= i < rows.len() && rows[i].exam_id == k ==> rows[i].item is None,
    ensures
        forall|j: int|
            0 <= j < record_fold(rows).len() && record_fold(rows)[j].exam_id == k ==> record_fold(
                rows,
            )[j].items.len() == 0,
    decreases rows.len(),
{
    if rows.len() > 0 {
        assert forall|i: int|
            0 <= i < rows.drop_last().len() && rows.drop_last()[i].exam_id == k implies rows.drop_last()[i].item is None by {
            assert(rows.drop_last()[i] == rows[i]);
        }
        lemma_record_fold_no_items(rows.drop_last(), k);
        let acc = record_fold(rows.drop_last());
        let row = rows.last();
        let out = record_fold(rows);
        let jx = entry_index(acc, row.exam_id);
        lemma_entry_index_props(acc, row.exam_id);
        assert forall|j: int| 0 <= j < out.len() && out[j].exam_id == k implies out[j].items.len()
            == 0 by {
            if jx < 0 {
                if j < acc.len() {
                    assert(out[j] == acc[j]);
                } else {
                    assert(out[j] == new_record_entry(row));
                    if row.exam_id == k {
                        assert(rows[rows.len() - 1].item is None);
                    }
                }
            } else {
                match row.item {
                    None => {
                        assert(out[j] == acc[j]);
                    },
                    Some(it) => {
                        if j == jx && !items_have_id(acc[jx].items, it.exam_item_id) {
                            assert(rows[rows.len() - 1].exam_id == row.exam_id);
                            if row.exam_id == k {
                                assert(rows[rows.len() - 1].item is None);
                                assert(false);
                            }
                            assert(out[j].exam_id == acc[j].exam_id);
                            assert(out[j].exam_id != k);
                        } else {
                            assert(out[j] == acc[j]);
                        }
                    },
                }
            }
        }
    }
}

fn find_entry(entries: &Vec<PatientRecordEntryView>, exam_id: &String) -> (r: Option<usize>)
    ensures
        (match r {
            Some(j) => 0 <= j < entries@.len() && entry_index(entries_view(entries@), exam_id@)
                == j,
            None => entry_index(entries_view(entries@), exam_id@) == -1,
        }),
{
    let mut i: usize = 0;
    while i < entries.len()
        invariant
            0 <= i <= entries@.len(),
            forall|k: int| 0 <= k < i ==> entries_view(entries@)[k].exam_id != exam_id@,
        decreases entries@.len() - i,
    {
        if str_eq(entries[i].exam_id.as_str(), exam_id.as_str()) {
            proof {
                lemma_entry_index_at(entries_view(entries@), exam_id@, i as int);
            }
            return Some(i);
        }
        i += 1;
    }
    proof {
        lemma_entry_index_at(entries_view(entries@), exam_id@, entries@.len() as int);
    }
    None
}

fn find_queue_item(items: &Vec<AttendanceQueueItemView>, attendance_id: &String) -> (r: Option<
    usize,
>)
    ensures
        (match r {
            Some(j) => 0 <= j < items@.len() && queue_index(queue_items_view(items@),
                attendance_id@) == j,
            None => queue_index(queue_items_view(items@), attendance_id@) == -1,
        }),
{
    let mut i: usize = 0;
    while i < items.len()
        invariant
            0 <= i <= items@.len(),
            forall|k: int| 0 <= k < i ==> queue_items_view(items@)[k].attendance_id != attendance_id@,
        decreases items@.len() - i,
    {
        if str_eq(items[i].attendance_id.as_str(), attendance_id.as_str()) {
            proof {
                lemma_queue_index_at(queue_items_view(items@), attendance_id@, i as int);
            }
            return Some(i);
        }
        i += 1;
    }
    proof {
        lemma_queue_index_at(queue_items_view(items@), attendance_id@, items@.len() as int);
    }
    None
}

fn entry_items_have_id(entry: &PatientRecordEntryView, id: &String) -> (r: bool)
    ensures
        r == items_have_id(entry@.items, id@),
{
    let mut i: usize = 0;
    while i < entry.items.len()
        invariant
            0 <= i <= entry.items@.len(),
            forall|k: int| 0 <= k < i ==> entry@.items[k].exam_item_id != id@,
        decreases entry.items@.len() - i,
    {
        if str_eq(entry.items[i].exam_item_id.as_str(), id.as_str()) {
            assert(entry@.items[i as int].exam_item_id == id@);
            return true;
        }
        i += 1;
    }
    false
}

fn item_names_have(item: &AttendanceQueueItemView, name: &String) -> (r: bool)
    ensures
        r == names_have(item@.exam_names, name@),
{
    let mut i: usize = 0;
    while i < item.exam_names.len()
        invariant
            0 <= i <= item.exam_names@.len(),
            forall|k: int| 0 <= k < i ==> item@.exam_names[k] != name@,
        decreases item.exam_names@.len() - i,
    {
        if str_eq(item.exam_names[i].as_str(), name.as_str()) {
            assert(item@.exam_names[i as int] == name@);
            return true;
        }
        i += 1;
    }
    false
}

fn record_item_from_row(it: &RecordItemRow) -> (r: PatientRecordExamItemView)
    ensures
        r@ == record_item_of_row(it@),
{
    let report_available = it.result_value.is_some() || it.result_flag.is_some();
    let r = PatientRecordExamItemView {
        exam_item_id: it.exam_item_id.clone(),
        name: it.name.clone(),
        unit: clone_opt(&it.unit),
        method: clone_opt(&it.method),
        reference_range: clone_opt(&it.reference_range),
        result_value: clone_opt(&it.result_value),
        result_flag: clone_opt(&it.result_flag),
        report_available,
    };
    proof {
        assert(r@ =~= record_item_of_row(it@));
    }
    r
}

fn new_entry_from_row(row: &RecordRow) -> (r: PatientRecordEntryView)
    ensures
        r@ == new_record_entry(row@),
{
    let items: Vec<PatientRecordExamItemView> = match &row.item {
        None => Vec::new(),
        Some(it) => {
            let mut v: Vec<PatientRecordExamItemView> = Vec::new();
            v.push(record_item_from_row(it));
            v
        },
    };
    let r = PatientRecordEntryView {
        exam_id: row.exam_id.clone(),
        exam_date: row.exam_date.clone(),
        status: row.status.clone(),
        requester_name: clone_opt(&row.requester_name),
        items,
    };
    proof {
        assert(r@ =~~= new_record_entry(row@));
    }
    r
}

fn new_queue_item_from_row(row: &QueueRow) -> (r: AttendanceQueueItemView)
    ensures
        r@ == new_queue_item(row@),
{
    let exam_names: Vec<String> = match &row.exam_name {
        None => Vec::new(),
        Some(n) => {
            let mut v: Vec<String> = Vec::new();
            v.push(n.clone());
            v
        },
    };
    let r = AttendanceQueueItemView {
        attendance_id: row.attendance_id.clone(),
        patient_id: row.patient_id.clone(),
        patient_name: row.patient_name.clone(),
        patient_cpf: row.patient_cpf.clone(),
        exam_date: row.exam_date.clone(),
        status: row.status.clone(),
        exam_names,
        updated_at: row.updated_at.clone(),
    };
    proof {
        assert(r@ =~~= new_queue_item(row@));
    }
    r
}

/// Fold record join rows, in the order received, into record entries.
pub fn fold_record_rows(rows: &Vec<RecordRow>) -> (entries: Vec<PatientRecordEntryView>)
    ensures
        entries_view(entries@) == record_fold(record_rows_view(rows@)),
{
    let mut entries: Vec<PatientRecordEntryView> = Vec::new();
    let mut i: usize = 0;
    while i < rows.len()
        invariant
            0 <= i <= rows@.len(),
            entries_view(entries@) =~~= record_fold(record_rows_view(rows@.subrange(0, i as int))),
        decreases rows@.len() - i,
    {
        let ghost pre = entries_view(entries@);
        let row = &rows[i];
        let found = find_entry(&entries, &row.exam_id);
        match found {
            None => {
                let e = new_entry_from_row(row);
                entries.push(e);
            },
            Some(j) => {
                match &row.item {
                    None => {},
                    Some(it) => {
                        if !entry_items_have_id(&entries[j], &it.exam_item_id) {
                            let item = record_item_from_row(it);
                            entries[j].items.push(item);
                        }
                    },
                }
            },
        }
        proof {
            assert(entries_view(entries@) =~~= record_step(pre, rows@[i as int]@));
            assert(record_rows_view(rows@.subrange(0, i + 1)).drop_last() =~= record_rows_view(
                rows@.subrange(0, i as int),
            ));
            assert(record_rows_view(rows@.subrange(0, i + 1)).last() == rows@[i as int]@);
        }
        i += 1;
    }
    proof {
        assert(rows@.subrange(0, rows@.len() as int) =~= rows@);
    }
    entries
}

/// Fold queue join rows, in the order received, into queue items with
/// distinct item names.
pub fn fold_queue_rows(rows: &Vec<QueueRow>) -> (items: Vec<AttendanceQueueItemView>)
    ensures
        queue_items_view(items@) == queue_fold(queue_rows_view(rows@)),
{
    let mut items: Vec<AttendanceQueueItemView> = Vec::new();
    let mut i: usize = 0;
    while i < rows.len()
        invariant
            0 <= i <= rows@.len(),
            queue_items_view(items@) =~~= queue_fold(queue_rows_view(rows@.subrange(0, i as int))),
        decreases rows@.len() - i,
    {
        let ghost pre = queue_items_view(items@);
        let row = &rows[i];
        let found = find_queue_item(&items, &row.attendance_id);
        match found {
            None => {
                let it = new_queue_item_from_row(row);
                items.push(it);
            },
            Some(j) => {
                match &row.exam_name {
                    None => {},
                    Some(n) => {
                        if !item_names_have(&items[j], n) {
                            items[j].exam_names.push(n.clone());
                        }
                    },
                }
            },
        }
        proof {
            assert(queue_items_view(items@) =~~= queue_step(pre, rows@[i as int]@));
            assert(queue_rows_view(rows@.subrange(0, i + 1)).drop_last() =~= queue_rows_view(
                rows@.subrange(0, i as int),
            ));
            assert(queue_rows_view(rows@.subrange(0, i + 1)).last() == rows@[i as int]@);
        }
        i += 1;
    }
    proof {
        assert(rows@.subrange(0, rows@.len() as int) =~= rows@);
    }
    items
}

} // verus!
