//! Laws of the repository layer: properties relating several operations,
//! stated over the same spec functions the operations' contracts use and
//! proved once and for all.

use vstd::prelude::*;

use crate::aggregate::{
    entries_have_key, entry_index, items_have_id, lemma_queue_fold_keys,
    lemma_record_fold_distinct, lemma_record_fold_keys, lemma_record_fold_no_items,
    new_record_entry, qitems_have_key, qrows_have_key, record_fold, record_item_of_row,
    record_step, rows_have_key, SpecQueueRow, SpecRecordRow, SpecRecordRowItem,
};
use crate::dto::CreateAttendanceInput;
use crate::entity::Patient;
use crate::query::{norm_text, patient_matches, queue_row_passes, text_filter};
use crate::store::{
    created_exam_ok, created_item_view_ok, display_order, display_order_up_to, exam_before,
    exam_id_of,
    display_sorted, filter_queue_rows, find_patient, insert_ordered, item_id_of,
    items_of_exam, list_spec,
    queue_rows_for, queue_rows_of_exam, queue_rows_spec, queue_spec, record_entries_spec,
    record_rows_of_exam, record_rows_for, record_rows_spec, stored_item_ok, ExamRow, ItemRow,
    LabModel,
};
use crate::text::{dec_digit, dec_str, lex_lt};

verus! {

/// The item columns of a row known to carry them.
pub open spec fn row_item(r: SpecRecordRow) -> SpecRecordRowItem {
    match r.item {
        Some(it) => it,
        None => arbitrary(),
    }
}

proof fn lemma_list_spec_no_filter(patients: Seq<Patient>)
    ensures
        list_spec(patients, Seq::<char>::empty()).len() == patients.len(),
        forall|i: int|
            0 <= i < patients.len() ==> list_spec(patients, Seq::<char>::empty())[i] == patients[
                patients.len() - 1 - i
            ],
    decreases patients.len(),
{
    if patients.len() > 0 {
        lemma_list_spec_no_filter(patients.drop_first());
        let rest = list_spec(patients.drop_first(), Seq::<char>::empty());
        let out = list_spec(patients, Seq::<char>::empty());
        assert(out == rest.push(patients[0]));
        assert forall|i: int| 0 <= i < patients.len() implies out[i] == patients[
            patients.len() - 1 - i
        ] by {
            if i < rest.len() {
                assert(out[i] == rest[i]);
                assert(rest[i] == patients.drop_first()[patients.drop_first().len() - 1 - i]);
                assert(patients.drop_first()[patients.len() - 2 - i] == patients[
                    patients.len() - 1 - i
                ]);
            } else {
                assert(out[i] == patients[0]);
            }
        }
    }
}

/// Inserting a patient and then listing with no filter returns every
/// stored patient, the new one first, each round-tripped unchanged.
pub proof fn lemma_insert_then_list_unfiltered(patients: Seq<Patient>, p: Patient)
    ensures
        list_spec(patients.push(p), Seq::<char>::empty()).len() == patients.len() + 1,
        list_spec(patients.push(p), Seq::<char>::empty())[0] == p,
        forall|i: int|
            0 < i <= patients.len() ==> list_spec(patients.push(p), Seq::<char>::empty())[i]
                == patients[patients.len() - i],
{
    lemma_list_spec_no_filter(patients.push(p));
    assert(patients.push(p)[patients.len() as int] == p);
    assert forall|i: int| 0 < i <= patients.len() implies list_spec(
        patients.push(p),
        Seq::<char>::empty(),
    )[i] == patients[patients.len() - i] by {
        assert(patients.push(p)[patients.len() - i] == patients[patients.len() - i]);
    }
}

/// A non-empty listing filter returns exactly the matching subset: every
/// returned patient matches, and every stored patient that matches is
/// returned.
pub proof fn lemma_list_filter_exact(patients: Seq<Patient>, q: Seq<char>)
    requires
        q.len() > 0,
    ensures
        forall|i: int|
            0 <= i < list_spec(patients, q).len() ==> patient_matches(
                #[trigger] list_spec(patients, q)[i],
                q,
            ),
        forall|i: int|
            0 <= i < patients.len() && patient_matches(#[trigger] patients[i], q) ==> list_spec(
                patients,
                q,
            ).contains(patients[i]),
    decreases patients.len(),
{
    if patients.len() > 0 {
        lemma_list_filter_exact(patients.drop_first(), q);
        let rest = list_spec(patients.drop_first(), q);
        let out = list_spec(patients, q);
        assert forall|i: int| 0 <= i < out.len() implies patient_matches(
            #[trigger] out[i],
            q,
        ) by {
            if patient_matches(patients[0], q) {
                assert(out == rest.push(patients[0]));
                if i < rest.len() {
                    assert(out[i] == rest[i]);
                } else {
                    assert(out[i] == patients[0]);
                }
            } else {
                assert(out == rest);
            }
        }
        assert forall|i: int|
            0 <= i < patients.len() && patient_matches(#[trigger] patients[i], q) implies out.contains(
            patients[i],
        ) by {
            if i == 0 {
                assert(out == rest.push(patients[0]));
                assert(out[out.len() - 1] == patients[0]);
            } else {
                assert(patients.drop_first()[i - 1] == patients[i]);
                assert(rest.contains(patients.drop_first()[i - 1]));
                let j = choose|j: int| 0 <= j < rest.len() && rest[j] == patients[i];
                if patient_matches(patients[0], q) {
                    assert(out[j] == rest[j]);
                } else {
                    assert(out == rest);
                }
                assert(out[j] == patients[i]);
            }
        }
    }
}

/// A parent whose join rows all arrive without child columns aggregates to
/// exactly one entry with an empty item list: never zero entries, and
/// never a spurious item.
pub proof fn lemma_parent_without_children(rows: Seq<SpecRecordRow>, k: Seq<char>)
    requires
        rows_have_key(rows, k),
        forall|i: int|
            0 <= i < rows.len() && (#[trigger] rows[i]).exam_id == k ==> rows[i].item is None,
    ensures
        entries_have_key(record_fold(rows), k),
        forall|j: int|
            0 <= j < record_fold(rows).len() && (#[trigger] record_fold(rows)[j]).exam_id == k
                ==> record_fold(rows)[j].items.len() == 0,
        forall|j1: int, j2: int|
            0 <= j1 < record_fold(rows).len() && 0 <= j2 < record_fold(rows).len() && j1 != j2
                ==> (#[trigger] record_fold(rows)[j1]).exam_id != (#[trigger] record_fold(
                rows,
            )[j2]).exam_id,
{
    lemma_record_fold_keys(rows, k);
    lemma_record_fold_no_items(rows, k);
    lemma_record_fold_distinct(rows);
}

proof fn lemma_filter_keeps_key(
    rows: Seq<SpecQueueRow>,
    date: Option<Seq<char>>,
    status: Option<Seq<char>>,
    q: Option<Seq<char>>,
    i: int,
)
    requires
        0 <= i < rows.len(),
        queue_row_passes(rows[i], date, status, q),
    ensures
        qrows_have_key(filter_queue_rows(rows, date, status, q), rows[i].attendance_id),
    decreases rows.len(),
{
    let out = filter_queue_rows(rows, date, status, q);
    let rest = filter_queue_rows(rows.drop_last(), date, status, q);
    if i == rows.len() - 1 {
        assert(rows.last() == rows[i]);
        assert(out == rest.push(rows[i]));
        assert(out[out.len() - 1].attendance_id == rows[i].attendance_id);
    } else {
        assert(rows.drop_last()[i] == rows[i]);
        lemma_filter_keeps_key(rows.drop_last(), date, status, q, i);
        let j = choose|j: int|
            0 <= j < rest.len() && rest[j].attendance_id == rows[i].attendance_id;
        if queue_row_passes(rows.last(), date, status, q) {
            assert(out == rest.push(rows.last()));
            assert(out[j] == rest[j]);
        } else {
            assert(out == rest);
        }
        assert(out[j].attendance_id == rows[i].attendance_id);
    }
}

proof fn lemma_queue_rows_contain_exam(m: LabModel, order: Seq<usize>, z: usize)
    requires
        (z as int) < m.exams.len(),
        order.contains(z),
        find_patient(m.patients, m.exams[z as int].patient_id@) >= 0,
    ensures
        exists|i: int|
            0 <= i < queue_rows_for(m, order).len() && (#[trigger] queue_rows_for(m, order)[i]).attendance_id
                == m.exams[z as int].id@ && queue_rows_for(m, order)[i].status == m.exams[
                z as int
            ].status@,
    decreases order.len(),
{
    let out = queue_rows_for(m, order);
    let rest_order = order.drop_last();
    let rest = queue_rows_for(m, rest_order);
    let last = order.last();
    if last == z {
        let pi = find_patient(m.patients, m.exams[z as int].patient_id@);
        let block = queue_rows_of_exam(m.exams[z as int], m.patients[pi], m.items);
        assert(out == rest + block);
        assert(block.len() >= 1);
        assert(block[0].attendance_id == m.exams[z as int].id@);
        assert(block[0].status == m.exams[z as int].status@);
        assert(out[rest.len() as int] == block[0]);
    } else {
        let i0 = choose|i: int| 0 <= i < order.len() && order[i] == z;
        assert(i0 < order.len() - 1);
        assert(rest_order[i0] == z);
        assert(rest_order.contains(z));
        lemma_queue_rows_contain_exam(m, rest_order, z);
        let w = choose|w: int|
            0 <= w < rest.len() && rest[w].attendance_id == m.exams[z as int].id@ && rest[w].status
                == m.exams[z as int].status@;
        let lu = last;
        if (lu as int) < m.exams.len() && find_patient(m.patients, m.exams[lu as int].patient_id@)
            >= 0 {
            let block = queue_rows_of_exam(
                m.exams[lu as int],
                m.patients[find_patient(m.patients, m.exams[lu as int].patient_id@)],
                m.items,
            );
            assert(out == rest + block);
            assert(out[w] == rest[w]);
        } else {
            assert(out == rest);
        }
        assert(out[w].attendance_id == m.exams[z as int].id@);
        assert(out[w].status == m.exams[z as int].status@);
    }
}

/// A completed attendance whose patient is stored shows up in the queue
/// listing filtered by completed status: the two views never disagree
/// about a completion.
pub proof fn lemma_completed_attendance_in_queue(
    m: LabModel,
    date_f: Option<String>,
    status_f: Option<String>,
    query_f: Option<String>,
    aid: Seq<char>,
    z: int,
)
    requires
        m.exams.len() <= usize::MAX,
        0 <= z < m.exams.len(),
        m.exams[z].id@ == aid,
        m.exams[z].status@ == "completed"@,
        find_patient(m.patients, m.exams[z].patient_id@) >= 0,
        norm_text(date_f) is None,
        norm_text(status_f) == Some("completed"@),
        text_filter(query_f) is None,
    ensures
        qitems_have_key(queue_spec(m, date_f, status_f, query_f), aid),
{
    let order = display_order(m.exams);
    lemma_display_order_props(m.exams, m.exams.len() as int);
    let zu = z as usize;
    assert(order.contains(zu));
    lemma_queue_rows_contain_exam(m, order, zu);
    let rows = queue_rows_spec(m);
    let i = choose|i: int|
        0 <= i < rows.len() && (#[trigger] rows[i]).attendance_id == m.exams[z].id@ && rows[i].status
            == m.exams[z].status@;
    assert(queue_row_passes(rows[i], norm_text(date_f), norm_text(status_f), text_filter(query_f)));
    lemma_filter_keeps_key(rows, norm_text(date_f), norm_text(status_f), text_filter(query_f), i);
    lemma_queue_fold_keys(
        filter_queue_rows(rows, norm_text(date_f), norm_text(status_f), text_filter(query_f)),
        aid,
    );
}

proof fn lemma_dec_str_len(n: int)
    requires
        n >= 0,
    ensures
        dec_str(n).len() >= 1,
        n >= 10 ==> dec_str(n).len() >= 2,
    decreases n,
{
    if n >= 10 {
        lemma_dec_str_len(n / 10);
    }
}

proof fn lemma_dec_str_inj(a: int, b: int)
    requires
        a >= 0,
        b >= 0,
        a != b,
    ensures
        dec_str(a) != dec_str(b),
    decreases a + b,
{
    lemma_dec_str_len(a);
    lemma_dec_str_len(b);
    if a < 10 && b < 10 {
        assert(dec_str(a)[0] == dec_digit(a));
        assert(dec_str(b)[0] == dec_digit(b));
        assert(dec_digit(a) != dec_digit(b));
    } else if a < 10 || b < 10 {
        assert(dec_str(a).len() != dec_str(b).len());
    } else {
        if dec_str(a) == dec_str(b) {
            assert(dec_str(a).last() == dec_digit(a % 10));
            assert(dec_str(b).last() == dec_digit(b % 10));
            if a % 10 != b % 10 {
                assert(dec_digit(a % 10) != dec_digit(b % 10));
                assert(false);
            } else {
                assert(a / 10 != b / 10);
                lemma_dec_str_inj(a / 10, b / 10);
                assert(dec_str(a).drop_last() =~= dec_str(a / 10));
                assert(dec_str(b).drop_last() =~= dec_str(b / 10));
                assert(false);
            }
        }
    }
}

proof fn lemma_tag_inj(prefix: Seq<char>, s1: Seq<char>, s2: Seq<char>)
    requires
        s1 != s2,
    ensures
        prefix + s1 != prefix + s2,
{
    if prefix + s1 == prefix + s2 {
        assert((prefix + s1).subrange(prefix.len() as int, (prefix + s1).len() as int) =~= s1);
        assert((prefix + s2).subrange(prefix.len() as int, (prefix + s2).len() as int) =~= s2);
        assert(false);
    }
}

proof fn lemma_insert_ordered_membership(exams: Seq<ExamRow>, x: usize, s: Seq<usize>)
    ensures
        insert_ordered(exams, x, s).len() == s.len() + 1,
        forall|e: usize|
            #[trigger] insert_ordered(exams, x, s).contains(e) <==> (e == x || s.contains(e)),
    decreases s.len(),
{
    let out = insert_ordered(exams, x, s);
    if s.len() == 0 {
        assert forall|e: usize| #[trigger] out.contains(e) implies (e == x || s.contains(e)) by {
            let i = choose|i: int| 0 <= i < out.len() && out[i] == e;
            assert(out[0] == x);
        }
        assert(out[0] == x);
        assert(out.contains(x));
    } else if crate::store::exam_before(exams, x, s[0]) {
        assert(out == seq![x] + s);
        assert forall|e: usize| #[trigger] out.contains(e) implies (e == x || s.contains(e)) by {
            let i = choose|i: int| 0 <= i < out.len() && out[i] == e;
            if i > 0 {
                assert(s[i - 1] == e);
            }
        }
        assert forall|e: usize| (e == x || s.contains(e)) implies #[trigger] out.contains(e) by {
            if e == x {
                assert(out[0] == e);
            } else {
                let i = choose|i: int| 0 <= i < s.len() && s[i] == e;
                assert(out[i + 1] == e);
            }
        }
    } else {
        lemma_insert_ordered_membership(exams, x, s.drop_first());
        let rec = insert_ordered(exams, x, s.drop_first());
        assert(out == seq![s[0]] + rec);
        assert forall|e: usize| #[trigger] out.contains(e) implies (e == x || s.contains(e)) by {
            let i = choose|i: int| 0 <= i < out.len() && out[i] == e;
            if i == 0 {
                assert(s[0] == e);
                assert(s.contains(e));
            } else {
                assert(rec[i - 1] == e);
                assert(rec.contains(e));
                if e != x {
                    let j = choose|j: int|
                        0 <= j < s.drop_first().len() && s.drop_first()[j] == e;
                    assert(s[j + 1] == e);
                    assert(s.contains(e));
                }
            }
        }
        assert forall|e: usize| (e == x || s.contains(e)) implies #[trigger] out.contains(e) by {
            if e == x {
                assert(rec.contains(e));
                let j = choose|j: int| 0 <= j < rec.len() && rec[j] == e;
                assert(out[j + 1] == e);
            } else {
                let i = choose|i: int| 0 <= i < s.len() && s[i] == e;
                if i == 0 {
                    assert(out[0] == e);
                } else {
                    assert(s.drop_first()[i - 1] == e);
                    assert(s.drop_first().contains(e));
                    assert(rec.contains(e));
                    let j = choose|j: int| 0 <= j < rec.len() && rec[j] == e;
                    assert(out[j + 1] == e);
                }
            }
        }
    }
}

proof fn lemma_insert_ordered_distinct(exams: Seq<ExamRow>, x: usize, s: Seq<usize>)
    requires
        !s.contains(x),
        forall|a: int, b: int| 0 <= a < b < s.len() ==> s[a] != s[b],
    ensures
        forall|a: int, b: int|
            0 <= a < b < insert_ordered(exams, x, s).len() ==> insert_ordered(exams, x, s)[a]
                != insert_ordered(exams, x, s)[b],
    decreases s.len(),
{
    let out = insert_ordered(exams, x, s);
    if s.len() == 0 {
    } else if crate::store::exam_before(exams, x, s[0]) {
        assert(out == seq![x] + s);
        assert forall|a: int, b: int| 0 <= a < b < out.len() implies out[a] != out[b] by {
            if a == 0 {
                assert(out[0] == x);
                assert(out[b] == s[b - 1]);
                if out[b] == x {
                    assert(s.contains(x));
                }
            } else {
                assert(out[a] == s[a - 1] && out[b] == s[b - 1]);
            }
        }
    } else {
        assert forall|e: usize| #[trigger] s.drop_first().contains(e) implies s.contains(e) by {
            let j = choose|j: int| 0 <= j < s.drop_first().len() && s.drop_first()[j] == e;
            assert(s[j + 1] == e);
        }
        lemma_insert_ordered_distinct(exams, x, s.drop_first());
        lemma_insert_ordered_membership(exams, x, s.drop_first());
        let rec = insert_ordered(exams, x, s.drop_first());
        assert(out == seq![s[0]] + rec);
        assert forall|a: int, b: int| 0 <= a < b < out.len() implies out[a] != out[b] by {
            if a == 0 {
                assert(out[0] == s[0]);
                assert(out[b] == rec[b - 1]);
                if out[b] == s[0] {
                    assert(rec.contains(s[0]));
                    if s[0] == x {
                        assert(s.contains(x));
                        assert(false);
                    } else {
                        assert(s.drop_first().contains(s[0]));
                        let j = choose|j: int|
                            0 <= j < s.drop_first().len() && s.drop_first()[j] == s[0];
                        assert(s[j + 1] == s[0]);
                        assert(false);
                    }
                }
            } else {
                assert(out[a] == rec[a - 1] && out[b] == rec[b - 1]);
            }
        }
    }
}

proof fn lemma_display_order_props(exams: Seq<ExamRow>, n: int)
    requires
        0 <= n <= exams.len(),
        exams.len() <= usize::MAX,
    ensures
        display_order_up_to(exams, n).len() == n,
        forall|e: usize| #[trigger] display_order_up_to(exams, n).contains(e) <==> (e as int) < n,
        forall|a: int, b: int|
            0 <= a < b < n ==> display_order_up_to(exams, n)[a] != display_order_up_to(exams, n)[b],
    decreases n,
{
    if n > 0 {
        lemma_display_order_props(exams, n - 1);
        let prev = display_order_up_to(exams, n - 1);
        let x = (n - 1) as usize;
        assert(!prev.contains(x));
        lemma_insert_ordered_membership(exams, x, prev);
        lemma_insert_ordered_distinct(exams, x, prev);
    }
}

proof fn lemma_lex_lt_total(a: Seq<char>, b: Seq<char>)
    ensures
        a == b || lex_lt(a, b) || lex_lt(b, a),
    decreases a.len(),
{
    if b.len() == 0 {
        if a.len() == 0 {
            assert(a =~= b);
        }
    } else if a.len() == 0 {
    } else if a[0] != b[0] {
        if (a[0] as u32) == (b[0] as u32) {
            vstd::utf8::char_u32_cast(a[0], a[0] as u32);
            vstd::utf8::char_u32_cast(b[0], b[0] as u32);
            assert(false);
        }
    } else {
        lemma_lex_lt_total(a.drop_first(), b.drop_first());
        if a.drop_first() == b.drop_first() {
            assert(seq![a[0]] + a.drop_first() =~= a);
            assert(seq![b[0]] + b.drop_first() =~= b);
            assert(a == b);
        }
    }
}

proof fn lemma_lex_lt_trans(a: Seq<char>, b: Seq<char>, c: Seq<char>)
    requires
        lex_lt(a, b),
        lex_lt(b, c),
    ensures
        lex_lt(a, c),
    decreases a.len(),
{
    if a.len() > 0 && b.len() > 0 && c.len() > 0 {
        if a[0] == b[0] && b[0] == c[0] {
            lemma_lex_lt_trans(a.drop_first(), b.drop_first(), c.drop_first());
        }
    }
}

proof fn lemma_exam_before_total(exams: Seq<ExamRow>, x: usize, y: usize)
    requires
        x != y,
    ensures
        exam_before(exams, x, y) || exam_before(exams, y, x),
{
    lemma_lex_lt_total(exams[x as int].exam_date@, exams[y as int].exam_date@);
}

proof fn lemma_exam_before_trans(exams: Seq<ExamRow>, x: usize, y: usize, z: usize)
    requires
        exam_before(exams, x, y),
        exam_before(exams, y, z),
    ensures
        exam_before(exams, x, z),
{
    let dx = exams[x as int].exam_date@;
    let dy = exams[y as int].exam_date@;
    let dz = exams[z as int].exam_date@;
    if lex_lt(dy, dx) && lex_lt(dz, dy) {
        lemma_lex_lt_trans(dz, dy, dx);
    }
}

proof fn lemma_insert_ordered_sorted(exams: Seq<ExamRow>, x: usize, s: Seq<usize>)
    requires
        display_sorted(exams, s),
        !s.contains(x),
    ensures
        display_sorted(exams, insert_ordered(exams, x, s)),
    decreases s.len(),
{
    let out = insert_ordered(exams, x, s);
    if s.len() == 0 {
    } else if crate::store::exam_before(exams, x, s[0]) {
        assert(out == seq![x] + s);
        assert forall|a: int, b: int| 0 <= a < b < out.len() implies exam_before(
            exams,
            out[a],
            out[b],
        ) by {
            if a == 0 {
                assert(out[0] == x);
                assert(out[b] == s[b - 1]);
                if b > 1 {
                    assert(exam_before(exams, s[0], s[b - 1]));
                    lemma_exam_before_trans(exams, x, s[0], s[b - 1]);
                }
            } else {
                assert(out[a] == s[a - 1] && out[b] == s[b - 1]);
            }
        }
    } else {
        assert forall|e: usize| #[trigger] s.drop_first().contains(e) implies s.contains(e) by {
            let j = choose|j: int| 0 <= j < s.drop_first().len() && s.drop_first()[j] == e;
            assert(s[j + 1] == e);
        }
        assert forall|a: int, b: int|
            0 <= a < b < s.drop_first().len() implies exam_before(
            exams,
            s.drop_first()[a],
            s.drop_first()[b],
        ) by {
            assert(s.drop_first()[a] == s[a + 1] && s.drop_first()[b] == s[b + 1]);
        }
        lemma_insert_ordered_sorted(exams, x, s.drop_first());
        lemma_insert_ordered_membership(exams, x, s.drop_first());
        let rec = insert_ordered(exams, x, s.drop_first());
        assert(out == seq![s[0]] + rec);
        assert forall|a: int, b: int| 0 <= a < b < out.len() implies exam_before(
            exams,
            out[a],
            out[b],
        ) by {
            if a == 0 {
                assert(out[0] == s[0]);
                assert(out[b] == rec[b - 1]);
                assert(rec.contains(rec[b - 1]));
                if rec[b - 1] == x {
                    assert(x != s[0]);
                    lemma_exam_before_total(exams, x, s[0]);
                    assert(exam_before(exams, s[0], x));
                } else {
                    assert(s.drop_first().contains(rec[b - 1]));
                    let j = choose|j: int|
                        0 <= j < s.drop_first().len() && s.drop_first()[j] == rec[b - 1];
                    assert(s[j + 1] == rec[b - 1]);
                    assert(exam_before(exams, s[0], s[j + 1]));
                }
            } else {
                assert(out[a] == rec[a - 1] && out[b] == rec[b - 1]);
            }
        }
    }
}

/// The display order walks every stored exam exactly once: newest exam
/// date first, later creation first among equal dates.
pub proof fn lemma_display_order_is_sorted(exams: Seq<ExamRow>)
    requires
        exams.len() <= usize::MAX,
    ensures
        display_order(exams).len() == exams.len(),
        forall|e: usize| #[trigger] display_order(exams).contains(e) <==> (e as int) < exams.len(),
        display_sorted(exams, display_order(exams)),
{
    lemma_display_order_props(exams, exams.len() as int);
    lemma_display_order_sorted_up_to(exams, exams.len() as int);
}

proof fn lemma_display_order_sorted_up_to(exams: Seq<ExamRow>, n: int)
    requires
        0 <= n <= exams.len(),
        exams.len() <= usize::MAX,
    ensures
        display_sorted(exams, display_order_up_to(exams, n)),
    decreases n,
{
    if n > 0 {
        lemma_display_order_sorted_up_to(exams, n - 1);
        lemma_display_order_props(exams, n - 1);
        let prev = display_order_up_to(exams, n - 1);
        let x = (n - 1) as usize;
        assert(!prev.contains(x));
        lemma_insert_ordered_sorted(exams, x, prev);
    }
}

proof fn lemma_items_of_exam_add(a: Seq<ItemRow>, b: Seq<ItemRow>, k: Seq<char>)
    ensures
        items_of_exam(a + b, k) == items_of_exam(a, k) + items_of_exam(b, k),
    decreases b.len(),
{
    if b.len() == 0 {
        assert(a + b =~= a);
        assert(items_of_exam(a, k) + items_of_exam(b, k) =~= items_of_exam(a, k));
    } else {
        lemma_items_of_exam_add(a, b.drop_last(), k);
        assert((a + b).drop_last() =~= a + b.drop_last());
        assert((a + b).last() == b.last());
        if b.last().exam_id@ == k {
            assert(items_of_exam(a + b, k) =~= items_of_exam(a, k) + items_of_exam(b, k));
        } else {
            assert(items_of_exam(a + b, k) =~= items_of_exam(a, k) + items_of_exam(b, k));
        }
    }
}

proof fn lemma_items_of_exam_none(s: Seq<ItemRow>, k: Seq<char>)
    requires
        forall|i: int| 0 <= i < s.len() ==> (#[trigger] s[i]).exam_id@ != k,
    ensures
        items_of_exam(s, k).len() == 0,
    decreases s.len(),
{
    if s.len() > 0 {
        assert forall|i: int| 0 <= i < s.drop_last().len() implies (#[trigger] s.drop_last()[i]).exam_id@
            != k by {
            assert(s.drop_last()[i] == s[i]);
        }
        lemma_items_of_exam_none(s.drop_last(), k);
    }
}

proof fn lemma_items_of_exam_all(s: Seq<ItemRow>, k: Seq<char>)
    requires
        forall|i: int| 0 <= i < s.len() ==> (#[trigger] s[i]).exam_id@ == k,
    ensures
        items_of_exam(s, k) == s,
    decreases s.len(),
{
    if s.len() > 0 {
        assert forall|i: int| 0 <= i < s.drop_last().len() implies (#[trigger] s.drop_last()[i]).exam_id@
            == k by {
            assert(s.drop_last()[i] == s[i]);
        }
        lemma_items_of_exam_all(s.drop_last(), k);
        assert(items_of_exam(s, k) =~= s);
    }
}

proof fn lemma_record_rows_single(m: LabModel, order: Seq<usize>, pid: Seq<char>, z: usize)
    requires
        forall|i: int| 0 <= i < order.len() ==> ((#[trigger] order[i]) as int) < m.exams.len(),
        forall|a: int, b: int| 0 <= a < b < order.len() ==> order[a] != order[b],
        (z as int) < m.exams.len(),
        m.exams[z as int].patient_id@ == pid,
        forall|idx: int|
            0 <= idx < m.exams.len() && idx != z ==> (#[trigger] m.exams[idx]).patient_id@ != pid,
    ensures
        record_rows_for(m, order, pid) == if order.contains(z) {
            record_rows_of_exam(m.exams[z as int], m.items, m.requesters)
        } else {
            Seq::<SpecRecordRow>::empty()
        },
    decreases order.len(),
{
    let block = record_rows_of_exam(m.exams[z as int], m.items, m.requesters);
    if order.len() > 0 {
        let prefix = order.drop_last();
        assert forall|i: int| 0 <= i < prefix.len() implies ((#[trigger] prefix[i]) as int)
            < m.exams.len() by {
            assert(prefix[i] == order[i]);
        }
        assert forall|a: int, b: int| 0 <= a < b < prefix.len() implies prefix[a] != prefix[b] by {
            assert(prefix[a] == order[a] && prefix[b] == order[b]);
        }
        lemma_record_rows_single(m, prefix, pid, z);
        let last = order.last();
        if last == z {
            if prefix.contains(z) {
                let i = choose|i: int| 0 <= i < prefix.len() && prefix[i] == z;
                assert(order[i] == z && order[order.len() - 1] == z);
                assert(false);
            }
            assert(record_rows_for(m, prefix, pid) == Seq::<SpecRecordRow>::empty());
            assert(record_rows_for(m, order, pid) =~= block);
            assert(order.contains(z)) by {
                assert(order[order.len() - 1] == z);
            }
        } else {
            assert(m.exams[last as int].patient_id@ != pid);
            assert(record_rows_for(m, order, pid) == record_rows_for(m, prefix, pid));
            if order.contains(z) {
                let i = choose|i: int| 0 <= i < order.len() && order[i] == z;
                assert(i < order.len() - 1);
                assert(prefix[i] == z);
                assert(prefix.contains(z));
            } else {
                if prefix.contains(z) {
                    let i = choose|i: int| 0 <= i < prefix.len() && prefix[i] == z;
                    assert(order[i] == z);
                    assert(order.contains(z));
                }
            }
        }
    } else {
        if order.contains(z) {
            let i = choose|i: int| 0 <= i < order.len() && order[i] == z;
        }
    }
}

proof fn lemma_record_fold_single_parent(rows: Seq<SpecRecordRow>, k: Seq<char>)
    requires
        rows.len() > 0,
        forall|i: int| 0 <= i < rows.len() ==> (#[trigger] rows[i]).exam_id == k,
        forall|i: int| 0 <= i < rows.len() ==> (#[trigger] rows[i]).item is Some,
        forall|i1: int, i2: int|
            0 <= i1 < i2 < rows.len() ==> row_item(#[trigger] rows[i1]).exam_item_id != row_item(
                #[trigger] rows[i2],
            ).exam_item_id,
    ensures
        record_fold(rows).len() == 1,
        record_fold(rows)[0].exam_id == k,
        record_fold(rows)[0].exam_date == rows[0].exam_date,
        record_fold(rows)[0].status == rows[0].status,
        record_fold(rows)[0].requester_name == rows[0].requester_name,
        record_fold(rows)[0].items =~= Seq::new(
            rows.len(),
            |i: int| record_item_of_row(row_item(rows[i])),
        ),
    decreases rows.len(),
{
    if rows.len() == 1 {
        let row = rows[0];
        assert(record_fold(rows.drop_last()).len() == 0);
        assert(record_fold(rows) == record_step(Seq::<crate::dto::SpecRecordEntry>::empty(), row));
        assert(record_fold(rows)[0] == new_record_entry(row));
        assert(record_fold(rows)[0].items =~= Seq::new(
            1,
            |i: int| record_item_of_row(row_item(rows[i])),
        ));
    } else {
        let prefix = rows.drop_last();
        assert forall|i: int| 0 <= i < prefix.len() implies ((#[trigger] prefix[i]).exam_id == k
            && prefix[i].item is Some) by {
            assert(prefix[i] == rows[i]);
        }
        assert forall|i1: int, i2: int| 0 <= i1 < i2 < prefix.len() implies row_item(
            #[trigger] prefix[i1],
        ).exam_item_id != row_item(#[trigger] prefix[i2]).exam_item_id by {
            assert(prefix[i1] == rows[i1] && prefix[i2] == rows[i2]);
        }
        lemma_record_fold_single_parent(prefix, k);
        let acc = record_fold(prefix);
        let row = rows.last();
        assert(entry_index(acc, row.exam_id) == 0);
        let it = row_item(row);
        assert(!items_have_id(acc[0].items, it.exam_item_id)) by {
            if items_have_id(acc[0].items, it.exam_item_id) {
                let j = choose|j: int|
                    0 <= j < acc[0].items.len() && acc[0].items[j].exam_item_id
                        == it.exam_item_id;
                assert(acc[0].items[j] == record_item_of_row(row_item(rows[j])));
                assert(row_item(rows[j]).exam_item_id == row_item(rows[rows.len() - 1]).exam_item_id);
                assert(false);
            }
        }
        assert(record_fold(rows) == acc.update(
            0,
            crate::dto::SpecRecordEntry {
                exam_id: acc[0].exam_id,
                exam_date: acc[0].exam_date,
                status: acc[0].status,
                requester_name: acc[0].requester_name,
                items: acc[0].items.push(record_item_of_row(it)),
            },
        ));
        assert(rows[0] == prefix[0]);
        assert(record_fold(rows)[0].items =~= Seq::new(
            rows.len(),
            |i: int| record_item_of_row(row_item(rows[i])),
        ));
    }
}

/// Creating an attendance for a patient with no prior attendances and
/// then fetching that patient's record yields exactly one entry, carrying
/// one report-less item per submitted descriptor, in submission order.
///
/// The hypotheses are the state transition that `create_attendance`
/// guarantees, together with the freshness of the assigned ids, which the
/// id counter provides.
pub proof fn lemma_create_then_record(m0: LabModel, m1: LabModel, input: CreateAttendanceInput)
    requires
        m0.next_id >= 0,
        m1.exams.len() <= usize::MAX,
        m1.patients == m0.patients,
        m1.requesters == m0.requesters,
        m1.exams.len() == m0.exams.len() + 1,
        m1.exams.subrange(0, m0.exams.len() as int) == m0.exams,
        created_exam_ok(m1.exams.last(), input, m0),
        m1.items.len() == m0.items.len() + input.items@.len(),
        m1.items.subrange(0, m0.items.len() as int) == m0.items,
        forall|j: int|
            0 <= j < input.items@.len() ==> stored_item_ok(
                m1.items[m0.items.len() + j],
                #[trigger] input.items@[j],
                exam_id_of(m0.next_id),
                item_id_of(m0.next_id, j),
            ),
        forall|z: int|
            0 <= z < m0.exams.len() ==> (#[trigger] m0.exams[z]).patient_id@ != input.patient_id@,
        forall|z: int|
            0 <= z < m0.exams.len() ==> (#[trigger] m0.exams[z]).id@ != exam_id_of(m0.next_id),
        forall|z: int|
            0 <= z < m0.items.len() ==> (#[trigger] m0.items[z]).exam_id@ != exam_id_of(
                m0.next_id,
            ),
    ensures
        record_entries_spec(m1, input.patient_id@).len() == 1,
        record_entries_spec(m1, input.patient_id@)[0].exam_id == exam_id_of(m0.next_id),
        record_entries_spec(m1, input.patient_id@)[0].items.len() == input.items@.len(),
        forall|j: int|
            0 <= j < input.items@.len() ==> created_item_view_ok(
                #[trigger] record_entries_spec(m1, input.patient_id@)[0].items[j],
                input.items@[j],
                item_id_of(m0.next_id, j),
            ),
{
    let pid = input.patient_id@;
    let eid = exam_id_of(m0.next_id);
    let n = input.items@.len() as int;
    let n1 = m1.exams.len() as int;
    let z = (n1 - 1) as usize;
    let e = m1.exams.last();
    let order = display_order(m1.exams);
    lemma_display_order_props(m1.exams, n1);
    assert forall|idx: int| 0 <= idx < n1 && idx != z implies (#[trigger] m1.exams[idx]).patient_id@
        != pid by {
        assert(m1.exams[idx] == m1.exams.subrange(0, m0.exams.len() as int)[idx]);
        assert(m1.exams[idx] == m0.exams[idx]);
    }
    assert forall|i: int| 0 <= i < order.len() implies (((#[trigger] order[i]) as int) < n1) by {
        assert(order.contains(order[i]));
    }
    lemma_record_rows_single(m1, order, pid, z);
    assert(order.contains(z));
    let block = record_rows_of_exam(m1.exams[z as int], m1.items, m1.requesters);
    assert(m1.exams[z as int] == e);
    assert(record_rows_spec(m1, pid) == block);

    // the items of the created exam are exactly the fresh rows, in order
    let fresh = m1.items.subrange(m0.items.len() as int, m1.items.len() as int);
    assert(m1.items =~= m0.items + fresh);
    assert forall|j: int| 0 <= j < fresh.len() implies (#[trigger] fresh[j]).exam_id@ == eid by {
        assert(fresh[j] == m1.items[m0.items.len() + j]);
        assert(stored_item_ok(m1.items[m0.items.len() + j], input.items@[j], eid, item_id_of(m0.next_id, j)));
    }
    lemma_items_of_exam_add(m0.items, fresh, eid);
    lemma_items_of_exam_none(m0.items, eid);
    lemma_items_of_exam_all(fresh, eid);
    assert(e.id@ == eid);
    let its = items_of_exam(m1.items, e.id@);
    assert(its =~= fresh);
    assert(its.len() == n);

    if n == 0 {
        assert(block.len() == 1);
        assert(block[0].item is None);
        assert(block[0].exam_id == eid);
        let folded = record_fold(block);
        assert(record_fold(block.drop_last()).len() == 0);
        assert(folded == record_step(Seq::<crate::dto::SpecRecordEntry>::empty(), block[0]));
        assert(folded[0] == new_record_entry(block[0]));
        assert(folded.len() == 1);
        assert(folded[0].items.len() == 0);
    } else {
        assert(block.len() == n);
        assert forall|i: int| 0 <= i < n implies ((#[trigger] block[i]).exam_id == eid && block[i].item
            is Some) by {}
        assert forall|i1: int, i2: int| 0 <= i1 < i2 < n implies row_item(
            #[trigger] block[i1],
        ).exam_item_id != row_item(#[trigger] block[i2]).exam_item_id by {
            assert(row_item(block[i1]).exam_item_id == its[i1].id@);
            assert(row_item(block[i2]).exam_item_id == its[i2].id@);
            assert(its[i1] == m1.items[m0.items.len() + i1]);
            assert(its[i2] == m1.items[m0.items.len() + i2]);
            assert(stored_item_ok(
                m1.items[m0.items.len() + i1],
                input.items@[i1],
                eid,
                item_id_of(m0.next_id, i1),
            ));
            assert(stored_item_ok(
                m1.items[m0.items.len() + i2],
                input.items@[i2],
                eid,
                item_id_of(m0.next_id, i2),
            ));
            assert(its[i1].id@ == item_id_of(m0.next_id, i1));
            assert(its[i2].id@ == item_id_of(m0.next_id, i2));
            lemma_dec_str_inj(m0.next_id + 1 + i1, m0.next_id + 1 + i2);
            lemma_tag_inj(
                "i"@,
                dec_str(m0.next_id + 1 + i1),
                dec_str(m0.next_id + 1 + i2),
            );
        }
        lemma_record_fold_single_parent(block, eid);
        let folded = record_fold(block);
        assert(folded.len() == 1);
        assert(folded[0].exam_id == eid);
        assert(folded[0].items.len() == n);
        assert forall|j: int| 0 <= j < n implies created_item_view_ok(
            #[trigger] folded[0].items[j],
            input.items@[j],
            item_id_of(m0.next_id, j),
        ) by {
            assert(folded[0].items[j] == record_item_of_row(row_item(block[j])));
            assert(row_item(block[j]) == crate::store::spec_item_columns(its[j]));
            assert(stored_item_ok(
                m1.items[m0.items.len() + j],
                input.items@[j],
                eid,
                item_id_of(m0.next_id, j),
            ));
            assert(its[j] == m1.items[m0.items.len() + j]);
        }
    }
}

} // verus!
