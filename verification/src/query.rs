//! The dynamic query layer: filter normalization, the predicate semantics
//! that read paths filter by, and the parameterized statement builder for
//! an external SQL backend.
//!
//! Every predicate value is bound as a parameter, never interpolated into
//! the statement text: the text built here is a concatenation of fixed
//! fragments of this module, chosen only by which filters are present, and
//! the caller's values travel separately in binding order.  Substring
//! filters lower-case both sides, ASCII-only by design.

use vstd::prelude::*;

use crate::aggregate::SpecQueueRow;
use crate::dto::{clone_opt, opt_text, AttendanceQueueQueryInput};
use crate::entity::Patient;
use crate::text::{contains_seq, lower_char, lower_seq, trim, trim_spec};

verus! {

/// A blank-or-absent text input collapses to "no value"; anything else is
/// stored trimmed.
pub open spec fn norm_text(o: Option<String>) -> Option<Seq<char>> {
    match o {
        None => None,
        Some(s) => if trim_spec(s@).len() == 0 {
            None
        } else {
            Some(trim_spec(s@))
        },
    }
}

/// The stored status of a new attendance: the given status, trimmed, or
/// `waiting` when absent or blank.
pub open spec fn norm_status(o: Option<String>) -> Seq<char> {
    match norm_text(o) {
        None => "waiting"@,
        Some(st) => st,
    }
}

/// The lowered, trimmed text filter, or "no predicate" when absent or
/// blank.
pub open spec fn text_filter(o: Option<String>) -> Option<Seq<char>> {
    match norm_text(o) {
        None => None,
        Some(q) => Some(lower_seq(q)),
    }
}

/// The query a patient listing matches against: the given text, trimmed
/// and lowered, or empty when absent.
pub open spec fn effective_query(q: Option<String>) -> Seq<char> {
    match q {
        None => Seq::<char>::empty(),
        Some(s) => lower_seq(trim_spec(s@)),
    }
}

/// Whether a patient matches a (lowered, trimmed, non-empty) listing
/// query: a case-insensitive substring of the name or of the identifier.
pub open spec fn patient_matches(p: Patient, q: Seq<char>) -> bool {
    contains_seq(lower_seq(p.full_name@), q) || contains_seq(lower_seq(p.cpf@), q)
}

/// Whether one queue row satisfies every supplied predicate: exact date,
/// exact status, and a case-insensitive text match across patient name,
/// patient identifier, attendance id and item name.
pub open spec fn queue_row_passes(
    row: SpecQueueRow,
    date: Option<Seq<char>>,
    status: Option<Seq<char>>,
    q: Option<Seq<char>>,
) -> bool {
    &&& (match date {
        None => true,
        Some(d) => row.exam_date == d,
    })
    &&& (match status {
        None => true,
        Some(st) => row.status == st,
    })
    &&& (match q {
        None => true,
        Some(qq) => contains_seq(lower_seq(row.patient_name), qq) || contains_seq(
            lower_seq(row.patient_cpf),
            qq,
        ) || contains_seq(lower_seq(row.attendance_id), qq) || contains_seq(
            lower_seq(
                match row.exam_name {
                    Some(n) => n,
                    None => Seq::<char>::empty(),
                },
            ),
            qq,
        ),
    })
}

/// Normalize an optional text input: blank-or-absent collapses to `None`,
/// anything else is trimmed.
pub fn normalize_text(value: Option<String>) -> (r: Option<String>)
    ensures
        opt_text(r) == norm_text(value),
{
    match value {
        None => None,
        Some(raw) => {
            let t = trim(raw.as_str());
            if t.unicode_len() == 0 {
                None
            } else {
                Some(t)
            }
        },
    }
}

fn lower_ascii_str(c: char) -> (r: &'static str)
    requires
        'A' <= c && c <= 'Z',
    ensures
        r@ == seq![lower_char(c)],
{
    proof {
        reveal_strlit("a");
        reveal_strlit("b");
        reveal_strlit("c");
        reveal_strlit("d");
        reveal_strlit("e");
        reveal_strlit("f");
        reveal_strlit("g");
        reveal_strlit("h");
        reveal_strlit("i");
        reveal_strlit("j");
        reveal_strlit("k");
        reveal_strlit("l");
        reveal_strlit("m");
        reveal_strlit("n");
        reveal_strlit("o");
        reveal_strlit("p");
        reveal_strlit("q");
        reveal_strlit("r");
        reveal_strlit("s");
        reveal_strlit("t");
        reveal_strlit("u");
        reveal_strlit("v");
        reveal_strlit("w");
        reveal_strlit("x");
        reveal_strlit("y");
        reveal_strlit("z");
    }
    match c {
        'A' => "a",
        'B' => "b",
        'C' => "c",
        'D' => "d",
        'E' => "e",
        'F' => "f",
        'G' => "g",
        'H' => "h",
        'I' => "i",
        'J' => "j",
        'K' => "k",
        'L' => "l",
        'M' => "m",
        'N' => "n",
        'O' => "o",
        'P' => "p",
        'Q' => "q",
        'R' => "r",
        'S' => "s",
        'T' => "t",
        'U' => "u",
        'V' => "v",
        'W' => "w",
        'X' => "x",
        'Y' => "y",
        _ => "z",
    }
}

/// ASCII case folding of a whole string.
pub fn to_lower_string(s: &str) -> (r: String)
    ensures
        r@ == lower_seq(s@),
{
    let n = s.unicode_len();
    let mut out = String::new();
    let mut i: usize = 0;
    while i < n
        invariant
            0 <= i <= n,
            n == s@.len(),
            out@ =~= lower_seq(s@).subrange(0, i as int),
        decreases n - i,
    {
        let c = s.get_char(i);
        let u = c as u32;
        if 65 <= u && u <= 90 {
            out.append(lower_ascii_str(c));
        } else {
            out.append(s.substring_char(i, i + 1));
        }
        proof {
            assert(out@ =~= lower_seq(s@).subrange(0, i + 1));
        }
        i += 1;
    }
    proof {
        assert(out@ =~= lower_seq(s@));
    }
    out
}

/// One parameterized queue statement: the text holds only fragments of
/// this module, and the caller's filter values stand in `params`, in
/// placeholder order.
pub struct QueueQuery {
    pub sql: String,
    pub params: Vec<String>,
}

/// The fixed projection/join skeleton of the queue statement.
pub open spec fn queue_base_sql() -> Seq<char> {
    "SELECT e.id AS attendance_id, e.patient_id AS patient_id, p.full_name AS patient_name, p.cpf AS patient_cpf, e.exam_date AS exam_date, e.status AS status, e.updated_at AS updated_at, ei.name AS exam_name FROM exams e JOIN patients p ON p.id = e.patient_id LEFT JOIN exam_items ei ON ei.exam_id = e.id WHERE 1 = 1"@
}

/// The predicate fragment of an exact date match.
pub open spec fn queue_date_sql() -> Seq<char> {
    " AND e.exam_date = ?"@
}

/// The predicate fragment of an exact status match.
pub open spec fn queue_status_sql() -> Seq<char> {
    " AND e.status = ?"@
}

/// The predicate fragment of the text search across patient name, patient
/// identifier, attendance id and item name.
pub open spec fn queue_text_sql() -> Seq<char> {
    " AND (lower(p.full_name) LIKE ? OR p.cpf LIKE ? OR lower(e.id) LIKE ? OR lower(coalesce(ei.name, '')) LIKE ?)"@
}

/// The fixed final ordering: exam date descending, attendance creation
/// descending, item creation ascending — the ordering the row aggregator
/// relies on.
pub open spec fn queue_order_sql() -> Seq<char> {
    " ORDER BY e.exam_date DESC, e.created_at DESC, ei.created_at ASC"@
}

/// The statement text for a given combination of present filters: the
/// skeleton, one fragment per present filter, and the fixed ordering.
/// Caller data never appears here.
pub open spec fn queue_sql(with_date: bool, with_status: bool, with_text: bool) -> Seq<char> {
    queue_base_sql() + (if with_date {
        queue_date_sql()
    } else {
        Seq::<char>::empty()
    }) + (if with_status {
        queue_status_sql()
    } else {
        Seq::<char>::empty()
    }) + (if with_text {
        queue_text_sql()
    } else {
        Seq::<char>::empty()
    }) + queue_order_sql()
}

/// The bound values in placeholder order: the trimmed date, the trimmed
/// status, and the lowered substring pattern once per searched column.
pub open spec fn queue_sql_params(
    date: Option<String>,
    status: Option<String>,
    query: Option<String>,
) -> Seq<Seq<char>> {
    (match norm_text(date) {
        None => Seq::<Seq<char>>::empty(),
        Some(d) => seq![d],
    }) + (match norm_text(status) {
        None => Seq::<Seq<char>>::empty(),
        Some(st) => seq![st],
    }) + (match text_filter(query) {
        None => Seq::<Seq<char>>::empty(),
        Some(q) => {
            let pat = "%"@ + q + "%"@;
            seq![pat, pat, pat, pat]
        },
    })
}

/// Build the parameterized queue statement from the caller's optional
/// filters.  An absent or blank filter contributes no predicate; every
/// present value is bound, never interpolated.
pub fn build_queue_query(input: &AttendanceQueueQueryInput) -> (r: QueueQuery)
    ensures
        r.sql@ == queue_sql(
            norm_text(input.date) is Some,
            norm_text(input.status) is Some,
            text_filter(input.query) is Some,
        ),
        r.params@.map_values(|p: String| p@) == queue_sql_params(
            input.date,
            input.status,
            input.query,
        ),
{
    let date_f = normalize_text(clone_opt(&input.date));
    let status_f = normalize_text(clone_opt(&input.status));
    let query_f = normalize_text(clone_opt(&input.query));
    let mut sql = String::from_str(
        "SELECT e.id AS attendance_id, e.patient_id AS patient_id, p.full_name AS patient_name, p.cpf AS patient_cpf, e.exam_date AS exam_date, e.status AS status, e.updated_at AS updated_at, ei.name AS exam_name FROM exams e JOIN patients p ON p.id = e.patient_id LEFT JOIN exam_items ei ON ei.exam_id = e.id WHERE 1 = 1",
    );
    let mut params: Vec<String> = Vec::new();
    match date_f {
        None => {},
        Some(d) => {
            sql.append(" AND e.exam_date = ?");
            params.push(d);
        },
    }
    match status_f {
        None => {},
        Some(st) => {
            sql.append(" AND e.status = ?");
            params.push(st);
        },
    }
    match query_f {
        None => {},
        Some(q) => {
            sql.append(
                " AND (lower(p.full_name) LIKE ? OR p.cpf LIKE ? OR lower(e.id) LIKE ? OR lower(coalesce(ei.name, '')) LIKE ?)",
            );
            let lowered = to_lower_string(q.as_str());
            let mut pat = String::from_str("%");
            pat.append(lowered.as_str());
            pat.append("%");
            params.push(pat.clone());
            params.push(pat.clone());
            params.push(pat.clone());
            params.push(pat);
        },
    }
    sql.append(" ORDER BY e.exam_date DESC, e.created_at DESC, ei.created_at ASC");
    let r = QueueQuery { sql, params };
    proof {
        assert(r.params@.map_values(|p: String| p@) =~= queue_sql_params(
            input.date,
            input.status,
            input.query,
        ));
    }
    r
}


} // verus!
