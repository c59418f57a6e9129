//! Platform shims: what the app gets where a platform service is missing,
//! and the reading of what the Notes app reports.

use vstd::prelude::*;
use crate::text::{chars_of, find_char, find_from, slice_vec, string_from, trim_chars, trim_seq};

verus! {

/// One Apple Note as `(folder, title, plain-text body)`.
pub type NoteRow = (String, String, String);

/// Apple Notes only exist on macOS — every other platform gets an empty
/// snapshot, so the Apple Notes source reports itself unavailable.
pub fn fetch_apple_notes() -> (r: Result<Vec<NoteRow>, String>)
    ensures
        r matches Ok(rows) && rows@.len() == 0,
{
    Ok(Vec::new())
}

/// The separator between a note's fields (ASCII unit separator). A title
/// or plain-text body never holds it, so nothing needs escaping.
pub open spec fn unit_sep() -> char {
    '\u{1f}'
}

/// The separator after each note (ASCII record separator).
pub open spec fn record_sep() -> char {
    '\u{1e}'
}

/// `str::split(c)`: every piece between occurrences of `c`, the empty ones
/// included.
pub open spec fn split_on(s: Seq<char>, c: char) -> Seq<Seq<char>>
    decreases s.len(),
{
    match find_char(s, c) {
        Some(i) => {
            if 0 <= i < s.len() {
                seq![s.take(i)] + split_on(s.skip(i + 1), c)
            } else {
                seq![]
            }
        },
        None => seq![s],
    }
}

/// `s` with every `/` turned into `_`, so a name can't read as a path.
pub open spec fn slash_free(s: Seq<char>) -> Seq<char> {
    s.map_values(|c: char| if c == '/' { '_' } else { c })
}

/// A note record `folder␟title␟body` as a row: folder and title trimmed
/// and slash-free, body trimmed (it keeps any further separator). A
/// record without a title is skipped.
pub open spec fn record_row(rec: Seq<char>) -> Option<(Seq<char>, Seq<char>, Seq<char>)> {
    match find_char(rec, unit_sep()) {
        None => None,
        Some(i) => {
            let rest = rec.skip(i + 1);
            let title = match find_char(rest, unit_sep()) {
                Some(j) => rest.take(j),
                None => rest,
            };
            let body = match find_char(rest, unit_sep()) {
                Some(j) => rest.skip(j + 1),
                None => seq![],
            };
            let t = slash_free(trim_seq(title));
            if t.len() == 0 {
                None
            } else {
                Some((slash_free(trim_seq(rec.take(i))), t, trim_seq(body)))
            }
        },
    }
}

/// The rows of a run of records, in order.
pub open spec fn note_rows(records: Seq<Seq<char>>) -> Seq<(Seq<char>, Seq<char>, Seq<char>)>
    decreases records.len(),
{
    if records.len() == 0 {
        seq![]
    } else {
        (match record_row(records[0]) {
            Some(r) => seq![r],
            None => seq![],
        }) + note_rows(records.drop_first())
    }
}

pub open spec fn note_row_view(r: NoteRow) -> (Seq<char>, Seq<char>, Seq<char>) {
    (r.0@, r.1@, r.2@)
}

fn slash_free_chars(s: &Vec<char>) -> (r: Vec<char>)
    ensures
        r@ == slash_free(s@),
{
    let mut r: Vec<char> = Vec::new();
    let mut i: usize = 0;
    while i < s.len()
        invariant
            i <= s.len(),
            r@ == slash_free(s@.take(i as int)),
        decreases s.len() - i,
    {
        let c = s[i];
        r.push(if c == '/' { '_' } else { c });
        assert(slash_free(s@.take(i + 1)) =~= slash_free(s@.take(i as int)).push(
            if c == '/' { '_' } else { c },
        ));
        i += 1;
    }
    assert(s@.take(s@.len() as int) =~= s@);
    r
}

/// The row a single record stands for.
fn read_record(rec: &[char]) -> (r: Option<NoteRow>)
    ensures
        match r {
            Some(row) => record_row(rec@) == Some(note_row_view(row)),
            None => record_row(rec@) is None,
        },
{
    assert(rec@.skip(0) =~= rec@);
    match find_from(rec, '\u{1f}', 0) {
        None => None,
        Some(i) => {
            let ghost rest = rec@.skip(i + 1);
            let (title, body) = match find_from(rec, '\u{1f}', i + 1) {
                Some(j) => {
                    assert(rest.take(j - i - 1) =~= rec@.subrange(i + 1, j as int));
                    assert(rest.skip(j - i) =~= rec@.subrange(j + 1, rec@.len() as int));
                    (slice_vec(rec, i + 1, j), slice_vec(rec, j + 1, rec.len()))
                },
                None => {
                    assert(rest =~= rec@.subrange(i + 1, rec@.len() as int));
                    (slice_vec(rec, i + 1, rec.len()), Vec::new())
                },
            };
            let t = slash_free_chars(&trim_chars(title.as_slice()));
            if t.len() == 0 {
                None
            } else {
                let folder = slice_vec(rec, 0, i);
                assert(folder@ =~= rec@.take(i as int));
                let f = slash_free_chars(&trim_chars(folder.as_slice()));
                let b = trim_chars(body.as_slice());
                Some((string_from(f.as_slice()), string_from(t.as_slice()), string_from(b.as_slice())))
            }
        },
    }
}

/// Read what the Notes script prints — one `folder␟title␟body` record per
/// note, each followed by `␞` — into rows, skipping records with no title.
pub fn parse_note_records(raw: &str) -> (rows: Vec<NoteRow>)
    ensures
        rows@.map_values(|r: NoteRow| note_row_view(r)) == note_rows(split_on(raw@, record_sep())),
{
    let cs = chars_of(raw);
    let mut rows: Vec<NoteRow> = Vec::new();
    let mut pos: usize = 0;
    assert(cs@.skip(0) =~= cs@);
    assert(rows@.map_values(|r: NoteRow| note_row_view(r)) =~= Seq::<
        (Seq<char>, Seq<char>, Seq<char>),
    >::empty());
    loop
        invariant_except_break
            pos <= cs.len(),
            cs@ == raw@,
            note_rows(split_on(cs@, record_sep())) == rows@.map_values(
                |r: NoteRow| note_row_view(r),
            ) + note_rows(split_on(cs@.skip(pos as int), record_sep())),
        ensures
            rows@.map_values(|r: NoteRow| note_row_view(r)) == note_rows(
                split_on(raw@, record_sep()),
            ),
        decreases cs.len() - pos,
    {
        let ghost rest = cs@.skip(pos as int);
        let ghost before = rows@.map_values(|r: NoteRow| note_row_view(r));
        match find_from(cs.as_slice(), '\u{1e}', pos) {
            Some(j) => {
                let rec = slice_vec(cs.as_slice(), pos, j);
                proof {
                    let i = j - pos;
                    assert(rest.take(i) =~= rec@);
                    assert(rest.skip(i + 1) =~= cs@.skip(j + 1));
                    let pieces = split_on(rest, record_sep());
                    assert(pieces == seq![rec@] + split_on(cs@.skip(j + 1), record_sep()));
                    assert(pieces[0] == rec@);
                    assert(pieces.drop_first() =~= split_on(cs@.skip(j + 1), record_sep()));
                }
                match read_record(rec.as_slice()) {
                    Some(row) => {
                        rows.push(row);
                        assert(rows@.map_values(|r: NoteRow| note_row_view(r)) =~= before.push(
                            note_row_view(row),
                        ));
                        assert(before + (seq![note_row_view(row)] + note_rows(
                            split_on(cs@.skip(j + 1), record_sep()),
                        )) =~= before.push(note_row_view(row)) + note_rows(
                            split_on(cs@.skip(j + 1), record_sep()),
                        ));
                    },
                    None => {
                        assert(seq![] + note_rows(split_on(cs@.skip(j + 1), record_sep()))
                            =~= note_rows(split_on(cs@.skip(j + 1), record_sep())));
                    },
                }
                pos = j + 1;
            },
            None => {
                let rec = slice_vec(cs.as_slice(), pos, cs.len());
                proof {
                    assert(rest =~= rec@);
                    let pieces = split_on(rest, record_sep());
                    assert(pieces == seq![rec@]);
                    assert(pieces.drop_first() =~= Seq::<Seq<char>>::empty());
                    assert(note_rows(pieces.drop_first()) == Seq::<
                        (Seq<char>, Seq<char>, Seq<char>),
                    >::empty());
                }
                match read_record(rec.as_slice()) {
                    Some(row) => {
                        rows.push(row);
                        assert(rows@.map_values(|r: NoteRow| note_row_view(r)) =~= before + seq![
                            note_row_view(row),
                        ]);
                    },
                    None => {
                        assert(before + Seq::<(Seq<char>, Seq<char>, Seq<char>)>::empty() =~= before);
                    },
                }
                break ;
            },
        }
    }
    rows
}

} // verus!
