//! The editor's sticky line: when a stanza's first line has scrolled off
//! the top, that line is pinned above the text so the reader keeps their
//! place. Stanzas are runs of non-blank lines.

use vstd::prelude::*;
use crate::text::{trim_end_seq, trim_seq, trim_str, chars_of, slice_vec, string_from, trim_end_len};

verus! {

/// Line `i` is blank: only white space, or past the last line.
pub open spec fn blank_at(lines: Seq<Seq<char>>, i: int) -> bool {
    i < 0 || i >= lines.len() || trim_seq(lines[i]).len() == 0
}

/// The last non-blank line at or above line `i`; -1 for none.
pub open spec fn last_text_line(lines: Seq<Seq<char>>, i: int) -> int
    decreases i + 1,
{
    if i < 0 {
        -1
    } else if !blank_at(lines, i) {
        i
    } else {
        last_text_line(lines, i - 1)
    }
}

/// The first line of the stanza holding non-blank line `a`.
pub open spec fn stanza_start(lines: Seq<Seq<char>>, a: int) -> int
    decreases a,
{
    if a <= 0 || blank_at(lines, a - 1) {
        a
    } else {
        stanza_start(lines, a - 1)
    }
}

/// The line to pin when line `top` is the first one in view: the first
/// line of the stanza in view (or, in a blank gap, of the stanza above),
/// unless that line is itself the top line; `None` with no text above.
pub open spec fn spec_sticky_line(lines: Seq<Seq<char>>, top: int) -> Option<int> {
    let a = last_text_line(lines, top);
    if a < 0 {
        None
    } else {
        let s = stanza_start(lines, a);
        if s == top {
            None
        } else {
            Some(s)
        }
    }
}

proof fn lemma_last_text_line(lines: Seq<Seq<char>>, i: int)
    requires
        i >= -1,
    ensures
        last_text_line(lines, i) <= i,
        last_text_line(lines, i) >= 0 ==> !blank_at(lines, last_text_line(lines, i)),
        forall|j: int| last_text_line(lines, i) < j <= i ==> blank_at(lines, j),
    decreases i + 1,
{
    if i >= 0 && blank_at(lines, i) {
        lemma_last_text_line(lines, i - 1);
    }
}

proof fn lemma_stanza_start(lines: Seq<Seq<char>>, a: int)
    requires
        a >= 0,
        !blank_at(lines, a),
    ensures
        0 <= stanza_start(lines, a) <= a,
        stanza_start(lines, a) == 0 || blank_at(lines, stanza_start(lines, a) - 1),
        forall|j: int| stanza_start(lines, a) <= j <= a ==> !blank_at(lines, j),
    decreases a,
{
    if a > 0 && !blank_at(lines, a - 1) {
        lemma_stanza_start(lines, a - 1);
    }
}

proof fn lemma_last_past_end(lines: Seq<Seq<char>>, i: int)
    requires
        lines.len() > 0,
        i >= lines.len() - 1,
    ensures
        last_text_line(lines, i) == last_text_line(lines, lines.len() - 1),
    decreases i,
{
    if i > lines.len() - 1 {
        lemma_last_past_end(lines, i - 1);
    }
}

fn is_blank(lines: &Vec<String>, i: usize) -> (r: bool)
    requires
        i < lines@.len(),
    ensures
        r == blank_at(lines@.map_values(|l: String| l@), i as int),
{
    trim_str(lines[i].as_str()).len() == 0
}

/// The line to pin above the text, given the lines of the document and
/// the first line in view (a wrapped line is one line).
pub fn sticky_line(lines: &Vec<String>, top: usize) -> (r: Option<usize>)
    ensures
        r matches Some(s) ==> spec_sticky_line(lines@.map_values(|l: String| l@), top as int)
            == Some(s as int),
        r is None ==> spec_sticky_line(lines@.map_values(|l: String| l@), top as int) is None,
        r matches Some(s) ==> ({
            let lv = lines@.map_values(|l: String| l@);
            &&& s < top
            &&& !blank_at(lv, s as int)
            &&& (s == 0 || blank_at(lv, s - 1))
        }),
{
    let ghost lv = lines@.map_values(|l: String| l@);
    if lines.len() == 0 {
        proof {
            lemma_last_text_line(lv, top as int);
            assert(forall|j: int| 0 <= j <= top ==> blank_at(lv, j));
            if last_text_line(lv, top as int) >= 0 {
                assert(!blank_at(lv, last_text_line(lv, top as int)));
            }
        }
        return None;
    }
    let mut a: usize = if top < lines.len() {
        top
    } else {
        lines.len() - 1
    };
    proof {
        if top >= lines.len() {
            lemma_last_past_end(lv, top as int);
        }
    }
    while is_blank(lines, a)
        invariant
            a < lines@.len(),
            lv == lines@.map_values(|l: String| l@),
            last_text_line(lv, top as int) == last_text_line(lv, a as int),
        decreases a,
    {
        if a == 0 {
            assert(blank_at(lv, 0));
            assert(last_text_line(lv, -1) == -1);
            assert(last_text_line(lv, 0) == -1);
            return None;
        }
        a -= 1;
    }
    assert(last_text_line(lv, top as int) == a);
    let mut s = a;
    while s > 0 && !is_blank(lines, s - 1)
        invariant
            s <= a < lines@.len(),
            lv == lines@.map_values(|l: String| l@),
            stanza_start(lv, a as int) == stanza_start(lv, s as int),
        decreases s,
    {
        s -= 1;
    }
    assert(stanza_start(lv, s as int) == s);
    proof {
        lemma_stanza_start(lv, a as int);
        lemma_last_text_line(lv, top as int);
    }
    if s == top {
        None
    } else {
        Some(s)
    }
}

/// The text the sticky line shows for a document line: its trailing
/// white space dropped.
pub fn sticky_text(line: &str) -> (r: String)
    ensures
        r@ == trim_end_seq(line@),
{
    let cs = chars_of(line);
    let b = trim_end_len(cs.as_slice(), cs.len());
    assert(cs@.take(cs@.len() as int) =~= cs@);
    let out = slice_vec(cs.as_slice(), 0, b);
    assert(out@ =~= cs@.take(b as int));
    string_from(out.as_slice())
}

} // verus!
