//! Text bookkeeping for rhyme detection: the words of a text, where each
//! line starts, which line an offset falls in, and how far back a line may
//! look for rhymes.

use vstd::prelude::*;
use crate::text::{alphabetic, chars_of, is_alphabetic, string_from};

verus! {

/// How many lines back a line is compared against.
pub const LINE_WINDOW: usize = 3;

/// Line `i` may be compared back to line `start`: at most `LINE_WINDOW`
/// lines back, and — when `stop_at_blank_line` is set — never across a
/// blank line (rhyme schemes rarely reach across a stanza break).
pub open spec fn is_window_start(blank: Seq<bool>, i: int, stop: bool, start: int) -> bool {
    &&& 0 <= start <= i
    &&& i - start <= LINE_WINDOW
    &&& forall|k: int| start <= k < i ==> !(stop && #[trigger] blank[k])
    &&& (start == 0 || i - start == LINE_WINDOW || (stop && blank[start - 1]))
}

/// The first line line `i` is compared against, given which lines are
/// blank.
pub fn stanza_bounded_window_start(blank: &[bool], i: usize, stop_at_blank_line: bool) -> (start: usize)
    requires
        i < blank@.len(),
    ensures
        is_window_start(blank@, i as int, stop_at_blank_line, start as int),
{
    let mut start = i;
    while start > 0 && i - start < LINE_WINDOW && !(stop_at_blank_line && blank[start - 1])
        invariant
            start <= i < blank@.len(),
            i - start <= LINE_WINDOW,
            forall|k: int| start <= k < i ==> !(stop_at_blank_line && #[trigger] blank@[k]),
        decreases start,
    {
        start -= 1;
    }
    start
}

/// Where each line starts: offset 0, then one past every line feed.
pub open spec fn spec_line_starts(text: Seq<char>) -> Seq<usize> {
    seq![0usize] + Seq::new(text.len(), |i: int| i).filter(|i: int| text[i] == '\n').map_values(
        |i: int| (i + 1) as usize,
    )
}

/// Character offset of the start of each line (line 0 always starts at 0).
pub fn line_start_offsets(text: &str) -> (starts: Vec<usize>)
    ensures
        starts@ == spec_line_starts(text@),
        starts@.len() > 0,
        starts@[0] == 0,
        forall|a: int, b: int| 0 <= a < b < starts@.len() ==> (#[trigger] starts@[a]) < (#[trigger] starts@[b]),
{
    let cs = chars_of(text);
    let mut starts: Vec<usize> = Vec::new();
    starts.push(0);
    let mut i: usize = 0;
    assert(Seq::new(0, |j: int| j).filter(|j: int| cs@[j] == '\n') =~= Seq::<int>::empty());
    while i < cs.len()
        invariant
            i <= cs.len(),
            cs@ == text@,
            starts@ == seq![0usize] + Seq::new(i as nat, |j: int| j).filter(|j: int| cs@[j] == '\n').map_values(
                |j: int| (j + 1) as usize,
            ),
            forall|k: int| 0 <= k < starts@.len() ==> (#[trigger] starts@[k]) <= i,
            forall|a: int, b: int| 0 <= a < b < starts@.len() ==> (#[trigger] starts@[a]) < (#[trigger] starts@[b]),
        decreases cs.len() - i,
    {
        let ghost before = starts@;
        proof {
            let a = Seq::new((i + 1) as nat, |j: int| j);
            let b = Seq::new(i as nat, |j: int| j);
            assert(a.drop_last() =~= b);
            reveal_with_fuel(Seq::<_>::filter, 1);
            if cs@[i as int] == '\n' {
                assert(a.filter(|j: int| cs@[j] == '\n') =~= b.filter(|j: int| cs@[j] == '\n').push(i as int));
            } else {
                assert(a.filter(|j: int| cs@[j] == '\n') =~= b.filter(|j: int| cs@[j] == '\n'));
            }
        }
        if cs[i] == '\n' {
            starts.push(i + 1);
            assert(starts@ =~= before.push((i + 1) as usize));
        }
        i += 1;
    }
    starts
}

/// The line an offset falls in: the last line starting at or before it.
pub fn line_of(starts: &[usize], offset: usize) -> (line: usize)
    requires
        starts@.len() > 0,
        starts@[0] <= offset,
        forall|a: int, b: int| 0 <= a < b < starts@.len() ==> (#[trigger] starts@[a]) < (#[trigger] starts@[b]),
    ensures
        line < starts@.len(),
        starts@[line as int] <= offset,
        line + 1 < starts@.len() ==> offset < starts@[line + 1],
{
    let mut count: usize = 1;
    while count < starts.len() && starts[count] <= offset
        invariant
            1 <= count <= starts@.len(),
            starts@[count - 1] <= offset,
        decreases starts.len() - count,
    {
        count += 1;
    }
    count - 1
}


/// A word of the text: its character range and its characters.
pub struct WordSpan {
    /// Character offsets, not byte offsets.
    pub start: usize,
    pub end: usize,
    pub text: String,
}

pub open spec fn word_view(w: WordSpan) -> (int, int, Seq<char>) {
    (w.start as int, w.end as int, w.text@)
}

/// Where tokenizing stands: the words so far, and the start and the
/// characters of the word in progress, if any.
pub struct TokState {
    pub words: Seq<(int, int, Seq<char>)>,
    pub start: Option<int>,
    pub current: Seq<char>,
}

/// A letter starts or continues a word; an apostrophe only continues one.
pub open spec fn is_word_char(c: char, in_word: bool) -> bool {
    alphabetic(c) || (c == '\'' && in_word)
}

/// The state after character `c` at offset `i`.
pub open spec fn tok_step(st: TokState, i: int, c: char) -> TokState {
    if is_word_char(c, st.start is Some) {
        TokState {
            words: st.words,
            start: if st.start is Some { st.start } else { Some(i) },
            current: st.current.push(c),
        }
    } else {
        match st.start {
            Some(s) => TokState { words: st.words.push((s, i, st.current)), start: None, current: seq![] },
            None => st,
        }
    }
}

/// The state after reading all of `text`.
pub open spec fn tok_state(text: Seq<char>) -> TokState
    decreases text.len(),
{
    if text.len() == 0 {
        TokState { words: seq![], start: None, current: seq![] }
    } else {
        tok_step(tok_state(text.drop_last()), text.len() - 1, text.last())
    }
}

/// The words of `text`: maximal runs that start with a letter and go on
/// through letters and apostrophes.
pub open spec fn spec_tokenize(text: Seq<char>) -> Seq<(int, int, Seq<char>)> {
    let st = tok_state(text);
    match st.start {
        Some(s) => st.words.push((s, text.len() as int, st.current)),
        None => st.words,
    }
}

/// Each word's range and characters, as the state holds them.
pub open spec fn words_match(text: Seq<char>, words: Seq<(int, int, Seq<char>)>) -> bool {
    forall|k: int|
        0 <= k < words.len() ==> {
            let w = #[trigger] words[k];
            0 <= w.0 < w.1 <= text.len() && w.2 == text.subrange(w.0, w.1)
        }
}

proof fn lemma_tok_state(text: Seq<char>)
    ensures
        words_match(text, tok_state(text).words),
        match tok_state(text).start {
            Some(s) => 0 <= s < text.len() && tok_state(text).current == text.subrange(
                s,
                text.len() as int,
            ),
            None => tok_state(text).current == Seq::<char>::empty(),
        },
    decreases text.len(),
{
    if text.len() > 0 {
        let prev = text.drop_last();
        lemma_tok_state(prev);
        let st = tok_state(prev);
        let n = text.len() as int;
        assert forall|k: int| 0 <= k < st.words.len() implies #[trigger] st.words[k].2
            == text.subrange(st.words[k].0, st.words[k].1) by {
            assert(prev.subrange(st.words[k].0, st.words[k].1) =~= text.subrange(
                st.words[k].0,
                st.words[k].1,
            ));
        }
        match st.start {
            Some(s) => {
                assert(prev.subrange(s, n - 1) =~= text.subrange(s, n - 1));
                assert(text.subrange(s, n - 1).push(text.last()) =~= text.subrange(s, n));
            },
            None => {
                assert(seq![text.last()] =~= text.subrange(n - 1, n));
                assert(Seq::<char>::empty().push(text.last()) =~= seq![text.last()]);
            },
        }
    }
}

/// The words of `text`, in order, with character offsets.
pub fn tokenize(text: &str) -> (spans: Vec<WordSpan>)
    ensures
        spans@.map_values(|w: WordSpan| word_view(w)) == spec_tokenize(text@),
        words_match(text@, spec_tokenize(text@)),
{
    let cs = chars_of(text);
    let mut spans: Vec<WordSpan> = Vec::new();
    let mut start: Option<usize> = None;
    let mut current: Vec<char> = Vec::new();
    let mut i: usize = 0;
    assert(cs@.take(0) =~= Seq::<char>::empty());
    assert(spans@.map_values(|w: WordSpan| word_view(w)) =~= Seq::<(int, int, Seq<char>)>::empty());
    while i < cs.len()
        invariant
            i <= cs.len(),
            cs@ == text@,
            ({
                let st = tok_state(cs@.take(i as int));
                &&& spans@.map_values(|w: WordSpan| word_view(w)) == st.words
                &&& current@ == st.current
                &&& match start {
                    Some(s) => st.start == Some(s as int),
                    None => st.start is None,
                }
            }),
        decreases cs.len() - i,
    {
        let c = cs[i];
        let ghost prev = cs@.take(i as int);
        proof {
            let t = cs@.take(i + 1);
            assert(t.drop_last() =~= prev);
            assert(t.last() == c);
        }
        let word_char = is_alphabetic(c) || (c == '\'' && start.is_some());
        if word_char {
            if start.is_none() {
                start = Some(i);
            }
            current.push(c);
        } else if let Some(s) = start {
            let ghost before = spans@.map_values(|w: WordSpan| word_view(w));
            spans.push(WordSpan { start: s, end: i, text: string_from(current.as_slice()) });
            assert(spans@.map_values(|w: WordSpan| word_view(w)) =~= before.push(
                (s as int, i as int, current@),
            ));
            start = None;
            current = Vec::new();
            assert(current@ =~= Seq::<char>::empty());
        }
        i += 1;
    }
    assert(cs@.take(cs@.len() as int) =~= cs@);
    if let Some(s) = start {
        let ghost before = spans@.map_values(|w: WordSpan| word_view(w));
        spans.push(WordSpan { start: s, end: cs.len(), text: string_from(current.as_slice()) });
        assert(spans@.map_values(|w: WordSpan| word_view(w)) =~= before.push(
            (s as int, cs@.len() as int, current@),
        ));
    }
    proof {
        lemma_tok_state(text@);
    }
    spans
}

} // verus!
