//! Character- and string-level building blocks shared by every parser and
//! renderer in the crate, each stated over `Seq<char>`.

use vstd::prelude::*;

verus! {

// ---------------------------------------------------------------------------
// Character classes
// ---------------------------------------------------------------------------

/// Unicode `White_Space` — the set `char::is_whitespace` and `str::trim`
/// use.
pub open spec fn is_ws(c: char) -> bool {
    ||| c == '\t'
    ||| c == '\n'
    ||| c == '\u{0B}'
    ||| c == '\u{0C}'
    ||| c == '\r'
    ||| c == ' '
    ||| c == '\u{85}'
    ||| c == '\u{A0}'
    ||| c == '\u{1680}'
    ||| ('\u{2000}' <= c && c <= '\u{200A}')
    ||| c == '\u{2028}'
    ||| c == '\u{2029}'
    ||| c == '\u{202F}'
    ||| c == '\u{205F}'
    ||| c == '\u{3000}'
}

/// `char::is_whitespace`.
pub fn is_whitespace(c: char) -> (b: bool)
    ensures
        b == is_ws(c),
{
    c == '\t' || c == '\n' || c == '\u{0B}' || c == '\u{0C}' || c == '\r' || c == ' '
        || c == '\u{85}' || c == '\u{A0}' || c == '\u{1680}' || ('\u{2000}' <= c && c
        <= '\u{200A}') || c == '\u{2028}' || c == '\u{2029}' || c == '\u{202F}' || c
        == '\u{205F}' || c == '\u{3000}'
}

pub open spec fn is_ascii_upper(c: char) -> bool {
    'A' <= c && c <= 'Z'
}

pub open spec fn is_ascii_lower(c: char) -> bool {
    'a' <= c && c <= 'z'
}

pub open spec fn is_ascii_alpha(c: char) -> bool {
    is_ascii_upper(c) || is_ascii_lower(c)
}

pub open spec fn is_ascii_digit(c: char) -> bool {
    '0' <= c && c <= '9'
}

/// `char::to_ascii_lowercase`.
pub open spec fn ascii_lower(c: char) -> char {
    if is_ascii_upper(c) {
        ((c as int) + 32) as char
    } else {
        c
    }
}

/// `char::to_ascii_uppercase`.
pub open spec fn ascii_upper(c: char) -> char {
    if is_ascii_lower(c) {
        ((c as int) - 32) as char
    } else {
        c
    }
}

pub fn to_ascii_lowercase(c: char) -> (r: char)
    ensures
        r == ascii_lower(c),
{
    if 'A' <= c && c <= 'Z' {
        let v = c as u32 + 32;
        let r = ((v as u8) as char);
        assert(r as int == c as int + 32);
        r
    } else {
        c
    }
}

pub fn to_ascii_uppercase(c: char) -> (r: char)
    ensures
        r == ascii_upper(c),
{
    if 'a' <= c && c <= 'z' {
        let v = c as u32 - 32;
        let r = ((v as u8) as char);
        assert(r as int == c as int - 32);
        r
    } else {
        c
    }
}

/// `str::to_ascii_lowercase`, over characters.
pub open spec fn ascii_lower_seq(s: Seq<char>) -> Seq<char> {
    s.map_values(|c: char| ascii_lower(c))
}

pub fn ascii_lowercase_chars(s: &Vec<char>) -> (out: Vec<char>)
    ensures
        out@ == ascii_lower_seq(s@),
{
    let mut out: Vec<char> = Vec::new();
    let mut i: usize = 0;
    while i < s.len()
        invariant
            i <= s.len(),
            out@ == ascii_lower_seq(s@.take(i as int)),
        decreases s.len() - i,
    {
        let c = to_ascii_lowercase(s[i]);
        out.push(c);
        i += 1;
        assert(ascii_lower_seq(s@.take(i as int)) =~= ascii_lower_seq(s@.take(i - 1)).push(
            ascii_lower(s@[i - 1]),
        ));
    }
    assert(s@.take(s.len() as int) =~= s@);
    out
}

// ---------------------------------------------------------------------------
// Conversions between `str` / `String` and character vectors
// ---------------------------------------------------------------------------

/// The characters of `s`, in order.
pub fn chars_of(s: &str) -> (out: Vec<char>)
    ensures
        out@ == s@,
{
    let mut out: Vec<char> = Vec::new();
    for c in iter: s.chars()
        invariant
            out@ == iter.seq().take(iter.index() as int),
    {
        out.push(c);
    }
    out
}

/// `String::push`.
#[verifier::external_body]
pub(crate) fn push_char(s: &mut String, c: char)
    ensures
        final(s)@ == old(s)@.push(c),
{
    s.push(c);
}

/// `String::new`, extended by `chars` in order.
pub fn string_from(chars: &[char]) -> (s: String)
    ensures
        s@ == chars@,
{
    let mut s = String::new();
    let mut i: usize = 0;
    while i < chars.len()
        invariant
            i <= chars.len(),
            s@ == chars@.take(i as int),
        decreases chars.len() - i,
    {
        push_char(&mut s, chars[i]);
        i += 1;
        assert(chars@.take(i as int) =~= chars@.take(i - 1).push(chars@[i - 1]));
    }
    assert(chars@.take(chars.len() as int) =~= chars@);
    s
}

/// Append every character of `src` to `dst`.
pub fn extend_chars(dst: &mut Vec<char>, src: &[char])
    ensures
        final(dst)@ == old(dst)@ + src@,
{
    let mut i: usize = 0;
    while i < src.len()
        invariant
            i <= src.len(),
            dst@ == old(dst)@ + src@.take(i as int),
        decreases src.len() - i,
    {
        dst.push(src[i]);
        i += 1;
        assert(src@.take(i as int) =~= src@.take(i - 1).push(src@[i - 1]));
    }
    assert(src@.take(src.len() as int) =~= src@);
}

/// Append the characters of `src` to `dst`.
pub fn extend_str(dst: &mut Vec<char>, src: &str)
    ensures
        final(dst)@ == old(dst)@ + src@,
{
    let cs = chars_of(src);
    extend_chars(dst, cs.as_slice());
}

/// Character-wise equality of a character slice and a `str`.
pub fn eq_str(a: &[char], b: &str) -> (r: bool)
    ensures
        r == (a@ == b@),
{
    let bs = chars_of(b);
    eq_chars(a, bs.as_slice())
}

/// Character-wise equality of two slices.
pub fn eq_chars(a: &[char], b: &[char]) -> (r: bool)
    ensures
        r == (a@ == b@),
{
    if a.len() != b.len() {
        return false;
    }
    let mut i: usize = 0;
    while i < a.len()
        invariant
            a.len() == b.len(),
            i <= a.len(),
            forall|j: int| 0 <= j < i ==> a@[j] == b@[j],
        decreases a.len() - i,
    {
        if a[i] != b[i] {
            return false;
        }
        i += 1;
    }
    assert(a@ =~= b@);
    true
}

// ---------------------------------------------------------------------------
// Searching and slicing
// ---------------------------------------------------------------------------

/// Index of the first `c` in `s`.
pub open spec fn find_char(s: Seq<char>, c: char) -> Option<int>
    decreases s.len(),
{
    if s.len() == 0 {
        None
    } else if s[0] == c {
        Some(0)
    } else {
        match find_char(s.drop_first(), c) {
            Some(i) => Some(i + 1),
            None => None,
        }
    }
}

pub proof fn lemma_find_char(s: Seq<char>, c: char)
    ensures
        match find_char(s, c) {
            Some(i) => 0 <= i < s.len() && s[i] == c && forall|j: int|
                0 <= j < i ==> s[j] != c,
            None => forall|j: int| 0 <= j < s.len() ==> s[j] != c,
        },
    decreases s.len(),
{
    if s.len() > 0 {
        lemma_find_char(s.drop_first(), c);
        if s[0] != c {
            assert forall|j: int| 0 < j < s.len() implies s[j] == s.drop_first()[j - 1] by {}
        }
    }
}

/// `find_char` agrees with the first-occurrence characterisation.
pub proof fn lemma_find_char_at(s: Seq<char>, c: char, i: int)
    requires
        0 <= i < s.len(),
        s[i] == c,
        forall|j: int| 0 <= j < i ==> s[j] != c,
    ensures
        find_char(s, c) == Some(i),
{
    lemma_find_char(s, c);
}

pub proof fn lemma_find_char_none(s: Seq<char>, c: char)
    requires
        forall|j: int| 0 <= j < s.len() ==> s[j] != c,
    ensures
        find_char(s, c) is None,
{
    lemma_find_char(s, c);
}

/// Exec form of `find_char`, from position `from` on.
pub fn find_from(s: &[char], c: char, from: usize) -> (r: Option<usize>)
    requires
        from <= s.len(),
    ensures
        match r {
            Some(i) => from <= i < s.len() && find_char(s@.skip(from as int), c) == Some(i - from),
            None => find_char(s@.skip(from as int), c) is None,
        },
{
    let mut i = from;
    while i < s.len()
        invariant
            from <= i <= s.len(),
            forall|j: int| from <= j < i ==> s@[j] != c,
        decreases s.len() - i,
    {
        if s[i] == c {
            proof {
                lemma_find_char_at(s@.skip(from as int), c, i - from);
            }
            return Some(i);
        }
        i += 1;
    }
    proof {
        lemma_find_char_none(s@.skip(from as int), c);
    }
    None
}

/// A copy of `s[from..to]`.
pub fn slice_vec(s: &[char], from: usize, to: usize) -> (out: Vec<char>)
    requires
        from <= to <= s.len(),
    ensures
        out@ == s@.subrange(from as int, to as int),
{
    let mut out: Vec<char> = Vec::new();
    let mut i = from;
    while i < to
        invariant
            from <= i <= to <= s.len(),
            out@ == s@.subrange(from as int, i as int),
        decreases to - i,
    {
        out.push(s[i]);
        i += 1;
        assert(s@.subrange(from as int, i as int) =~= s@.subrange(from as int, i - 1).push(
            s@[i - 1],
        ));
    }
    out
}

// ---------------------------------------------------------------------------
// Trimming
// ---------------------------------------------------------------------------

pub open spec fn trim_start_seq(s: Seq<char>) -> Seq<char>
    decreases s.len(),
{
    if s.len() > 0 && is_ws(s[0]) {
        trim_start_seq(s.drop_first())
    } else {
        s
    }
}

pub open spec fn trim_end_seq(s: Seq<char>) -> Seq<char>
    decreases s.len(),
{
    if s.len() > 0 && is_ws(s.last()) {
        trim_end_seq(s.drop_last())
    } else {
        s
    }
}

/// `str::trim`: both ends stripped of Unicode white space.
pub open spec fn trim_seq(s: Seq<char>) -> Seq<char> {
    trim_end_seq(trim_start_seq(s))
}

proof fn lemma_trim_start_skip(s: Seq<char>, i: int)
    requires
        0 <= i <= s.len(),
        forall|j: int| 0 <= j < i ==> is_ws(s[j]),
    ensures
        trim_start_seq(s) == trim_start_seq(s.skip(i)),
    decreases i,
{
    if i > 0 {
        assert(s.skip(i) =~= s.drop_first().skip(i - 1));
        lemma_trim_start_skip(s.drop_first(), i - 1);
    } else {
        assert(s.skip(0) =~= s);
    }
}

proof fn lemma_trim_end_take(s: Seq<char>, i: int)
    requires
        0 <= i <= s.len(),
        forall|j: int| i <= j < s.len() ==> is_ws(s[j]),
    ensures
        trim_end_seq(s) == trim_end_seq(s.take(i)),
    decreases s.len() - i,
{
    if i < s.len() {
        assert(s.drop_last().take(i) =~= s.take(i));
        lemma_trim_end_take(s.drop_last(), i);
    } else {
        assert(s.take(i) =~= s);
    }
}

/// `s[from..to]` with white space stripped from both ends.
pub fn trim_range(s: &[char], from: usize, to: usize) -> (out: Vec<char>)
    requires
        from <= to <= s.len(),
    ensures
        out@ == trim_seq(s@.subrange(from as int, to as int)),
{
    let ghost sub = s@.subrange(from as int, to as int);
    let mut a = from;
    while a < to && is_whitespace(s[a])
        invariant
            from <= a <= to <= s.len(),
            forall|j: int| from <= j < a ==> is_ws(s@[j]),
        decreases to - a,
    {
        a += 1;
    }
    proof {
        lemma_trim_start_skip(sub, a - from);
        let t = sub.skip(a - from);
        assert(t =~= s@.subrange(a as int, to as int));
        if t.len() > 0 {
            assert(!is_ws(t[0]));
        }
    }
    let mut b = to;
    while b > a && is_whitespace(s[b - 1])
        invariant
            from <= a <= b <= to <= s.len(),
            forall|j: int| b <= j < to ==> is_ws(s@[j]),
        decreases b - a,
    {
        b -= 1;
    }
    proof {
        let t = s@.subrange(a as int, to as int);
        lemma_trim_end_take(t, b - a);
        assert(t.take(b - a) =~= s@.subrange(a as int, b as int));
        let u = s@.subrange(a as int, b as int);
        if u.len() > 0 {
            assert(!is_ws(u.last()));
        }
    }
    slice_vec(s, a, b)
}

/// The length of `s[..to]` once trailing white space is stripped.
pub fn trim_end_len(s: &[char], to: usize) -> (b: usize)
    requires
        to <= s.len(),
    ensures
        b <= to,
        s@.take(b as int) == trim_end_seq(s@.take(to as int)),
{
    let mut b = to;
    while b > 0 && is_whitespace(s[b - 1])
        invariant
            b <= to <= s.len(),
            forall|j: int| b <= j < to ==> is_ws(s@[j]),
        decreases b,
    {
        b -= 1;
    }
    proof {
        let t = s@.take(to as int);
        lemma_trim_end_take(t, b as int);
        assert(t.take(b as int) =~= s@.take(b as int));
        let u = s@.take(b as int);
        if u.len() > 0 {
            assert(!is_ws(u.last()));
        }
    }
    b
}

/// `s[from..]` with leading white space stripped.
pub fn trim_start_from(s: &[char], from: usize) -> (out: Vec<char>)
    requires
        from <= s.len(),
    ensures
        out@ == trim_start_seq(s@.skip(from as int)),
{
    let ghost sub = s@.skip(from as int);
    let mut a = from;
    while a < s.len() && is_whitespace(s[a])
        invariant
            from <= a <= s.len(),
            sub == s@.skip(from as int),
            forall|j: int| from <= j < a ==> is_ws(s@[j]),
        decreases s.len() - a,
    {
        a += 1;
    }
    proof {
        assert forall|j: int| 0 <= j < a - from implies is_ws(sub[j]) by {
            assert(sub[j] == s@[from + j]);
        }
        lemma_trim_start_skip(sub, a - from);
        let t = sub.skip(a - from);
        assert(t =~= s@.subrange(a as int, s@.len() as int));
        if t.len() > 0 {
            assert(!is_ws(t[0]));
        }
    }
    slice_vec(s, a, s.len())
}

/// Whether `a` begins with `b`.
pub fn has_prefix(a: &[char], b: &[char]) -> (r: bool)
    ensures
        r == (b.len() <= a.len() && a@.take(b.len() as int) == b@),
{
    if b.len() > a.len() {
        return false;
    }
    let head = slice_vec(a, 0, b.len());
    assert(head@ =~= a@.take(b.len() as int));
    eq_chars(head.as_slice(), b)
}

/// Whether a character has the Unicode `Alphabetic` property, as
/// `char::is_alphabetic` reports it.
pub uninterp spec fn alphabetic(c: char) -> bool;

/// An ASCII character.
pub open spec fn is_ascii_char(c: char) -> bool {
    (c as int) < 128
}

/// Every character of `s` is ASCII.
pub open spec fn all_ascii(s: Seq<char>) -> bool {
    forall|i: int| 0 <= i < s.len() ==> is_ascii_char(#[trigger] s[i])
}

/// `char::is_alphabetic`; its result is a function of its argument alone.
/// Among ASCII characters the `Alphabetic` property holds of the letters
/// and nothing else.
#[verifier::external_body]
pub(crate) fn is_alphabetic(c: char) -> (r: bool)
    ensures
        r == alphabetic(c),
        is_ascii_char(c) ==> r == is_ascii_alpha(c),
{
    c.is_alphabetic()
}

/// What `str::to_lowercase` makes of a string: the full Unicode case
/// mapping, which can change a string's length.
pub uninterp spec fn lowercase(s: Seq<char>) -> Seq<char>;

/// `str::to_lowercase`; its result is a function of its argument alone.
/// Each character maps by its Unicode lowercase mapping, which for ASCII
/// turns `A`..`Z` into `a`..`z` and keeps every other character, so an
/// ASCII string keeps its length, letter for letter.
#[verifier::external_body]
pub(crate) fn to_lowercase(s: &str) -> (r: String)
    ensures
        r@ == lowercase(s@),
        all_ascii(s@) ==> r@ == ascii_lower_seq(s@),
{
    s.to_lowercase()
}

/// `str::trim`.
pub fn trim_chars(s: &[char]) -> (out: Vec<char>)
    ensures
        out@ == trim_seq(s@),
{
    assert(s@.subrange(0, s@.len() as int) =~= s@);
    trim_range(s, 0, s.len())
}

/// `str::trim` for a `str`.
pub fn trim_str(s: &str) -> (out: Vec<char>)
    ensures
        out@ == trim_seq(s@),
{
    let cs = chars_of(s);
    trim_chars(cs.as_slice())
}

// ---------------------------------------------------------------------------
// Lines
// ---------------------------------------------------------------------------

/// A line as `str::lines` yields it: a `\r` right before the `\n` is
/// dropped along with it.
pub open spec fn strip_cr(l: Seq<char>) -> Seq<char> {
    if l.len() > 0 && l.last() == '\r' {
        l.drop_last()
    } else {
        l
    }
}

/// `str::lines`: split at `\n` (and `\r\n`); a final line ending is
/// optional and yields no extra empty line.
pub open spec fn spec_lines(s: Seq<char>) -> Seq<Seq<char>>
    decreases s.len(),
{
    if s.len() == 0 {
        seq![]
    } else {
        match find_char(s, '\n') {
            Some(i) => {
                if 0 <= i < s.len() {
                    seq![strip_cr(s.take(i))] + spec_lines(s.skip(i + 1))
                } else {
                    seq![]
                }
            },
            None => seq![s],
        }
    }
}

pub open spec fn char_views(v: Seq<Vec<char>>) -> Seq<Seq<char>> {
    v.map_values(|l: Vec<char>| l@)
}

/// `str::lines`, each line as its characters.
pub fn lines_of(text: &str) -> (lines: Vec<Vec<char>>)
    ensures
        char_views(lines@) == spec_lines(text@),
{
    let cs = chars_of(text);
    let mut lines: Vec<Vec<char>> = Vec::new();
    let mut pos: usize = 0;
    assert(cs@.skip(0) =~= cs@);
    assert(char_views(lines@) + spec_lines(cs@.skip(0)) =~= spec_lines(cs@));
    while pos < cs.len()
        invariant
            pos <= cs.len(),
            cs@ == text@,
            spec_lines(cs@) == char_views(lines@) + spec_lines(cs@.skip(pos as int)),
        decreases cs.len() - pos,
    {
        let ghost rest = cs@.skip(pos as int);
        let ghost before = char_views(lines@);
        let (line, next) = match find_from(cs.as_slice(), '\n', pos) {
            Some(j) => {
                let end = if j > pos && cs[j - 1] == '\r' {
                    j - 1
                } else {
                    j
                };
                proof {
                    let i = j - pos;
                    assert(rest.take(i) =~= cs@.subrange(pos as int, j as int));
                    assert(strip_cr(rest.take(i)) =~= cs@.subrange(pos as int, end as int));
                    assert(rest.skip(i + 1) =~= cs@.skip(j + 1));
                }
                (slice_vec(cs.as_slice(), pos, end), j + 1)
            },
            None => {
                proof {
                    assert(rest =~= cs@.subrange(pos as int, cs@.len() as int));
                    assert(cs@.skip(cs@.len() as int) =~= seq![]);
                }
                (slice_vec(cs.as_slice(), pos, cs.len()), cs.len())
            },
        };
        proof {
            assert(spec_lines(rest) == seq![line@] + spec_lines(cs@.skip(next as int)));
        }
        lines.push(line);
        proof {
            assert(char_views(lines@) =~= before.push(line@));
            assert(before + spec_lines(rest) =~= char_views(lines@) + spec_lines(cs@.skip(next as int)));
        }
        pos = next;
    }
    assert(spec_lines(cs@.skip(pos as int)) =~= seq![]) by {
        assert(cs@.skip(pos as int).len() == 0);
    }
    assert(char_views(lines@) + seq![] =~= char_views(lines@));
    lines
}

/// `str::split('\n')`: every piece between newlines, including the empty
/// ones at either end.
pub open spec fn split_newlines(s: Seq<char>) -> Seq<Seq<char>>
    decreases s.len(),
{
    match find_char(s, '\n') {
        Some(i) => {
            if 0 <= i < s.len() {
                seq![s.take(i)] + split_newlines(s.skip(i + 1))
            } else {
                seq![]
            }
        },
        None => seq![s],
    }
}

// ---------------------------------------------------------------------------
// Decimal numbers
// ---------------------------------------------------------------------------

pub open spec fn digit_char(d: nat) -> char {
    ((d as int) + 48) as char
}

/// Decimal digits of `n`, most significant first, no leading zeros.
pub open spec fn digits_of(n: nat) -> Seq<char>
    decreases n,
{
    if n < 10 {
        seq![digit_char(n)]
    } else {
        digits_of(n / 10).push(digit_char(n % 10))
    }
}

/// `i64::to_string` / `u32::to_string`: an optional `-`, then the digits.
pub open spec fn render_int(i: int) -> Seq<char> {
    if i < 0 {
        seq!['-'] + digits_of((-i) as nat)
    } else {
        digits_of(i as nat)
    }
}

fn digit(d: u64) -> (c: char)
    requires
        d < 10,
    ensures
        c == digit_char(d as nat),
{
    let c = ((d as u8) + 48u8) as char;
    assert(c as int == d as int + 48);
    c
}

fn push_digits(out: &mut Vec<char>, n: u64)
    ensures
        final(out)@ == old(out)@ + digits_of(n as nat),
    decreases n,
{
    if n >= 10 {
        push_digits(out, n / 10);
    }
    let c = digit(n % 10);
    out.push(c);
    assert(old(out)@ + digits_of(n as nat) =~= out@) by {
        if n >= 10 {
            assert(digits_of(n as nat) == digits_of((n / 10) as nat).push(digit_char((n % 10) as nat)));
        }
    }
}

/// Decimal rendering of an unsigned value.
pub fn render_u64(n: u64) -> (out: Vec<char>)
    ensures
        out@ == render_int(n as int),
{
    let mut out: Vec<char> = Vec::new();
    push_digits(&mut out, n);
    assert(out@ =~= digits_of(n as nat));
    out
}

/// Decimal rendering of a signed value.
pub fn render_i64(n: i64) -> (out: Vec<char>)
    ensures
        out@ == render_int(n as int),
{
    let mut out: Vec<char> = Vec::new();
    if n < 0 {
        out.push('-');
        let m: u64 = (0i128 - n as i128) as u64;
        push_digits(&mut out, m);
        assert(out@ =~= seq!['-'] + digits_of((-n) as nat));
    } else {
        push_digits(&mut out, n as u64);
        assert(out@ =~= digits_of(n as nat));
    }
    out
}

pub open spec fn all_digits(s: Seq<char>) -> bool {
    forall|i: int| 0 <= i < s.len() ==> is_ascii_digit(#[trigger] s[i])
}

/// The value of a run of decimal digits.
pub open spec fn digits_value(s: Seq<char>) -> int
    decreases s.len(),
{
    if s.len() == 0 {
        0
    } else {
        digits_value(s.drop_last()) * 10 + ((s.last() as int) - 48)
    }
}

/// `<i64 as FromStr>::from_str`: an optional `+` or `-`, then one or more
/// ASCII digits, whose value must fit the type.
pub open spec fn parse_int(s: Seq<char>) -> Option<int> {
    let neg = s.len() > 0 && s[0] == '-';
    let body = if s.len() > 0 && (s[0] == '-' || s[0] == '+') {
        s.drop_first()
    } else {
        s
    };
    if body.len() > 0 && all_digits(body) {
        let v = if neg {
            -digits_value(body)
        } else {
            digits_value(body)
        };
        if i64::MIN <= v <= i64::MAX {
            Some(v)
        } else {
            None
        }
    } else {
        None
    }
}

/// `parse_int` spelled out over its sign and body.
proof fn lemma_parse_int_body(s: Seq<char>)
    ensures
        ({
            let neg = s.len() > 0 && s[0] == '-';
            let body = if s.len() > 0 && (s[0] == '-' || s[0] == '+') {
                s.drop_first()
            } else {
                s
            };
            &&& !(body.len() > 0 && all_digits(body)) ==> parse_int(s) is None
            &&& body.len() > 0 && all_digits(body) && neg ==> parse_int(s) == (if i64::MIN
                <= -digits_value(body) { Some(-digits_value(body)) } else { None })
            &&& body.len() > 0 && all_digits(body) && !neg ==> parse_int(s) == (if digits_value(
                body,
            ) <= i64::MAX { Some(digits_value(body)) } else { None })
        }),
{
    let body = if s.len() > 0 && (s[0] == '-' || s[0] == '+') {
        s.drop_first()
    } else {
        s
    };
    if body.len() > 0 && all_digits(body) {
        lemma_digits_value_nonneg(body);
    }
}

proof fn lemma_digits_value_nonneg(s: Seq<char>)
    requires
        all_digits(s),
    ensures
        digits_value(s) >= 0,
    decreases s.len(),
{
    if s.len() > 0 {
        assert(all_digits(s.drop_last())) by {
            assert forall|i: int| 0 <= i < s.drop_last().len() implies is_ascii_digit(
                #[trigger] s.drop_last()[i],
            ) by {
                assert(s.drop_last()[i] == s[i]);
            }
        }
        lemma_digits_value_nonneg(s.drop_last());
        assert(is_ascii_digit(s[s.len() - 1]));
    }
}

proof fn lemma_digits_value_grows(s: Seq<char>, i: int)
    requires
        all_digits(s),
        0 <= i <= s.len(),
    ensures
        digits_value(s.take(i)) <= digits_value(s),
    decreases s.len() - i,
{
    if i < s.len() {
        let t = s.drop_last();
        assert(all_digits(t)) by {
            assert forall|j: int| 0 <= j < t.len() implies is_ascii_digit(#[trigger] t[j]) by {
                assert(t[j] == s[j]);
            }
        }
        assert(t.take(i) =~= s.take(i));
        lemma_digits_value_grows(t, i);
        lemma_digits_value_nonneg(t);
        assert(is_ascii_digit(s[s.len() - 1]));
    } else {
        assert(s.take(i) =~= s);
    }
}

/// Exec form of `parse_int`.
pub fn parse_i64(s: &[char]) -> (r: Option<i64>)
    ensures
        r matches Some(v) ==> parse_int(s@) == Some(v as int),
        r is None ==> parse_int(s@) is None,
{
    let neg = s.len() > 0 && s[0] == '-';
    let start: usize = if s.len() > 0 && (s[0] == '-' || s[0] == '+') {
        1
    } else {
        0
    };
    let ghost body = if s@.len() > 0 && (s@[0] == '-' || s@[0] == '+') {
        s@.drop_first()
    } else {
        s@
    };
    assert(body =~= s@.skip(start as int));
    if start >= s.len() {
        return None;
    }
    let limit: i128 = if neg {
        9223372036854775808i128
    } else {
        9223372036854775807i128
    };
    let mut acc: i128 = 0;
    let mut i = start;
    while i < s.len()
        invariant
            start <= i <= s.len(),
            start == 0 || start == 1,
            body =~= s@.skip(start as int),
            body == (if s@.len() > 0 && (s@[0] == '-' || s@[0] == '+') {
                s@.drop_first()
            } else {
                s@
            }),
            neg == (s@.len() > 0 && s@[0] == '-'),
            all_digits(body.take(i - start)),
            acc == digits_value(body.take(i - start)),
            0 <= acc <= limit,
            limit == (if neg { 9223372036854775808i128 } else { 9223372036854775807i128 }),
        decreases s.len() - i,
    {
        let c = s[i];
        if !('0' <= c && c <= '9') {
            proof {
                assert(body[i - start] == c);
                assert(!is_ascii_digit(body[i - start]));
                assert(!all_digits(body));
                lemma_parse_int_body(s@);
                assert(parse_int(s@) is None);
            }
            return None;
        }
        let d = (c as u32 - 48) as i128;
        proof {
            assert(body.take(i + 1 - start).drop_last() =~= body.take(i - start));
            assert(body.take(i + 1 - start).last() == c);
        }
        acc = acc * 10 + d;
        i += 1;
        assert(all_digits(body.take(i - start))) by {
            let t = body.take(i - start);
            assert forall|j: int| 0 <= j < t.len() implies is_ascii_digit(#[trigger] t[j]) by {
                if j < t.len() - 1 {
                    assert(t[j] == body.take(i - 1 - start)[j]);
                }
            }
        }
        if acc > limit {
            proof {
                assert(body.take(i - start) =~= body.take(body.len() as int).take(i - start));
                assert(all_digits(body) || !all_digits(body));
                if all_digits(body) {
                    lemma_digits_value_grows(body, i - start);
                    assert(digits_value(body) > limit);
                }
                lemma_parse_int_body(s@);
                assert(parse_int(s@) is None);
            }
            return None;
        }
    }
    assert(body.take(i - start) =~= body);
    proof {
        lemma_parse_int_body(s@);
    }
    if neg {
        Some((0 - acc) as i64)
    } else {
        Some(acc as i64)
    }
}


// ---------------------------------------------------------------------------
// Facts about lines, trimming and decimal text
// ---------------------------------------------------------------------------

/// Text that ends a line (or is empty) splits into lines independently of
/// what follows it.
pub proof fn lemma_lines_append(a: Seq<char>, b: Seq<char>)
    requires
        a.len() == 0 || a.last() == '\n',
    ensures
        spec_lines(a + b) == spec_lines(a) + spec_lines(b),
    decreases a.len(),
{
    if a.len() == 0 {
        assert(a + b =~= b);
        assert(spec_lines(a) =~= seq![]);
        assert(seq![] + spec_lines(b) =~= spec_lines(b));
    } else {
        lemma_find_char(a, '\n');
        let i = find_char(a, '\n')->0;
        let ab = a + b;
        assert forall|j: int| 0 <= j < i implies ab[j] != '\n' by {
            assert(ab[j] == a[j]);
        }
        assert(ab[i] == a[i]);
        lemma_find_char_at(ab, '\n', i);
        assert(ab.take(i) =~= a.take(i));
        assert(ab.skip(i + 1) =~= a.skip(i + 1) + b);
        let rest = a.skip(i + 1);
        assert(rest.len() == 0 || rest.last() == '\n') by {
            if rest.len() > 0 {
                assert(rest.last() == a.last());
            }
        }
        lemma_lines_append(rest, b);
        assert(spec_lines(ab) == seq![strip_cr(a.take(i))] + spec_lines(rest + b));
        assert(spec_lines(a) == seq![strip_cr(a.take(i))] + spec_lines(rest));
        assert(seq![strip_cr(a.take(i))] + (spec_lines(rest) + spec_lines(b)) =~= (seq![
            strip_cr(a.take(i)),
        ] + spec_lines(rest)) + spec_lines(b));
    }
}

/// One line of text with no line break of its own, not ending in `\r`.
pub proof fn lemma_lines_single(x: Seq<char>)
    requires
        forall|j: int| 0 <= j < x.len() ==> x[j] != '\n',
        x.len() == 0 || x.last() != '\r',
    ensures
        spec_lines(x.push('\n')) == seq![x],
{
    let t = x.push('\n');
    assert forall|j: int| 0 <= j < x.len() implies t[j] != '\n' by {
        assert(t[j] == x[j]);
    }
    lemma_find_char_at(t, '\n', x.len() as int);
    assert(t.take(x.len() as int) =~= x);
    assert(t.skip(x.len() as int + 1) =~= seq![]);
    assert(spec_lines(t.skip(x.len() as int + 1)) =~= seq![]);
    assert(seq![strip_cr(x)] + seq![] =~= seq![x]);
}

/// Text with no white space at either end is its own trim.
pub proof fn lemma_trim_id(s: Seq<char>)
    requires
        s.len() == 0 || (!is_ws(s[0]) && !is_ws(s.last())),
    ensures
        trim_seq(s) == s,
{
}

/// The decimal digits of `n` read back as `n`.
pub proof fn lemma_digits_round_trip(n: nat)
    ensures
        digits_of(n).len() > 0,
        all_digits(digits_of(n)),
        digits_value(digits_of(n)) == n,
    decreases n,
{
    let d = digits_of(n);
    if n < 10 {
        assert(d[0] == digit_char(n));
        assert(d.drop_last() =~= seq![]);
        assert(digit_char(n) as int == n + 48);
        assert(digits_value(d) == digits_value(d.drop_last()) * 10 + ((d.last() as int) - 48));
    } else {
        lemma_digits_round_trip(n / 10);
        let h = digits_of(n / 10);
        assert(d == h.push(digit_char(n % 10)));
        assert(d.drop_last() =~= h);
        assert forall|i: int| 0 <= i < d.len() implies is_ascii_digit(#[trigger] d[i]) by {
            if i < h.len() {
                assert(d[i] == h[i]);
            }
        }
        assert(digit_char((n % 10) as nat) as int == n % 10 + 48);
        assert((n / 10) * 10 + n % 10 == n) by (nonlinear_arith);
        assert(d.last() == digit_char((n % 10) as nat));
        assert(digits_value(d) == digits_value(h) * 10 + ((d.last() as int) - 48));
    }
}

/// A non-negative number's decimal text parses back to it.
pub proof fn lemma_parse_render(n: int)
    requires
        0 <= n <= i64::MAX,
    ensures
        parse_int(render_int(n)) == Some(n),
{
    lemma_digits_round_trip(n as nat);
    let d = digits_of(n as nat);
    assert(is_ascii_digit(d[0]));
}

} // verus!
