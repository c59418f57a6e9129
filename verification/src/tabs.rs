//! The editor's tabs: the label a tab shows, and the list of paths open in
//! tabs — which tabs a close, rename or delete touches, and in what order
//! the notebook pages are to be removed. The app mirrors each change on
//! its notebook.

use vstd::prelude::*;
use crate::terminal::utf8;
use crate::strmap::{compare_chars, seq_lt};
use crate::text::{
    ascii_lower_seq, ascii_lowercase_chars, chars_of, digits_of, digits_value, eq_chars, eq_str,
    extend_chars, lemma_digits_round_trip, render_u64, slice_vec, string_from, trim_end_len,
    trim_end_seq,
};

verus! {

/// The most characters a tab label shows before it is cut.
pub const MAX_TAB_CHARS: usize = 18;

/// The number of bytes `s` takes in UTF-8.
pub open spec fn utf8_len(s: Seq<char>) -> nat
    decreases s.len(),
{
    if s.len() == 0 {
        0
    } else {
        utf8_len(s.drop_last()) + utf8(s.last()).len()
    }
}

/// The last position of `c` in `s`.
pub open spec fn last_index_of(s: Seq<char>, c: char) -> Option<int>
    decreases s.len(),
{
    if s.len() == 0 {
        None
    } else if s.last() == c {
        Some(s.len() - 1)
    } else {
        last_index_of(s.drop_last(), c)
    }
}

/// A tab's label for file name `name`: names up to [`MAX_TAB_CHARS`]
/// characters stand as they are; a longer one is cut to that many, back to
/// its last space where that space lies at least half way in (counted in
/// bytes, as `str::rfind` counts), trailing white space dropped, and an
/// ellipsis added.
pub open spec fn spec_truncate_tab_name(name: Seq<char>) -> Seq<char> {
    if name.len() <= MAX_TAB_CHARS {
        name
    } else {
        let head = name.take(MAX_TAB_CHARS as int);
        let cut = match last_index_of(head, ' ') {
            Some(k) => if utf8_len(head.take(k)) >= MAX_TAB_CHARS / 2 {
                head.take(k)
            } else {
                head
            },
            None => head,
        };
        trim_end_seq(cut).push('\u{2026}')
    }
}

proof fn lemma_last_index_take(s: Seq<char>, c: char, i: int)
    requires
        0 <= i <= s.len(),
        forall|j: int| i <= j < s.len() ==> s[j] != c,
    ensures
        last_index_of(s, c) == last_index_of(s.take(i), c),
    decreases s.len() - i,
{
    if i < s.len() {
        assert(s.drop_last().take(i) =~= s.take(i));
        lemma_last_index_take(s.drop_last(), c, i);
    } else {
        assert(s.take(i) =~= s);
    }
}

fn utf8_width(c: char) -> (n: usize)
    ensures
        n == utf8(c).len(),
{
    let u = c as u32;
    if u < 0x80 {
        1
    } else if u < 0x800 {
        2
    } else if u < 0x10000 {
        3
    } else {
        4
    }
}

/// The label a tab shows for file name `name`.
pub fn truncate_tab_name(name: &str) -> (r: String)
    ensures
        r@ == spec_truncate_tab_name(name@),
{
    let cs = chars_of(name);
    if cs.len() <= MAX_TAB_CHARS {
        return string_from(cs.as_slice());
    }
    let head = slice_vec(cs.as_slice(), 0, MAX_TAB_CHARS);
    assert(head@ =~= name@.take(MAX_TAB_CHARS as int));
    let mut i: usize = MAX_TAB_CHARS;
    let mut space: Option<usize> = None;
    while i > 0
        invariant_except_break
            space is None,
        invariant
            i <= head@.len() == MAX_TAB_CHARS,
            forall|j: int| i <= j < head@.len() ==> head@[j] != ' ',
        ensures
            match space {
                Some(k) => k < head@.len() && last_index_of(head@, ' ') == Some(k as int),
                None => forall|j: int| 0 <= j < head@.len() ==> head@[j] != ' ',
            },
        decreases i,
    {
        if head[i - 1] == ' ' {
            proof {
                lemma_last_index_take(head@, ' ', i as int);
                assert(head@.take(i as int).last() == ' ');
            }
            space = Some(i - 1);
            break;
        }
        i -= 1;
    }
    proof {
        if space is None {
            lemma_last_index_take(head@, ' ', 0);
        }
    }
    let mut cut = MAX_TAB_CHARS;
    if let Some(k) = space {
        let mut bytes: usize = 0;
        let mut j: usize = 0;
        while j < k
            invariant
                k < head@.len() == MAX_TAB_CHARS,
                j <= k,
                bytes == utf8_len(head@.take(j as int)),
                bytes <= 4 * j,
            decreases k - j,
        {
            assert(head@.take(j + 1).drop_last() =~= head@.take(j as int));
            bytes = bytes + utf8_width(head[j]);
            j += 1;
        }
        if bytes >= MAX_TAB_CHARS / 2 {
            cut = k;
        }
    }
    let b = trim_end_len(head.as_slice(), cut);
    assert(head@.take(MAX_TAB_CHARS as int) =~= head@);
    let mut out = slice_vec(head.as_slice(), 0, b);
    assert(out@ =~= head@.take(b as int));
    out.push('\u{2026}');
    string_from(out.as_slice())
}

/// A file name whose extension is `txt` in any ASCII case
/// (`Path::extension`: the text after the last dot, where that dot does
/// not open the name).
pub open spec fn is_txt(name: Seq<char>) -> bool {
    match last_index_of(name, '.') {
        Some(k) => k > 0 && ascii_lower_seq(name.skip(k + 1)) == seq!['t', 'x', 't'],
        None => false,
    }
}

fn txt_name(name: &str) -> (r: bool)
    ensures
        r == is_txt(name@),
{
    let cs = chars_of(name);
    let mut i = cs.len();
    while i > 0
        invariant
            i <= cs@.len(),
            cs@ == name@,
            forall|j: int| i <= j < cs@.len() ==> cs@[j] != '.',
        decreases i,
    {
        if cs[i - 1] == '.' {
            proof {
                lemma_last_index_take(cs@, '.', i as int);
                assert(cs@.take(i as int).last() == '.');
            }
            if i - 1 == 0 {
                return false;
            }
            let ext = slice_vec(cs.as_slice(), i, cs.len());
            assert(ext@ =~= cs@.skip(i as int));
            let low = ascii_lowercase_chars(&ext);
            proof {
                reveal_strlit("txt");
                assert("txt"@ =~= seq!['t', 'x', 't']);
            }
            return eq_str(low.as_slice(), "txt");
        }
        i -= 1;
    }
    proof {
        lemma_last_index_take(cs@, '.', 0);
    }
    false
}

/// Of the names in a folder, the one to open on start: the first `.txt`
/// file in sorted order (by code point, as paths in one folder sort), the
/// earlier of two equal names; `None` when there is none.
pub fn first_text_file(names: &Vec<String>) -> (r: Option<usize>)
    ensures
        match r {
            Some(i) => i < names@.len() && is_txt(names@[i as int]@) && forall|j: int|
                0 <= j < names@.len() && is_txt(#[trigger] names@[j]@) ==> !seq_lt(
                    names@[j]@,
                    names@[i as int]@,
                ) && (names@[j]@ == names@[i as int]@ ==> i <= j),
            None => forall|j: int| 0 <= j < names@.len() ==> !is_txt(#[trigger] names@[j]@),
        },
{
    let mut best: Option<usize> = None;
    let mut i: usize = 0;
    while i < names.len()
        invariant
            i <= names@.len(),
            match best {
                Some(b) => b < i && is_txt(names@[b as int]@) && forall|j: int|
                    0 <= j < i && is_txt(#[trigger] names@[j]@) ==> !seq_lt(
                        names@[j]@,
                        names@[b as int]@,
                    ) && (names@[j]@ == names@[b as int]@ ==> b <= j),
                None => forall|j: int| 0 <= j < i ==> !is_txt(#[trigger] names@[j]@),
            },
        decreases names@.len() - i,
    {
        if txt_name(names[i].as_str()) {
            match best {
                None => {
                    proof {
                        crate::strmap::lemma_lt_irrefl(names@[i as int]@);
                    }
                    best = Some(i);
                },
                Some(b) => {
                    let x = chars_of(names[i].as_str());
                    let y = chars_of(names[b].as_str());
                    let (lt, _) = compare_chars(x.as_slice(), y.as_slice());
                    if lt {
                        proof {
                            assert forall|j: int|
                                0 <= j < i + 1 && is_txt(#[trigger] names@[j]@) implies !seq_lt(
                                names@[j]@,
                                names@[i as int]@,
                            ) && (names@[j]@ == names@[i as int]@ ==> i <= j) by {
                                if j < i {
                                    crate::strmap::lemma_lt_total(names@[j]@, names@[b as int]@);
                                    if seq_lt(names@[j]@, names@[i as int]@) {
                                        crate::strmap::lemma_lt_trans(
                                            names@[j]@,
                                            names@[i as int]@,
                                            names@[b as int]@,
                                        );
                                    }
                                    if names@[j]@ == names@[i as int]@ {
                                        crate::strmap::lemma_lt_irrefl(names@[j]@);
                                    }
                                } else {
                                    crate::strmap::lemma_lt_irrefl(names@[j]@);
                                }
                            }
                        }
                        best = Some(i);
                    } else {
                        proof {
                            assert(!seq_lt(names@[i as int]@, names@[b as int]@));
                        }
                    }
                },
            }
        }
        i += 1;
    }
    best
}

/// The `n`-th name tried for a new file or folder: `base` + `ext` first,
/// then `base 2` + `ext`, `base 3` + `ext`, and so on.
pub open spec fn candidate(base: Seq<char>, ext: Seq<char>, n: nat) -> Seq<char> {
    if n <= 1 {
        base + ext
    } else {
        base + seq![' '] + digits_of(n) + ext
    }
}

proof fn lemma_candidates_differ(base: Seq<char>, ext: Seq<char>, n: nat, m: nat)
    requires
        1 <= n < m,
    ensures
        candidate(base, ext, n) != candidate(base, ext, m),
{
    lemma_digits_round_trip(m);
    if n >= 2 {
        lemma_digits_round_trip(n);
        let a = candidate(base, ext, n);
        let b = candidate(base, ext, m);
        if a == b {
            let dn = digits_of(n);
            let dm = digits_of(m);
            assert(dn.len() == dm.len());
            let start: int = base.len() + 1int;
            assert(a.subrange(start, start + dn.len() as int) =~= dn);
            assert(b.subrange(start, start + dm.len() as int) =~= dm);
        }
    } else {
        assert(candidate(base, ext, n).len() < candidate(base, ext, m).len());
    }
}

proof fn lemma_taken_bound(base: Seq<char>, ext: Seq<char>, taken: Seq<Seq<char>>, n: nat)
    requires
        forall|m: nat| 1 <= m <= n ==> taken.contains(#[trigger] candidate(base, ext, m)),
    ensures
        n <= taken.len(),
{
    let cs = Seq::new(n, |i: int| candidate(base, ext, (i + 1) as nat));
    assert forall|i: int, j: int| 0 <= i < cs.len() && 0 <= j < cs.len() && i != j implies cs[i]
        != cs[j] by {
        if i < j {
            lemma_candidates_differ(base, ext, (i + 1) as nat, (j + 1) as nat);
        } else {
            lemma_candidates_differ(base, ext, (j + 1) as nat, (i + 1) as nat);
        }
    }
    assert(cs.no_duplicates());
    cs.unique_seq_to_set();
    taken.lemma_cardinality_of_set();
    assert forall|x: Seq<char>| cs.to_set().contains(x) implies taken.to_set().contains(x) by {
        let i = choose|i: int| 0 <= i < cs.len() && cs[i] == x;
        assert(taken.contains(candidate(base, ext, (i + 1) as nat)));
    }
    vstd::set_lib::lemma_len_subset(cs.to_set(), taken.to_set());
}

fn name_taken(name: &Vec<char>, taken: &Vec<String>) -> (r: bool)
    ensures
        r == taken@.map_values(|t: String| t@).contains(name@),
{
    let ghost ts = taken@.map_values(|t: String| t@);
    let mut i: usize = 0;
    while i < taken.len()
        invariant
            i <= taken@.len(),
            ts == taken@.map_values(|t: String| t@),
            forall|j: int| 0 <= j < i ==> ts[j] != name@,
        decreases taken@.len() - i,
    {
        let t = chars_of(taken[i].as_str());
        if eq_chars(t.as_slice(), name.as_slice()) {
            assert(ts[i as int] == name@);
            return true;
        }
        i += 1;
    }
    false
}

/// The name for a new file or folder among the entries `taken` of its
/// folder: the first of `base` + `ext`, `base 2` + `ext`, `base 3` + `ext`,
/// ... that no entry has ("New File" makes `Untitled.txt`, "New Folder"
/// makes `New Folder`).
pub fn fresh_name(base: &str, ext: &str, taken: &Vec<String>) -> (r: String)
    requires
        taken@.len() < usize::MAX,
    ensures
        exists|n: nat|
            1 <= n && r@ == candidate(base@, ext@, n) && forall|m: nat|
                1 <= m < n ==> taken@.map_values(|t: String| t@).contains(
                    #[trigger] candidate(base@, ext@, m),
                ),
        !taken@.map_values(|t: String| t@).contains(r@),
{
    let ghost ts = taken@.map_values(|t: String| t@);
    let b = chars_of(base);
    let e = chars_of(ext);
    let mut n: usize = 1;
    loop
        invariant
            1 <= n <= taken@.len() + 1,
            taken@.len() < usize::MAX,
            ts == taken@.map_values(|t: String| t@),
            b@ == base@,
            e@ == ext@,
            forall|m: nat| 1 <= m < n ==> ts.contains(#[trigger] candidate(base@, ext@, m)),
        decreases taken@.len() + 1 - n,
    {
        let mut name: Vec<char> = Vec::new();
        extend_chars(&mut name, b.as_slice());
        if n > 1 {
            name.push(' ');
            let digits = render_u64(n as u64);
            extend_chars(&mut name, digits.as_slice());
        }
        extend_chars(&mut name, e.as_slice());
        assert(name@ =~= candidate(base@, ext@, n as nat));
        if !name_taken(&name, taken) {
            let r = string_from(name.as_slice());
            assert(r@ == candidate(base@, ext@, n as nat));
            return r;
        }
        proof {
            lemma_taken_bound(base@, ext@, ts, n as nat);
        }
        n += 1;
    }
}

/// A path as its components, as `Path::components` yields them; the root
/// of an absolute path is the component `/`.
pub open spec fn path_view(p: Vec<String>) -> Seq<Seq<char>> {
    p@.map_values(|c: String| c@)
}

/// `p` is `base` or lies inside it, component by component
/// (`Path::starts_with`).
pub open spec fn is_under(p: Seq<Seq<char>>, base: Seq<Seq<char>>) -> bool {
    base.len() <= p.len() && p.take(base.len() as int) == base
}

/// `base` joined with `rel` (`Path::join`): an absolute `rel` replaces
/// `base`.
pub open spec fn join_path(base: Seq<Seq<char>>, rel: Seq<Seq<char>>) -> Seq<Seq<char>> {
    if rel.len() > 0 && rel[0] == seq!['/'] {
        rel
    } else {
        base + rel
    }
}

/// Where a tab on path `p` points once `old` is renamed to `new`: `new`
/// itself, or `new` joined with what `p` has below `old`; `None` for a
/// path the rename does not touch.
pub open spec fn renamed(p: Seq<Seq<char>>, old: Seq<Seq<char>>, new: Seq<Seq<char>>) -> Option<
    Seq<Seq<char>>,
> {
    if p == old {
        Some(new)
    } else if is_under(p, old) {
        Some(join_path(new, p.skip(old.len() as int)))
    } else {
        None
    }
}

/// `p` after renaming `old` to `new`.
pub open spec fn rename_one(p: Seq<Seq<char>>, old: Seq<Seq<char>>, new: Seq<Seq<char>>) -> Seq<
    Seq<char>,
> {
    match renamed(p, old, new) {
        Some(q) => q,
        None => p,
    }
}

/// The positions among the first `n` tabs that a rename of `old` touches,
/// in ascending order.
pub open spec fn touched_upto(
    v: Seq<Seq<Seq<char>>>,
    old: Seq<Seq<char>>,
    new: Seq<Seq<char>>,
    n: int,
) -> Seq<usize>
    decreases n,
{
    if n <= 0 {
        Seq::empty()
    } else {
        let rest = touched_upto(v, old, new, n - 1);
        if renamed(v[n - 1], old, new) is Some {
            rest.push((n - 1) as usize)
        } else {
            rest
        }
    }
}

/// The items of `v` whose flag in `drop` is not set, in order.
pub open spec fn kept<T>(v: Seq<T>, drop: Seq<bool>) -> Seq<T>
    decreases v.len(),
{
    if v.len() == 0 {
        Seq::empty()
    } else {
        let rest = kept(v.drop_first(), drop.drop_first());
        if drop[0] {
            rest
        } else {
            seq![v[0]] + rest
        }
    }
}

/// The positions from `i` on whose flag in `drop` is set, highest first:
/// the order in which pages are removed so that lower positions stay put.
pub open spec fn dropped_from(drop: Seq<bool>, i: int) -> Seq<usize>
    decreases drop.len() - i,
{
    if i < 0 || i >= drop.len() {
        Seq::empty()
    } else {
        let rest = dropped_from(drop, i + 1);
        if drop[i] {
            rest.push(i as usize)
        } else {
            rest
        }
    }
}

proof fn lemma_kept_from<T>(v: Seq<T>, drop: Seq<bool>)
    requires
        drop.len() == v.len(),
    ensures
        forall|j: int|
            #![trigger kept(v, drop)[j]]
            0 <= j < kept(v, drop).len() ==> exists|i: int|
                0 <= i < v.len() && !drop[i] && #[trigger] v[i] == kept(v, drop)[j],
    decreases v.len(),
{
    if v.len() > 0 {
        let rest = kept(v.drop_first(), drop.drop_first());
        lemma_kept_from(v.drop_first(), drop.drop_first());
        assert forall|j: int| #![trigger kept(v, drop)[j]] 0 <= j < kept(v, drop).len() implies exists|i: int|
            0 <= i < v.len() && !drop[i] && #[trigger] v[i] == kept(v, drop)[j] by {
            if !drop[0] && j == 0 {
                assert(v[0] == kept(v, drop)[0]);
            } else {
                let jj = if drop[0] { j } else { j - 1 };
                assert(kept(v, drop)[j] == rest[jj]);
                let i = choose|i: int|
                    0 <= i < v.len() - 1 && !drop.drop_first()[i] && #[trigger] v.drop_first()[i]
                        == rest[jj];
                assert(v[i + 1] == kept(v, drop)[j]);
            }
        }
    }
}

/// Component-wise equality of two paths.
fn same_path(a: &Vec<String>, b: &Vec<String>) -> (r: bool)
    ensures
        r == (path_view(*a) == path_view(*b)),
{
    if a.len() != b.len() {
        assert(path_view(*a).len() != path_view(*b).len());
        return false;
    }
    let mut i: usize = 0;
    while i < a.len()
        invariant
            i <= a@.len() == b@.len(),
            forall|j: int| 0 <= j < i ==> a@[j]@ == b@[j]@,
        decreases a@.len() - i,
    {
        let x = chars_of(a[i].as_str());
        let y = chars_of(b[i].as_str());
        if !eq_chars(x.as_slice(), y.as_slice()) {
            assert(path_view(*a)[i as int] != path_view(*b)[i as int]);
            return false;
        }
        i += 1;
    }
    assert(path_view(*a) =~= path_view(*b));
    true
}

/// Whether `p` is `base` or lies inside it.
fn path_under(p: &Vec<String>, base: &Vec<String>) -> (r: bool)
    ensures
        r == is_under(path_view(*p), path_view(*base)),
{
    if base.len() > p.len() {
        return false;
    }
    let ghost pv = path_view(*p);
    let ghost bv = path_view(*base);
    let mut i: usize = 0;
    while i < base.len()
        invariant
            i <= base@.len() <= p@.len(),
            pv == path_view(*p),
            bv == path_view(*base),
            forall|j: int| 0 <= j < i ==> pv[j] == bv[j],
        decreases base@.len() - i,
    {
        let x = chars_of(p[i].as_str());
        let y = chars_of(base[i].as_str());
        if !eq_chars(x.as_slice(), y.as_slice()) {
            assert(pv.take(bv.len() as int)[i as int] != bv[i as int]);
            return false;
        }
        i += 1;
    }
    assert(pv.take(bv.len() as int) =~= bv);
    true
}

/// The components `p[from..]` appended to `out`.
fn append_components(out: &mut Vec<String>, p: &Vec<String>, from: usize)
    requires
        from <= p.len(),
    ensures
        path_view(*final(out)) == path_view(*old(out)) + path_view(*p).skip(from as int),
{
    let ghost start = path_view(*out);
    let mut i = from;
    while i < p.len()
        invariant
            from <= i <= p@.len(),
            path_view(*out) == start + path_view(*p).subrange(from as int, i as int),
        decreases p@.len() - i,
    {
        let c = string_from(chars_of(p[i].as_str()).as_slice());
        let ghost before = path_view(*out);
        out.push(c);
        assert(c@ == path_view(*p)[i as int]);
        assert(path_view(*out) =~= before.push(c@));
        assert(path_view(*p).subrange(from as int, i + 1) =~= path_view(*p).subrange(
            from as int,
            i as int,
        ).push(c@));
        assert(path_view(*out) =~= start + path_view(*p).subrange(from as int, i + 1));
        i += 1;
    }
    assert(path_view(*p).subrange(from as int, p@.len() as int) =~= path_view(*p).skip(from as int));
}

/// A copy of path `p`.
fn copy_path(p: &Vec<String>) -> (r: Vec<String>)
    ensures
        path_view(r) == path_view(*p),
{
    let mut r: Vec<String> = Vec::new();
    append_components(&mut r, p, 0);
    assert(path_view(r) =~= path_view(*p));
    r
}

/// The path a tab on `p` takes when `old` is renamed to `new`, if the
/// rename touches it.
fn renamed_path(p: &Vec<String>, old: &Vec<String>, new: &Vec<String>) -> (r: Option<Vec<String>>)
    ensures
        match r {
            Some(q) => renamed(path_view(*p), path_view(*old), path_view(*new)) == Some(
                path_view(q),
            ),
            None => renamed(path_view(*p), path_view(*old), path_view(*new)) is None,
        },
{
    if same_path(p, old) {
        return Some(copy_path(new));
    }
    if !path_under(p, old) {
        return None;
    }
    let k = old.len();
    let ghost rel = path_view(*p).skip(k as int);
    proof {
        reveal_strlit("/");
        assert("/"@ =~= seq!['/']);
    }
    let rooted = k < p.len() && eq_str(chars_of(p[k].as_str()).as_slice(), "/");
    assert(rooted == (rel.len() > 0 && rel[0] == seq!['/'])) by {
        if k < p.len() {
            assert(rel[0] == p@[k as int]@);
        }
    }
    if rooted {
        let mut q: Vec<String> = Vec::new();
        append_components(&mut q, p, k);
        assert(path_view(q) =~= rel);
        return Some(q);
    }
    let mut q = copy_path(new);
    append_components(&mut q, p, k);
    Some(q)
}

/// A component that names something: not the root, `.` or `..`.
pub open spec fn is_normal(c: Seq<char>) -> bool {
    c != seq!['/'] && c != seq!['.'] && c != seq!['.', '.']
}

/// `Path::file_name`: the last component, when it names something.
pub open spec fn file_name(p: Seq<Seq<char>>) -> Option<Seq<char>> {
    if p.len() > 0 && is_normal(p.last()) {
        Some(p.last())
    } else {
        None
    }
}

/// `s` without a trailing `.txt`.
pub open spec fn strip_txt(s: Seq<char>) -> Seq<char> {
    if s.len() >= 4 && s.skip(s.len() - 4) == seq!['.', 't', 'x', 't'] {
        s.take(s.len() - 4)
    } else {
        s
    }
}

/// The navigation bar's segments: the workspace folder's name, then the
/// current file's path below it — or just its name when it lies outside
/// the workspace — with the implied `.txt` hidden.
pub open spec fn spec_nav_segments(root: Option<Seq<Seq<char>>>, file: Option<Seq<Seq<char>>>) -> Seq<
    Seq<char>,
> {
    let head = match root {
        Some(r) => match file_name(r) {
            Some(n) => seq![n],
            None => Seq::empty(),
        },
        None => Seq::empty(),
    };
    match file {
        None => head,
        Some(f) => {
            let inside = match root {
                Some(r) => is_under(f, r),
                None => false,
            };
            let rel = if inside {
                f.skip(root.unwrap().len() as int)
            } else {
                match file_name(f) {
                    Some(n) => seq![n],
                    None => f,
                }
            };
            let segs = if rel.len() > 0 {
                rel.update(rel.len() - 1, strip_txt(rel.last()))
            } else {
                rel
            };
            head + segs
        },
    }
}

fn is_normal_component(c: &String) -> (r: bool)
    ensures
        r == is_normal(c@),
{
    let cs = chars_of(c.as_str());
    proof {
        reveal_strlit("/");
        reveal_strlit(".");
        reveal_strlit("..");
        assert("/"@ =~= seq!['/']);
        assert("."@ =~= seq!['.']);
        assert(".."@ =~= seq!['.', '.']);
    }
    !eq_str(cs.as_slice(), "/") && !eq_str(cs.as_slice(), ".") && !eq_str(cs.as_slice(), "..")
}

fn last_name(p: &Vec<String>) -> (r: Option<String>)
    ensures
        match r {
            Some(n) => file_name(path_view(*p)) == Some(n@),
            None => file_name(path_view(*p)) is None,
        },
{
    if p.len() > 0 && is_normal_component(&p[p.len() - 1]) {
        assert(path_view(*p).last() == p@[p@.len() - 1]@);
        Some(string_from(chars_of(p[p.len() - 1].as_str()).as_slice()))
    } else {
        proof {
            if p@.len() > 0 {
                assert(path_view(*p).last() == p@[p@.len() - 1]@);
            }
        }
        None
    }
}

fn strip_txt_exec(s: &String) -> (r: String)
    ensures
        r@ == strip_txt(s@),
{
    let cs = chars_of(s.as_str());
    let n = cs.len();
    if n >= 4 {
        let tail = slice_vec(cs.as_slice(), n - 4, n);
        assert(tail@ =~= s@.skip(n - 4));
        proof {
            reveal_strlit(".txt");
            assert(".txt"@ =~= seq!['.', 't', 'x', 't']);
        }
        if eq_str(tail.as_slice(), ".txt") {
            let head = slice_vec(cs.as_slice(), 0, n - 4);
            assert(head@ =~= s@.take(n - 4));
            return string_from(head.as_slice());
        }
    }
    string_from(cs.as_slice())
}

/// The navigation bar's segments for the workspace folder `root` and the
/// current tab's file, each given as its components.
pub fn nav_segments(root: Option<&Vec<String>>, file: Option<&Vec<String>>) -> (segs: Vec<String>)
    ensures
        segs@.map_values(|c: String| c@) == spec_nav_segments(
            match root {
                Some(r) => Some(path_view(*r)),
                None => None,
            },
            match file {
                Some(f) => Some(path_view(*f)),
                None => None,
            },
        ),
{
    let mut out: Vec<String> = Vec::new();
    if let Some(r) = root {
        if let Some(n) = last_name(r) {
            out.push(n);
        }
    }
    let ghost head = out@.map_values(|c: String| c@);
    assert(head =~= match root {
        Some(r) => match file_name(path_view(*r)) {
            Some(n) => seq![n],
            None => Seq::<Seq<char>>::empty(),
        },
        None => Seq::<Seq<char>>::empty(),
    });
    let f = match file {
        Some(f) => f,
        None => return out,
    };
    let inside = match root {
        Some(r) => path_under(f, r),
        None => false,
    };
    let mut rel: Vec<String> = Vec::new();
    if inside {
        let r = root.unwrap();
        append_components(&mut rel, f, r.len());
        assert(path_view(rel) =~= path_view(*f).skip(path_view(*r).len() as int));
    } else {
        match last_name(f) {
            Some(n) => {
                rel.push(n);
                assert(path_view(rel) =~= seq![file_name(path_view(*f)).unwrap()]);
            },
            None => {
                append_components(&mut rel, f, 0);
                assert(path_view(rel) =~= path_view(*f));
            },
        }
    }
    let ghost rv = path_view(rel);
    let k = rel.len();
    if k > 0 {
        let last = strip_txt_exec(&rel[k - 1]);
        rel.set(k - 1, last);
        assert(path_view(rel) =~= rv.update(rv.len() - 1, strip_txt(rv.last())));
    }
    let ghost sv = path_view(rel);
    let mut i: usize = 0;
    while i < rel.len()
        invariant
            i <= rel@.len(),
            sv == path_view(rel),
            out@.map_values(|c: String| c@) == head + sv.take(i as int),
        decreases rel@.len() - i,
    {
        let c = string_from(chars_of(rel[i].as_str()).as_slice());
        let ghost before = out@.map_values(|c: String| c@);
        out.push(c);
        assert(out@.map_values(|c: String| c@) =~= before.push(c@));
        assert(sv.take(i + 1) =~= sv.take(i as int).push(sv[i as int]));
        i += 1;
    }
    assert(sv.take(sv.len() as int) =~= sv);
    out
}

/// Whether any tab is unmodified, given each tab's modified flag.
pub fn any_unmodified_tabs(modified: &[bool]) -> (r: bool)
    ensures
        r == exists|i: int| 0 <= i < modified@.len() && !modified@[i],
{
    let mut i: usize = 0;
    while i < modified.len()
        invariant
            i <= modified@.len(),
            forall|j: int| 0 <= j < i ==> modified@[j],
        decreases modified@.len() - i,
    {
        if !modified[i] {
            return true;
        }
        i += 1;
    }
    false
}

/// The paths open in tabs, one per notebook page, in page order.
pub struct OpenTabs {
    paths: Vec<Vec<String>>,
}

impl OpenTabs {
    /// Each tab's path, in page order.
    pub closed spec fn view(&self) -> Seq<Seq<Seq<char>>> {
        self.paths@.map_values(|p: Vec<String>| path_view(p))
    }

    /// No tabs.
    pub fn new() -> (t: Self)
        ensures
            t.view() == Seq::<Seq<Seq<char>>>::empty(),
    {
        let t = OpenTabs { paths: Vec::new() };
        assert(t.view() =~= Seq::<Seq<Seq<char>>>::empty());
        t
    }

    /// The number of tabs.
    pub fn len(&self) -> (n: usize)
        ensures
            n == self.view().len(),
    {
        self.paths.len()
    }

    /// The path of tab `index`.
    pub fn path(&self, index: usize) -> (p: Vec<String>)
        requires
            index < self.view().len(),
        ensures
            path_view(p) == self.view()[index as int],
    {
        copy_path(&self.paths[index])
    }

    /// The first tab open on `path`, if any — opening a path that is
    /// already open switches to its tab.
    pub fn position(&self, path: &Vec<String>) -> (r: Option<usize>)
        ensures
            match r {
                Some(i) => i < self.view().len() && self.view()[i as int] == path_view(*path)
                    && forall|j: int| 0 <= j < i ==> self.view()[j] != path_view(*path),
                None => forall|j: int|
                    0 <= j < self.view().len() ==> self.view()[j] != path_view(*path),
            },
    {
        let mut i: usize = 0;
        while i < self.paths.len()
            invariant
                i <= self.paths@.len(),
                forall|j: int| 0 <= j < i ==> self.view()[j] != path_view(*path),
            decreases self.paths@.len() - i,
        {
            if same_path(&self.paths[i], path) {
                return Some(i);
            }
            i += 1;
        }
        None
    }

    /// Open a tab on `path` after the others; returns its position.
    pub fn push(&mut self, path: Vec<String>) -> (index: usize)
        ensures
            final(self).view() == old(self).view().push(path_view(path)),
            index == old(self).view().len(),
    {
        let index = self.paths.len();
        self.paths.push(path);
        assert(self.view() =~= old(self).view().push(path_view(path)));
        index
    }

    /// Close tab `index`.
    pub fn remove(&mut self, index: usize)
        requires
            index < old(self).view().len(),
        ensures
            final(self).view() == old(self).view().remove(index as int),
    {
        self.paths.remove(index);
        assert(self.view() =~= old(self).view().remove(index as int));
    }

    /// Point tab `index` at `path` (after Save As); a position past the
    /// last tab changes nothing.
    pub fn set_path(&mut self, index: usize, path: Vec<String>)
        ensures
            final(self).view() == if index < old(self).view().len() {
                old(self).view().update(index as int, path_view(path))
            } else {
                old(self).view()
            },
    {
        if index < self.paths.len() {
            self.paths.set(index, path);
            assert(self.view() =~= old(self).view().update(index as int, path_view(path)));
        }
    }

    /// Close the tabs whose flag in `drop` is set, highest position first;
    /// returns the positions closed, in that order.
    fn close_where(&mut self, drop: &Vec<bool>) -> (closed: Vec<usize>)
        requires
            drop@.len() == old(self).view().len(),
        ensures
            final(self).view() == kept(old(self).view(), drop@),
            closed@ == dropped_from(drop@, 0),
    {
        let ghost v = self.view();
        let mut closed: Vec<usize> = Vec::new();
        let mut i = self.paths.len();
        assert(v.take(i as int) =~= v);
        assert(v.skip(i as int) =~= Seq::<Seq<Seq<char>>>::empty());
        while i > 0
            invariant
                i <= drop@.len() == v.len(),
                self.view() == v.take(i as int) + kept(v.skip(i as int), drop@.skip(i as int)),
                closed@ == dropped_from(drop@, i as int),
            decreases i,
        {
            i -= 1;
            let ghost before = self.view();
            let ghost rest = kept(v.skip(i + 1), drop@.skip(i + 1));
            assert(v.skip(i as int).drop_first() =~= v.skip(i + 1));
            assert(drop@.skip(i as int).drop_first() =~= drop@.skip(i + 1));
            assert(v.skip(i as int)[0] == v[i as int]);
            if drop[i] {
                assert(self.paths@.len() == before.len());
                self.paths.remove(i);
                closed.push(i);
                assert(self.view() =~= before.remove(i as int));
                assert(self.view() =~= v.take(i as int) + rest);
            } else {
                assert(before =~= v.take(i as int) + (seq![v[i as int]] + rest));
            }
        }
        assert(v.skip(0) =~= v);
        assert(drop@.skip(0) =~= drop@);
        assert(v.take(0) + kept(v, drop@) =~= kept(v, drop@));
        closed
    }

    /// Close every tab on `base` or inside it (after `base` was deleted);
    /// returns the positions closed, highest first.
    pub fn close_paths_under(&mut self, base: &Vec<String>) -> (closed: Vec<usize>)
        ensures
            ({
                let drop = old(self).view().map_values(|p: Seq<Seq<char>>| is_under(p, path_view(*base)));
                &&& final(self).view() == kept(old(self).view(), drop)
                &&& closed@ == dropped_from(drop, 0)
            }),
            forall|j: int|
                0 <= j < final(self).view().len() ==> !is_under(
                    #[trigger] final(self).view()[j],
                    path_view(*base),
                ),
    {
        let ghost v = self.view();
        let ghost want = v.map_values(|p: Seq<Seq<char>>| is_under(p, path_view(*base)));
        let mut drop: Vec<bool> = Vec::new();
        let mut i: usize = 0;
        while i < self.paths.len()
            invariant
                i <= self.paths@.len() == v.len(),
                v == self.view(),
                want == v.map_values(|p: Seq<Seq<char>>| is_under(p, path_view(*base))),
                drop@ == want.take(i as int),
            decreases self.paths@.len() - i,
        {
            let u = path_under(&self.paths[i], base);
            assert(v[i as int] == path_view(self.paths@[i as int]));
            drop.push(u);
            assert(drop@ =~= want.take(i + 1));
            i += 1;
        }
        assert(drop@ =~= want);
        let closed = self.close_where(&drop);
        proof {
            lemma_kept_from(v, want);
            assert forall|j: int| 0 <= j < self.view().len() implies !is_under(
                #[trigger] self.view()[j],
                path_view(*base),
            ) by {
                let k = choose|k: int| 0 <= k < v.len() && !want[k] && #[trigger] v[k] == kept(v, want)[j];
            }
        }
        closed
    }

    /// Close every tab but tab `keep`; returns the positions closed,
    /// highest first.
    pub fn close_other_tabs(&mut self, keep: usize) -> (closed: Vec<usize>)
        ensures
            ({
                let drop = Seq::new(old(self).view().len(), |i: int| i != keep);
                &&& final(self).view() == kept(old(self).view(), drop)
                &&& closed@ == dropped_from(drop, 0)
            }),
    {
        let ghost want = Seq::new(self.view().len(), |i: int| i != keep);
        let mut drop: Vec<bool> = Vec::new();
        let mut i: usize = 0;
        while i < self.paths.len()
            invariant
                i <= self.paths@.len() == old(self).view().len(),
                self.view() == old(self).view(),
                want == Seq::new(old(self).view().len(), |i: int| i != keep),
                drop@ == want.take(i as int),
            decreases self.paths@.len() - i,
        {
            drop.push(i != keep);
            assert(want[i as int] == (i != keep));
            assert(drop@ =~= want.take(i + 1));
            i += 1;
        }
        assert(drop@ =~= want);
        self.close_where(&drop)
    }

    /// Close every tab left of tab `index`; returns the positions closed,
    /// highest first.
    pub fn close_tabs_to_left(&mut self, index: usize) -> (closed: Vec<usize>)
        ensures
            ({
                let drop = Seq::new(old(self).view().len(), |i: int| i < index);
                &&& final(self).view() == kept(old(self).view(), drop)
                &&& closed@ == dropped_from(drop, 0)
            }),
    {
        let ghost want = Seq::new(self.view().len(), |i: int| i < index);
        let mut drop: Vec<bool> = Vec::new();
        let mut i: usize = 0;
        while i < self.paths.len()
            invariant
                i <= self.paths@.len() == old(self).view().len(),
                self.view() == old(self).view(),
                want == Seq::new(old(self).view().len(), |i: int| i < index),
                drop@ == want.take(i as int),
            decreases self.paths@.len() - i,
        {
            drop.push(i < index);
            assert(want[i as int] == (i < index));
            assert(drop@ =~= want.take(i + 1));
            i += 1;
        }
        assert(drop@ =~= want);
        self.close_where(&drop)
    }

    /// Close every tab whose editor is unmodified, given each tab's
    /// modified flag; returns the positions closed, highest first.
    pub fn close_unmodified_tabs(&mut self, modified: &Vec<bool>) -> (closed: Vec<usize>)
        requires
            modified@.len() == old(self).view().len(),
        ensures
            ({
                let drop = modified@.map_values(|m: bool| !m);
                &&& final(self).view() == kept(old(self).view(), drop)
                &&& closed@ == dropped_from(drop, 0)
            }),
    {
        let ghost want = modified@.map_values(|m: bool| !m);
        let mut drop: Vec<bool> = Vec::new();
        let mut i: usize = 0;
        while i < modified.len()
            invariant
                i <= modified@.len(),
                want == modified@.map_values(|m: bool| !m),
                drop@ == want.take(i as int),
            decreases modified@.len() - i,
        {
            drop.push(!modified[i]);
            assert(drop@ =~= want.take(i + 1));
            i += 1;
        }
        assert(drop@ =~= want);
        self.close_where(&drop)
    }

    /// Rename `old_path` to `new_path` in every tab it touches (a file, or a folder
    /// and what is inside it); returns the positions touched, ascending.
    pub fn rename_path(&mut self, old_path: &Vec<String>, new_path: &Vec<String>) -> (touched: Vec<usize>)
        ensures
            final(self).view() == old(self).view().map_values(
                |p: Seq<Seq<char>>| rename_one(p, path_view(*old_path), path_view(*new_path)),
            ),
            touched@ == touched_upto(
                old(self).view(),
                path_view(*old_path),
                path_view(*new_path),
                old(self).view().len() as int,
            ),
    {
        let ghost v = self.view();
        let ghost o = path_view(*old_path);
        let ghost n = path_view(*new_path);
        let mut touched: Vec<usize> = Vec::new();
        let mut i: usize = 0;
        while i < self.paths.len()
            invariant
                i <= self.paths@.len() == v.len(),
                o == path_view(*old_path),
                n == path_view(*new_path),
                forall|j: int|
                    0 <= j < v.len() ==> #[trigger] self.view()[j] == if j < i {
                        rename_one(v[j], o, n)
                    } else {
                        v[j]
                    },
                touched@ == touched_upto(v, o, n, i as int),
            decreases self.paths@.len() - i,
        {
            assert(self.view()[i as int] == path_view(self.paths@[i as int]));
            match renamed_path(&self.paths[i], old_path, new_path) {
                Some(q) => {
                    let ghost before = self.view();
                    self.paths.set(i, q);
                    assert(self.view() =~= before.update(i as int, path_view(q)));
                    touched.push(i);
                },
                None => {},
            }
            i += 1;
        }
        assert(self.view() =~= v.map_values(|p: Seq<Seq<char>>| rename_one(p, o, n)));
        touched
    }
}

} // verus!
