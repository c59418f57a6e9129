//! Rebindable keyboard shortcuts for the app's actions: every bindable
//! action with its default accelerator, the per-user overrides (kept by the
//! app in a `key.<action>=<accel>` file), and how an accelerator reads on
//! screen. Stored accelerators use the `<Primary>` placeholder for the
//! platform's main modifier.

use vstd::prelude::*;
use crate::setting::{lemma_split_named, lemma_text_pairs, line_safe, pairs_map, split_kv, text_pairs};
use crate::strmap::StrMap;
use crate::text::{
    chars_of, eq_chars, eq_str, extend_chars, extend_str, find_from, lines_of, char_views, spec_lines,
    string_from, trim_range, lemma_lines_append, lemma_lines_single,
};

verus! {

/// Which platform's modifier names apply.
#[derive(Clone, Copy, PartialEq, Eq, Debug, Structural)]
pub enum Platform {
    MacOs,
    Other,
}

/// Stored value meaning "this action has no shortcut" (distinct from "use
/// the default", which is the absence of an override).
pub const UNBOUND: &'static str = "none";

/// One keyboard-bindable action.
pub struct ActionSpec {
    /// Action name, without the `app.` prefix.
    pub action: &'static str,
    /// Human label for the Keymap page.
    pub label: &'static str,
    /// Sub-group heading on the Keymap page.
    pub group: &'static str,
    /// Default accelerator, stored form.
    pub default_accel: &'static str,
}

/// Every rebindable action with its default accelerator, in Keymap-page
/// order.
pub open spec fn spec_actions() -> Seq<(Seq<char>, Seq<char>)> {
    seq![
        ("new"@, "<Primary>n"@),
        ("new-folder"@, "<Primary><Shift>n"@),
        ("open"@, "<Primary>o"@),
        ("save"@, "<Primary><Alt>s"@),
        ("save-as"@, "<Primary><Shift>s"@),
        ("save-all"@, "<Primary>s"@),
        ("reload-all"@, "<Primary><Alt>y"@),
        ("close-tab"@, "<Primary>w"@),
        ("preferences"@, "<Primary>comma"@),
        ("git-commit"@, "<Primary>k"@),
        ("git-push"@, "<Primary><Shift>k"@),
        ("git-pull"@, "<Primary>t"@),
        ("git-log"@, "<Alt>9"@),
    ]
}

/// Every rebindable action, in Keymap-page order.
pub fn actions() -> (r: Vec<ActionSpec>)
    ensures
        r@.map_values(|a: ActionSpec| (a.action@, a.default_accel@)) == spec_actions(),
{
    let mut r: Vec<ActionSpec> = Vec::new();
    r.push(ActionSpec { action: "new", label: "New File", group: "File", default_accel: "<Primary>n" });
    r.push(ActionSpec { action: "new-folder", label: "New Folder", group: "File", default_accel: "<Primary><Shift>n" });
    r.push(ActionSpec { action: "open", label: "Open Project\u{2026}", group: "File", default_accel: "<Primary>o" });
    r.push(ActionSpec { action: "save", label: "Save", group: "File", default_accel: "<Primary><Alt>s" });
    r.push(ActionSpec { action: "save-as", label: "Save As\u{2026}", group: "File", default_accel: "<Primary><Shift>s" });
    r.push(ActionSpec { action: "save-all", label: "Save All", group: "File", default_accel: "<Primary>s" });
    r.push(ActionSpec { action: "reload-all", label: "Reload All from Disk", group: "File", default_accel: "<Primary><Alt>y" });
    r.push(ActionSpec { action: "close-tab", label: "Close Tab", group: "File", default_accel: "<Primary>w" });
    r.push(ActionSpec { action: "preferences", label: "Preferences\u{2026}", group: "File", default_accel: "<Primary>comma" });
    r.push(ActionSpec { action: "git-commit", label: "Commit\u{2026}", group: "Version Control", default_accel: "<Primary>k" });
    r.push(ActionSpec { action: "git-push", label: "Push\u{2026}", group: "Version Control", default_accel: "<Primary><Shift>k" });
    r.push(ActionSpec { action: "git-pull", label: "Update Project", group: "Version Control", default_accel: "<Primary>t" });
    r.push(ActionSpec { action: "git-log", label: "Git Log", group: "Version Control", default_accel: "<Alt>9" });
    assert(r@.map_values(|a: ActionSpec| (a.action@, a.default_accel@)) =~= spec_actions());
    r
}

/// The first entry of `list` for action `a`.
pub open spec fn find_entry(list: Seq<(Seq<char>, Seq<char>)>, a: Seq<char>) -> Option<Seq<char>>
    decreases list.len(),
{
    if list.len() == 0 {
        None
    } else if list[0].0 == a {
        Some(list[0].1)
    } else {
        find_entry(list.drop_first(), a)
    }
}

/// The default accelerator of action `a`, if it is a known action.
pub open spec fn spec_default_accel(a: Seq<char>) -> Option<Seq<char>> {
    find_entry(spec_actions(), a)
}

fn find_action(list: &Vec<ActionSpec>, action: &[char]) -> (r: Option<usize>)
    ensures
        match r {
            Some(i) => i < list.len() && list@[i as int].action@ == action@ && find_entry(
                list@.map_values(|a: ActionSpec| (a.action@, a.default_accel@)),
                action@,
            ) == Some(list@[i as int].default_accel@),
            None => find_entry(list@.map_values(|a: ActionSpec| (a.action@, a.default_accel@)), action@) is None,
        },
{
    let ghost all = list@.map_values(|a: ActionSpec| (a.action@, a.default_accel@));
    let mut i: usize = 0;
    assert(all.skip(0) =~= all);
    while i < list.len()
        invariant
            i <= list.len(),
            all == list@.map_values(|a: ActionSpec| (a.action@, a.default_accel@)),
            find_entry(all, action@) == find_entry(all.skip(i as int), action@),
        decreases list.len() - i,
    {
        let name = chars_of(list[i].action);
        proof {
            assert(all.skip(i as int)[0] == all[i as int]);
            assert(all.skip(i as int).drop_first() =~= all.skip(i + 1));
        }
        if eq_chars(name.as_slice(), action) {
            return Some(i);
        }
        i += 1;
    }
    None
}

/// The default accelerator (stored form) of `action`, if it is a known
/// action.
pub fn default_accel(action: &str) -> (r: Option<&'static str>)
    ensures
        match r {
            Some(d) => spec_default_accel(action@) == Some(d@),
            None => spec_default_accel(action@) is None,
        },
{
    let list = actions();
    let cs = chars_of(action);
    match find_action(&list, cs.as_slice()) {
        Some(i) => Some(list[i].default_accel),
        None => None,
    }
}

/// `s` with every non-overlapping occurrence of `pat` (scanning left to
/// right) replaced by `rep`.
pub open spec fn replace_all(s: Seq<char>, pat: Seq<char>, rep: Seq<char>) -> Seq<char>
    decreases s.len(),
{
    if s.len() == 0 || pat.len() == 0 {
        s
    } else if pat.len() <= s.len() && s.take(pat.len() as int) == pat {
        rep + replace_all(s.skip(pat.len() as int), pat, rep)
    } else {
        seq![s[0]] + replace_all(s.drop_first(), pat, rep)
    }
}

/// The platform's main modifier, as an accelerator token.
pub open spec fn spec_primary_mod(p: Platform) -> Seq<char> {
    match p {
        Platform::MacOs => "<Meta>"@,
        Platform::Other => "<Control>"@,
    }
}

pub fn primary_mod(p: Platform) -> (r: &'static str)
    ensures
        r@ == spec_primary_mod(p),
{
    match p {
        Platform::MacOs => "<Meta>",
        Platform::Other => "<Control>",
    }
}

fn starts_with_at(s: &[char], at: usize, pat: &[char]) -> (r: bool)
    requires
        at <= s@.len(),
    ensures
        r == (pat@.len() <= s@.len() - at && s@.skip(at as int).take(pat@.len() as int) == pat@),
{
    let n = s.len();
    if pat.len() > n - at {
        return false;
    }
    let mut k: usize = 0;
    while k < pat.len()
        invariant
            k <= pat.len(),
            n == s@.len(),
            at <= s@.len(),
            pat@.len() <= s@.len() - at,
            forall|j: int| 0 <= j < k ==> s@[at + j] == pat@[j],
        decreases pat.len() - k,
    {
        if s[at + k] != pat[k] {
            assert(s@.skip(at as int).take(pat@.len() as int)[k as int] != pat@[k as int]);
            return false;
        }
        k += 1;
    }
    assert(s@.skip(at as int).take(pat@.len() as int) =~= pat@);
    true
}

/// `s` with every `pat` replaced by `rep`.
pub fn replace(s: &str, pat: &str, rep: &str) -> (r: String)
    ensures
        r@ == replace_all(s@, pat@, rep@),
{
    let cs = chars_of(s);
    let pc = chars_of(pat);
    let rc = chars_of(rep);
    let mut out: Vec<char> = Vec::new();
    let mut i: usize = 0;
    assert(cs@.skip(0) =~= cs@);
    while i < cs.len()
        invariant
            i <= cs.len(),
            cs@ == s@,
            pc@ == pat@,
            rc@ == rep@,
            replace_all(s@, pat@, rep@) == out@ + replace_all(cs@.skip(i as int), pat@, rep@),
        decreases cs.len() - i,
    {
        let ghost rest = cs@.skip(i as int);
        if pc.len() > 0 && starts_with_at(cs.as_slice(), i, pc.as_slice()) {
            extend_chars(&mut out, rc.as_slice());
            proof {
                assert(rest.skip(pc@.len() as int) =~= cs@.skip(i + pc@.len()));
                assert(out@ + replace_all(cs@.skip(i + pc@.len()), pat@, rep@) =~= out@.subrange(0, out@.len() - rc@.len()) + replace_all(rest, pat@, rep@));
            }
            i += pc.len();
        } else {
            let c = cs[i];
            out.push(c);
            proof {
                assert(rest.drop_first() =~= cs@.skip(i + 1));
                assert(rest[0] == c);
                assert(out@ + replace_all(cs@.skip(i + 1), pat@, rep@) =~= out@.drop_last() + replace_all(rest, pat@, rep@));
            }
            i += 1;
        }
    }
    assert(cs@.skip(i as int).len() == 0);
    assert(out@ + replace_all(cs@.skip(i as int), pat@, rep@) =~= out@);
    string_from(out.as_slice())
}

/// Swap the `<Primary>` placeholder for the platform's main modifier.
pub fn expand(accel: &str, platform: Platform) -> (r: String)
    ensures
        r@ == replace_all(accel@, "<Primary>"@, spec_primary_mod(platform)),
{
    replace(accel, "<Primary>", primary_mod(platform))
}

/// What `str::to_uppercase` makes of a string (full Unicode case mapping).
pub uninterp spec fn uppercase(s: Seq<char>) -> Seq<char>;

/// `str::to_uppercase`.
#[verifier::external_body]
fn to_uppercase(s: &str) -> (r: String)
    ensures
        r@ == uppercase(s@),
{
    s.to_uppercase()
}

/// A key name as shown: a few punctuation names as their character, a
/// single character upper-cased, anything else as it is.
pub open spec fn spec_pretty_key(k: Seq<char>) -> Seq<char> {
    if k == "comma"@ {
        ","@
    } else if k == "period"@ {
        "."@
    } else if k == "slash"@ {
        "/"@
    } else if k.len() == 0 {
        seq![]
    } else if k.len() == 1 {
        uppercase(k)
    } else {
        k
    }
}

fn pretty_key(k: &[char]) -> (r: Vec<char>)
    ensures
        r@ == spec_pretty_key(k@),
{
    if eq_str(k, "comma") {
        chars_of(",")
    } else if eq_str(k, "period") {
        chars_of(".")
    } else if eq_str(k, "slash") {
        chars_of("/")
    } else if k.len() == 0 {
        Vec::new()
    } else if k.len() == 1 {
        let s = string_from(k);
        chars_of(to_uppercase(s.as_str()).as_str())
    } else {
        crate::text::slice_vec(k, 0, k.len())
    }
}

/// The display labels of the main modifier, Shift and Alt, and the text
/// between parts: symbols run together on macOS, names joined by `+`
/// elsewhere.
pub open spec fn mod_labels(p: Platform) -> (Seq<char>, Seq<char>, Seq<char>, Seq<char>) {
    match p {
        Platform::MacOs => ("\u{2318}"@, "\u{21e7}"@, "\u{2325}"@, ""@),
        Platform::Other => ("Ctrl"@, "Shift"@, "Alt"@, "+"@),
    }
}

/// One modifier token peeled off the front of `rest`, its label appended.
pub open spec fn mod_step(st: (Seq<char>, Seq<char>), token: Seq<char>, label: Seq<char>, join: Seq<char>) -> (Seq<char>, Seq<char>) {
    let (out, rest) = st;
    if token.len() <= rest.len() && rest.take(token.len() as int) == token {
        ((if out.len() > 0 { out + join } else { out }) + label, rest.skip(token.len() as int))
    } else {
        st
    }
}

/// An accelerator as shown: modifiers (in the fixed order main modifier,
/// Ctrl, Meta, Shift, Alt) then the key; an en dash for none, `Unbound`
/// for the unbound marker.
pub open spec fn spec_pretty(accel: Seq<char>, p: Platform) -> Seq<char> {
    if accel.len() == 0 {
        "\u{2013}"@
    } else if accel == "none"@ {
        "Unbound"@
    } else {
        let (primary, shift, alt, join) = mod_labels(p);
        let s1 = mod_step((seq![], accel), "<Primary>"@, primary, join);
        let s2 = mod_step(s1, "<Control>"@, "Ctrl"@, join);
        let s3 = mod_step(s2, "<Meta>"@, "\u{2318}"@, join);
        let s4 = mod_step(s3, "<Shift>"@, shift, join);
        let s5 = mod_step(s4, "<Alt>"@, alt, join);
        let head = if s5.0.len() > 0 && s5.1.len() > 0 {
            s5.0 + join
        } else {
            s5.0
        };
        head + spec_pretty_key(s5.1)
    }
}

fn peel(out: &mut Vec<char>, rest: &mut Vec<char>, token: &str, label: &str, join: &str)
    ensures
        (final(out)@, final(rest)@) == mod_step((old(out)@, old(rest)@), token@, label@, join@),
{
    let tc = chars_of(token);
    if starts_with_at(rest.as_slice(), 0, tc.as_slice()) {
        proof {
            assert(rest@.skip(0) =~= rest@);
        }
        if out.len() > 0 {
            extend_str(out, join);
        }
        extend_str(out, label);
        let n = rest.len();
        let tail = crate::text::slice_vec(rest.as_slice(), tc.len(), n);
        assert(tail@ =~= old(rest)@.skip(token@.len() as int));
        *rest = tail;
    } else {
        assert(rest@.skip(0) =~= rest@);
    }
}

/// An accelerator (stored form) rendered for display: `⌘⇧K` on macOS,
/// `Ctrl+Shift+K` elsewhere; an empty one as an en dash.
pub fn pretty(accel: &str, platform: Platform) -> (r: String)
    ensures
        r@ == spec_pretty(accel@, platform),
{
    let cs = chars_of(accel);
    if cs.len() == 0 {
        return string_from(chars_of("\u{2013}").as_slice());
    }
    if eq_str(cs.as_slice(), UNBOUND) {
        return string_from(chars_of("Unbound").as_slice());
    }
    let (primary, shift, alt, join): (&'static str, &'static str, &'static str, &'static str) = match platform {
        Platform::MacOs => ("\u{2318}", "\u{21e7}", "\u{2325}", ""),
        Platform::Other => ("Ctrl", "Shift", "Alt", "+"),
    };
    let mut out: Vec<char> = Vec::new();
    let mut rest = cs;
    peel(&mut out, &mut rest, "<Primary>", primary, join);
    peel(&mut out, &mut rest, "<Control>", "Ctrl", join);
    peel(&mut out, &mut rest, "<Meta>", "\u{2318}", join);
    peel(&mut out, &mut rest, "<Shift>", shift, join);
    peel(&mut out, &mut rest, "<Alt>", alt, join);
    if out.len() > 0 && rest.len() > 0 {
        extend_str(&mut out, join);
    }
    let key = pretty_key(rest.as_slice());
    extend_chars(&mut out, key.as_slice());
    string_from(out.as_slice())
}

/// `t` when `on`, nothing otherwise: one optional modifier token.
pub open spec fn opt_token(on: bool, t: Seq<char>) -> Seq<char> {
    if on { t } else { seq![] }
}

/// Modifier tokens in their stored order: main modifier, Control, Meta,
/// Shift, Alt, each present or not.
pub open spec fn modifier_tokens(primary: bool, control: bool, meta: bool, shift: bool, alt: bool) -> Seq<char> {
    opt_token(primary, "<Primary>"@) + opt_token(control, "<Control>"@) + opt_token(meta, "<Meta>"@)
        + opt_token(shift, "<Shift>"@) + opt_token(alt, "<Alt>"@)
}

/// A modifier's display label followed by the joining text, when present.
pub open spec fn opt_label(on: bool, label: Seq<char>, join: Seq<char>) -> Seq<char> {
    if on { label + join } else { seq![] }
}

/// The display text of the given modifiers before a key: each present
/// modifier's label, in stored order, followed by the platform's joining text.
pub open spec fn modifier_text(primary: bool, control: bool, meta: bool, shift: bool, alt: bool, p: Platform) -> Seq<char> {
    let (pl, sl, al, join) = mod_labels(p);
    opt_label(primary, pl, join) + opt_label(control, "Ctrl"@, join) + opt_label(meta, "\u{2318}"@, join)
        + opt_label(shift, sl, join) + opt_label(alt, al, join)
}

/// One modifier step on `opt_token(on, t) + r`: the token is peeled when
/// present, and nothing happens when the rest cannot start with it.
proof fn lemma_step_opt(out: Seq<char>, on: bool, t: Seq<char>, r: Seq<char>, label: Seq<char>, join: Seq<char>)
    requires
        t.len() >= 2,
        r.len() >= 2,
        r[0] != t[0] || r[1] != t[1],
    ensures
        mod_step((out, opt_token(on, t) + r), t, label, join)
            == (if on { (if out.len() > 0 { out + join } else { out }) + label } else { out }, r),
{
    let rest = opt_token(on, t) + r;
    if on {
        assert(rest.take(t.len() as int) =~= t);
        assert(rest.skip(t.len() as int) =~= r);
    } else {
        assert(rest =~= r);
        if t.len() <= rest.len() && rest.take(t.len() as int) == t {
            assert(rest.take(t.len() as int)[0] == r[0]);
            assert(rest.take(t.len() as int)[1] == r[1]);
        }
    }
}

/// The labels gathered so far, each followed by the joining text.
spec fn joined(out: Seq<char>, join: Seq<char>) -> Seq<char> {
    if out.len() > 0 { out + join } else { out }
}

proof fn lemma_joined_step(out: Seq<char>, on: bool, label: Seq<char>, join: Seq<char>)
    requires
        label.len() > 0,
    ensures
        joined(if on { joined(out, join) + label } else { out }, join) == joined(out, join) + opt_label(on, label, join),
        (if on { joined(out, join) + label } else { out }).len() > 0 <==> (on || out.len() > 0),
{
    if on {
        assert(joined(out, join) + label + join =~= joined(out, join) + (label + join));
    } else {
        assert(joined(out, join) + opt_label(on, label, join) =~= joined(out, join));
    }
}

/// What the modifier steps need of the token and label literals.
proof fn lemma_modifier_literals()
    ensures
        "<Primary>"@.len() == 9 && "<Primary>"@[0] == '<' && "<Primary>"@[1] == 'P',
        "<Control>"@.len() == 9 && "<Control>"@[0] == '<' && "<Control>"@[1] == 'C',
        "<Meta>"@.len() == 6 && "<Meta>"@[0] == '<' && "<Meta>"@[1] == 'M',
        "<Shift>"@.len() == 7 && "<Shift>"@[0] == '<' && "<Shift>"@[1] == 'S',
        "<Alt>"@.len() == 5 && "<Alt>"@[0] == '<' && "<Alt>"@[1] == 'A',
        "none"@.len() == 4 && "none"@[0] == 'n',
        "Ctrl"@.len() > 0 && "Shift"@.len() > 0 && "Alt"@.len() > 0,
        "\u{2318}"@.len() > 0 && "\u{21e7}"@.len() > 0 && "\u{2325}"@.len() > 0,
{
    reveal_strlit("<Primary>");
    reveal_strlit("<Control>");
    reveal_strlit("<Meta>");
    reveal_strlit("<Shift>");
    reveal_strlit("<Alt>");
    reveal_strlit("none");
    reveal_strlit("Ctrl");
    reveal_strlit("Shift");
    reveal_strlit("Alt");
    reveal_strlit("\u{2318}");
    reveal_strlit("\u{21e7}");
    reveal_strlit("\u{2325}");
}

/// Any key that does not start with `<` is shown after exactly the labels
/// of the modifier tokens in front of it.
proof fn lemma_pretty_after_modifiers(primary: bool, control: bool, meta: bool, shift: bool, alt: bool, k: Seq<char>, p: Platform)
    requires
        k.len() >= 2,
        k[0] != '<',
        k != "none"@,
    ensures
        spec_pretty(modifier_tokens(primary, control, meta, shift, alt) + k, p)
            == modifier_text(primary, control, meta, shift, alt, p) + spec_pretty_key(k),
{
    let accel = modifier_tokens(primary, control, meta, shift, alt) + k;
    let (n1, n2, n3, n4, n5) = lemma_modifier_steps(primary, control, meta, shift, alt, k, p);
    lemma_pretty_of_peeled(accel, p, n1, n2, n3, n4, n5);
}

/// The states the five modifier steps pass through on the given modifier
/// tokens followed by `k`.
proof fn lemma_modifier_steps(primary: bool, control: bool, meta: bool, shift: bool, alt: bool, k: Seq<char>, p: Platform)
    -> (n: ((Seq<char>, Seq<char>), (Seq<char>, Seq<char>), (Seq<char>, Seq<char>), (Seq<char>, Seq<char>), (Seq<char>, Seq<char>)))
    requires
        k.len() >= 2,
        k[0] != '<',
        k != "none"@,
    ensures
        ({
            let accel = modifier_tokens(primary, control, meta, shift, alt) + k;
            &&& accel.len() != 0
            &&& accel != "none"@
            &&& n.0 == mod_step((seq![], accel), "<Primary>"@, mod_labels(p).0, mod_labels(p).3)
        }),
        n.1 == mod_step(n.0, "<Control>"@, "Ctrl"@, mod_labels(p).3),
        n.2 == mod_step(n.1, "<Meta>"@, "\u{2318}"@, mod_labels(p).3),
        n.3 == mod_step(n.2, "<Shift>"@, mod_labels(p).1, mod_labels(p).3),
        n.4 == mod_step(n.3, "<Alt>"@, mod_labels(p).2, mod_labels(p).3),
        n.4.1 == k,
        joined(n.4.0, mod_labels(p).3) == modifier_text(primary, control, meta, shift, alt, p),
{
    lemma_modifier_literals();
    let (pl, sl, al, join) = mod_labels(p);
    let r4 = opt_token(alt, "<Alt>"@) + k;
    let r3 = opt_token(shift, "<Shift>"@) + r4;
    let r2 = opt_token(meta, "<Meta>"@) + r3;
    let r1 = opt_token(control, "<Control>"@) + r2;
    let r0 = opt_token(primary, "<Primary>"@) + r1;
    let accel = modifier_tokens(primary, control, meta, shift, alt) + k;
    assert({
        &&& accel == r0
        &&& accel.len() != 0
        &&& accel != "none"@
        &&& r4.len() >= 2 && (r4[0] != '<' || r4[1] == 'A')
        &&& r3.len() >= 2 && (r3[0] != '<' || r3[1] == 'A' || r3[1] == 'S')
        &&& r2.len() >= 2 && (r2[0] != '<' || r2[1] == 'A' || r2[1] == 'S' || r2[1] == 'M')
        &&& r1.len() >= 2 && (r1[0] != '<' || r1[1] == 'A' || r1[1] == 'S' || r1[1] == 'M' || r1[1] == 'C')
    }) by {
        lemma_opt_front(alt, "<Alt>"@, k);
        lemma_opt_front(shift, "<Shift>"@, r4);
        lemma_opt_front(meta, "<Meta>"@, r3);
        lemma_opt_front(control, "<Control>"@, r2);
        lemma_opt_front(primary, "<Primary>"@, r1);
        assert(accel =~= r0);
        if accel == "none"@ {
            assert(r0[0] == 'n');
        }
    }
    let o0: Seq<char> = seq![];
    let n1 = lemma_step_state(o0, primary, "<Primary>"@, r1, pl, join);
    let n2 = lemma_step_state(n1.0, control, "<Control>"@, r2, "Ctrl"@, join);
    let n3 = lemma_step_state(n2.0, meta, "<Meta>"@, r3, "\u{2318}"@, join);
    let n4 = lemma_step_state(n3.0, shift, "<Shift>"@, r4, sl, join);
    let n5 = lemma_step_state(n4.0, alt, "<Alt>"@, k, al, join);
    assert(joined(o0, join) =~= seq![]);
    assert(joined(n5.0, join) =~= modifier_text(primary, control, meta, shift, alt, p));
    (n1, n2, n3, n4, n5)
}

/// `spec_pretty` from the states the five modifier steps pass through.
proof fn lemma_pretty_of_peeled(
    accel: Seq<char>,
    p: Platform,
    n1: (Seq<char>, Seq<char>),
    n2: (Seq<char>, Seq<char>),
    n3: (Seq<char>, Seq<char>),
    n4: (Seq<char>, Seq<char>),
    n5: (Seq<char>, Seq<char>),
)
    requires
        accel.len() != 0,
        accel != "none"@,
        n5.1.len() > 0,
        n1 == mod_step((seq![], accel), "<Primary>"@, mod_labels(p).0, mod_labels(p).3),
        n2 == mod_step(n1, "<Control>"@, "Ctrl"@, mod_labels(p).3),
        n3 == mod_step(n2, "<Meta>"@, "\u{2318}"@, mod_labels(p).3),
        n4 == mod_step(n3, "<Shift>"@, mod_labels(p).1, mod_labels(p).3),
        n5 == mod_step(n4, "<Alt>"@, mod_labels(p).2, mod_labels(p).3),
    ensures
        spec_pretty(accel, p) == joined(n5.0, mod_labels(p).3) + spec_pretty_key(n5.1),
{
}

/// One modifier step on `opt_token(on, t) + r` leaves `r` and adds the
/// token's label (with its joining text) when present.
proof fn lemma_step_state(out: Seq<char>, on: bool, t: Seq<char>, r: Seq<char>, label: Seq<char>, join: Seq<char>)
    -> (n: (Seq<char>, Seq<char>))
    requires
        t.len() >= 2,
        r.len() >= 2,
        r[0] != t[0] || r[1] != t[1],
        label.len() > 0,
    ensures
        n == mod_step((out, opt_token(on, t) + r), t, label, join),
        n.1 == r,
        joined(n.0, join) == joined(out, join) + opt_label(on, label, join),
{
    lemma_step_opt(out, on, t, r, label, join);
    lemma_joined_step(out, on, label, join);
    mod_step((out, opt_token(on, t) + r), t, label, join)
}

/// Putting an optional token in front of `r`: its first two characters when
/// present, `r` itself when not.
proof fn lemma_opt_front(on: bool, t: Seq<char>, r: Seq<char>)
    requires
        t.len() >= 2,
        r.len() >= 2,
    ensures
        (opt_token(on, t) + r).len() >= r.len(),
        (opt_token(on, t) + r).len() >= 2,
        on ==> (opt_token(on, t) + r)[0] == t[0] && (opt_token(on, t) + r)[1] == t[1],
        !on ==> opt_token(on, t) + r == r,
{
    if !on {
        assert(opt_token(on, t) + r =~= r);
    }
}

/// The punctuation key names are shown as their characters whatever
/// modifiers come before them: `slash` as `/`, `comma` as `,`, `period` as
/// `.`; the modifiers read as their labels, in stored order.
pub proof fn lemma_pretty_punctuation(primary: bool, control: bool, meta: bool, shift: bool, alt: bool, p: Platform)
    ensures
        spec_pretty(modifier_tokens(primary, control, meta, shift, alt) + "slash"@, p)
            == modifier_text(primary, control, meta, shift, alt, p) + "/"@,
        spec_pretty(modifier_tokens(primary, control, meta, shift, alt) + "comma"@, p)
            == modifier_text(primary, control, meta, shift, alt, p) + ","@,
        spec_pretty(modifier_tokens(primary, control, meta, shift, alt) + "period"@, p)
            == modifier_text(primary, control, meta, shift, alt, p) + "."@,
{
    reveal_strlit("slash");
    reveal_strlit("comma");
    reveal_strlit("period");
    reveal_strlit("none");
    assert("slash"@[0] == 's' && "comma"@[0] == 'c' && "period"@[0] == 'p');
    assert("none"@[0] == 'n');
    assert(spec_pretty_key("slash"@) == "/"@);
    assert(spec_pretty_key("comma"@) == ","@);
    assert(spec_pretty_key("period"@) == "."@);
    lemma_pretty_after_modifiers(primary, control, meta, shift, alt, "slash"@, p);
    lemma_pretty_after_modifiers(primary, control, meta, shift, alt, "comma"@, p);
    lemma_pretty_after_modifiers(primary, control, meta, shift, alt, "period"@, p);
}

/// The accelerator (stored form) action `a` has under overrides `m`: its
/// override, else its default, else nothing.
pub open spec fn spec_accel(m: Map<Seq<char>, Seq<char>>, a: Seq<char>) -> Seq<char> {
    if m.contains_key(a) {
        m[a]
    } else {
        match spec_default_accel(a) {
            Some(d) => d,
            None => seq![],
        }
    }
}

/// The overrides after setting (`Some`) or clearing (`None`) action `a`'s
/// accelerator: only a non-empty value other than the default is stored.
pub open spec fn spec_set(m: Map<Seq<char>, Seq<char>>, a: Seq<char>, accel: Option<Seq<char>>) -> Map<Seq<char>, Seq<char>> {
    match accel {
        Some(x) => if Some(x) != spec_default_accel(a) && x.len() > 0 {
            m.insert(a, x)
        } else {
            m.remove(a)
        },
        None => m.remove(a),
    }
}

/// The first action of `list` other than `except` bound to `accel`.
pub open spec fn find_bound(
    list: Seq<(Seq<char>, Seq<char>)>,
    m: Map<Seq<char>, Seq<char>>,
    accel: Seq<char>,
    except: Seq<char>,
) -> Option<Seq<char>>
    decreases list.len(),
{
    if list.len() == 0 {
        None
    } else if list[0].0 != except && spec_accel(m, list[0].0) == accel {
        Some(list[0].0)
    } else {
        find_bound(list.drop_first(), m, accel, except)
    }
}

/// The overrides after one `key.<action>=<accel>` line: kept only for a
/// known action.
pub open spec fn key_line(m: Map<Seq<char>, Seq<char>>, line: Seq<char>) -> Map<Seq<char>, Seq<char>> {
    match split_kv(line) {
        Some((key, value)) => {
            if key.len() >= 4 && key.take(4) == "key."@ && spec_default_accel(key.skip(4)) is Some {
                m.insert(key.skip(4), value)
            } else {
                m
            }
        },
        None => m,
    }
}

/// The overrides after reading `lines` in order.
pub open spec fn key_lines(m: Map<Seq<char>, Seq<char>>, lines: Seq<Seq<char>>) -> Map<Seq<char>, Seq<char>>
    decreases lines.len(),
{
    if lines.len() == 0 {
        m
    } else {
        key_lines(key_line(m, lines[0]), lines.drop_first())
    }
}

/// The file lines of some overrides, in order.
pub open spec fn keymap_text(pairs: Seq<(Seq<char>, Seq<char>)>) -> Seq<char>
    decreases pairs.len(),
{
    if pairs.len() == 0 {
        seq![]
    } else {
        keymap_text(pairs.drop_last()) + "key."@ + pairs.last().0 + "="@ + pairs.last().1 + "\n"@
    }
}

/// Per-user accelerator overrides. An action with no entry uses its
/// default.
#[derive(Clone, PartialEq, Debug)]
pub struct Keymap {
    /// `action -> accel` (stored form, may contain `<Primary>`).
    overrides: StrMap<String>,
}

impl Keymap {
    pub closed spec fn view(&self) -> Map<Seq<char>, Seq<char>> {
        self.overrides@.map_values(|s: String| s@)
    }

    pub closed spec fn wf(&self) -> bool {
        self.overrides.wf()
    }

    /// The overrides in ascending action order.
    pub closed spec fn pairs(&self) -> Seq<(Seq<char>, Seq<char>)> {
        self.overrides.pairs().map_values(|e: (Seq<char>, String)| (e.0, e.1@))
    }

    /// The effective accelerator (stored form) for `action`: its override,
    /// else its default, else empty.
    pub fn accel(&self, action: &str) -> (r: String)
        requires
            self.wf(),
        ensures
            r@ == spec_accel(self@, action@),
    {
        let key = chars_of(action);
        match self.overrides.get(key.as_slice()) {
            Some(v) => string_from(chars_of(v.as_str()).as_slice()),
            None => match default_accel(action) {
                Some(d) => string_from(chars_of(d).as_slice()),
                None => String::new(),
            },
        }
    }

    /// Set (`Some`) or clear (`None`) an override. Clearing, setting the
    /// default, or setting nothing removes the entry.
    pub fn set(&mut self, action: &str, accel: Option<&str>)
        requires
            old(self).wf(),
        ensures
            final(self).wf(),
            final(self)@ == spec_set(
                old(self)@,
                action@,
                match accel {
                    Some(a) => Some(a@),
                    None => None,
                },
            ),
    {
        let ghost m0 = self@;
        let key = chars_of(action);
        let store = match accel {
            Some(a) => {
                let ac = chars_of(a);
                let is_default = match default_accel(action) {
                    Some(d) => eq_str(ac.as_slice(), d),
                    None => false,
                };
                !is_default && ac.len() > 0
            },
            None => false,
        };
        if store {
            match accel {
                Some(a) => {
                    self.overrides.insert(string_from(key.as_slice()), string_from(chars_of(a).as_slice()));
                    assert(self@ =~= m0.insert(action@, a@));
                },
                None => {},
            }
        } else {
            self.overrides.remove(key.as_slice());
            assert(self@ =~= m0.remove(action@));
        }
    }

    /// The action currently bound to accelerator `accel` (stored form), if
    /// any, skipping `except` — conflict detection on the Keymap page.
    pub fn action_for_accel(&self, accel: &str, except: &str) -> (r: Option<&'static str>)
        requires
            self.wf(),
        ensures
            match r {
                Some(a) => find_bound(spec_actions(), self@, accel@, except@) == Some(a@),
                None => find_bound(spec_actions(), self@, accel@, except@) is None,
            },
    {
        let list = actions();
        let ghost all = spec_actions();
        let ac = chars_of(accel);
        let ex = chars_of(except);
        let mut i: usize = 0;
        assert(all.skip(0) =~= all);
        while i < list.len()
            invariant
                i <= list.len(),
                self.wf(),
                all == list@.map_values(|a: ActionSpec| (a.action@, a.default_accel@)),
                all == spec_actions(),
                ac@ == accel@,
                ex@ == except@,
                find_bound(all, self@, accel@, except@) == find_bound(all.skip(i as int), self@, accel@, except@),
            decreases list.len() - i,
        {
            let name = list[i].action;
            let nc = chars_of(name);
            proof {
                assert(all.skip(i as int)[0] == all[i as int]);
                assert(all.skip(i as int).drop_first() =~= all.skip(i + 1));
            }
            if !eq_chars(nc.as_slice(), ex.as_slice()) {
                let bound = self.accel(name);
                if eq_chars(chars_of(bound.as_str()).as_slice(), ac.as_slice()) {
                    return Some(name);
                }
            }
            i += 1;
        }
        None
    }

    /// The overrides a keymap file holds: every `key.<action>=<accel>` line
    /// for a known action (key and value trimmed, later lines winning);
    /// anything else is ignored.
    pub fn parse(contents: &str) -> (k: Keymap)
        ensures
            k.wf(),
            k@ == key_lines(Map::empty(), spec_lines(contents@)),
    {
        let lines = lines_of(contents);
        let mut k = Keymap::default();
        let mut i: usize = 0;
        assert(char_views(lines@).skip(0) =~= char_views(lines@));
        while i < lines.len()
            invariant
                i <= lines.len(),
                k.wf(),
                char_views(lines@) == spec_lines(contents@),
                key_lines(Map::empty(), spec_lines(contents@)) == key_lines(k@, char_views(lines@).skip(i as int)),
            decreases lines.len() - i,
        {
            let line = &lines[i];
            let ghost m0 = k@;
            proof {
                let rest = char_views(lines@).skip(i as int);
                assert(rest[0] == line@);
                assert(rest.drop_first() =~= char_views(lines@).skip(i + 1));
            }
            assert(line@.skip(0) =~= line@);
            if let Some(eq) = find_from(line.as_slice(), '=', 0) {
                let key = trim_range(line.as_slice(), 0, eq);
                let value = trim_range(line.as_slice(), eq + 1, line.len());
                proof {
                    assert(line@.subrange(0, eq as int) =~= line@.take(eq as int));
                    assert(line@.subrange(eq + 1, line@.len() as int) =~= line@.skip(eq + 1));
                }
                if key.len() >= 4 && key[0] == 'k' && key[1] == 'e' && key[2] == 'y' && key[3] == '.' {
                    let action = crate::text::slice_vec(key.as_slice(), 4, key.len());
                    let name = string_from(action.as_slice());
                    proof {
                        reveal_strlit("key.");
                        assert(key@.take(4) =~= "key."@);
                        assert(action@ =~= key@.skip(4));
                    }
                    if default_accel(name.as_str()).is_some() {
                        k.overrides.insert(name, string_from(value.as_slice()));
                        assert(k@ =~= m0.insert(key@.skip(4), value@));
                    }
                } else {
                    proof {
                        reveal_strlit("key.");
                        if key@.len() >= 4 {
                            assert(key@.take(4) != "key."@) by {
                                if key@[0] != 'k' {
                                    assert(key@.take(4)[0] != "key."@[0]);
                                } else if key@[1] != 'e' {
                                    assert(key@.take(4)[1] != "key."@[1]);
                                } else if key@[2] != 'y' {
                                    assert(key@.take(4)[2] != "key."@[2]);
                                } else {
                                    assert(key@.take(4)[3] != "key."@[3]);
                                }
                            }
                        }
                    }
                }
            }
            i += 1;
        }
        k
    }

    /// The keymap file text: one `key.<action>=<accel>` line per override,
    /// in ascending action order.
    pub fn to_text(&self) -> (r: String)
        ensures
            r@ == keymap_text(self.pairs()),
    {
        let n = self.overrides.len();
        let mut out: Vec<char> = Vec::new();
        let mut j: usize = 0;
        assert(self.pairs().take(0) =~= Seq::<(Seq<char>, Seq<char>)>::empty());
        while j < n
            invariant
                j <= n,
                n == self.pairs().len(),
                out@ == keymap_text(self.pairs().take(j as int)),
            decreases n - j,
        {
            let (action, accel) = self.overrides.entry(j);
            extend_str(&mut out, "key.");
            extend_str(&mut out, action.as_str());
            out.push('=');
            extend_str(&mut out, accel.as_str());
            out.push('\n');
            proof {
                reveal_strlit("=");
                reveal_strlit("\n");
                let p = self.pairs();
                let t = p.take(j + 1);
                assert(t.drop_last() =~= p.take(j as int));
                assert(t.last() == (action@, accel@));
                assert(out@ =~= keymap_text(t));
            }
            j += 1;
        }
        assert(self.pairs().take(n as int) =~= self.pairs());
        string_from(out.as_slice())
    }
}

impl Default for Keymap {
    fn default() -> (k: Self)
        ensures
            k.wf(),
            k@ == Map::<Seq<char>, Seq<char>>::empty(),
    {
        let k = Keymap { overrides: StrMap::new() };
        assert(k@ =~= Map::<Seq<char>, Seq<char>>::empty());
        k
    }
}

/// After an action's accelerator is set, it reads back that accelerator —
/// or its default, when the value was cleared or empty; every other action
/// reads as before.
pub proof fn lemma_set_then_accel(m: Map<Seq<char>, Seq<char>>, a: Seq<char>, accel: Option<Seq<char>>, b: Seq<char>)
    ensures
        spec_accel(spec_set(m, a, accel), b) == if b == a {
            match accel {
                Some(x) => if x.len() > 0 {
                    x
                } else {
                    spec_accel(Map::empty(), a)
                },
                None => spec_accel(Map::empty(), a),
            }
        } else {
            spec_accel(m, b)
        },
{
}

/// Only a real override is stored: a value equal to the default, an empty
/// value, or a cleared one leaves no entry.
pub proof fn lemma_set_stores_only_overrides(m: Map<Seq<char>, Seq<char>>, a: Seq<char>, accel: Option<Seq<char>>)
    ensures
        spec_set(m, a, accel).contains_key(a) <==> (accel matches Some(x) && x.len() > 0 && Some(x)
            != spec_default_accel(a)),
{
}

/// A conflict found is a different action, bound to the accelerator asked
/// about.
pub proof fn lemma_conflict_is_another_action(
    list: Seq<(Seq<char>, Seq<char>)>,
    m: Map<Seq<char>, Seq<char>>,
    accel: Seq<char>,
    except: Seq<char>,
)
    ensures
        find_bound(list, m, accel, except) matches Some(a) ==> a != except && spec_accel(m, a) == accel,
    decreases list.len(),
{
    if list.len() > 0 {
        lemma_conflict_is_another_action(list.drop_first(), m, accel, except);
    }
}

/// The stored accelerator for a captured key press: the modifiers held
/// (the main modifier standing in for Ctrl/Meta), then the key's name.
pub open spec fn spec_accel_from(name: Seq<char>, primary: bool, ctrl: bool, meta: bool, alt: bool, shift: bool) -> Option<Seq<char>> {
    if name.len() == 0 || !(primary || ctrl || meta || alt) {
        None
    } else {
        let mods = if primary {
            "<Primary>"@
        } else {
            (if ctrl { "<Control>"@ } else { seq![] }) + (if meta { "<Meta>"@ } else { seq![] })
        };
        Some(mods + (if shift { "<Shift>"@ } else { seq![] }) + (if alt { "<Alt>"@ } else { seq![] }) + name)
    }
}

/// Turn a captured key press (its key name and the modifiers held) into a
/// stored accelerator. `None` for an unnamed key, or a bare key with no
/// usable modifier (Shift alone doesn't count).
pub fn accel_from(name: &str, primary: bool, ctrl: bool, meta: bool, alt: bool, shift: bool) -> (r: Option<String>)
    ensures
        match r {
            Some(a) => spec_accel_from(name@, primary, ctrl, meta, alt, shift) == Some(a@),
            None => spec_accel_from(name@, primary, ctrl, meta, alt, shift) is None,
        },
{
    let nc = chars_of(name);
    if nc.len() == 0 || !(primary || ctrl || meta || alt) {
        return None;
    }
    let mut out: Vec<char> = Vec::new();
    if primary {
        extend_str(&mut out, "<Primary>");
    } else {
        if ctrl {
            extend_str(&mut out, "<Control>");
        }
        if meta {
            extend_str(&mut out, "<Meta>");
        }
    }
    if shift {
        extend_str(&mut out, "<Shift>");
    }
    if alt {
        extend_str(&mut out, "<Alt>");
    }
    extend_chars(&mut out, nc.as_slice());
    let ghost mods = if primary {
        "<Primary>"@
    } else {
        (if ctrl { "<Control>"@ } else { seq![] }) + (if meta { "<Meta>"@ } else { seq![] })
    };
    assert(out@ =~= mods + (if shift { "<Shift>"@ } else { seq![] }) + (if alt { "<Alt>"@ } else { seq![] }) + name@);
    Some(string_from(out.as_slice()))
}


/// A character an action name is made of.
pub open spec fn is_action_char(c: char) -> bool {
    ('a' <= c && c <= 'z') || c == '-'
}

/// A non-empty run of action characters.
pub open spec fn is_action_name(a: Seq<char>) -> bool {
    a.len() > 0 && forall|i: int| 0 <= i < a.len() ==> is_action_char(#[trigger] a[i])
}

proof fn lemma_find_entry_in(list: Seq<(Seq<char>, Seq<char>)>, a: Seq<char>)
    requires
        find_entry(list, a) is Some,
    ensures
        exists|i: int| 0 <= i < list.len() && #[trigger] list[i].0 == a,
    decreases list.len(),
{
    if list[0].0 != a {
        lemma_find_entry_in(list.drop_first(), a);
        let i = choose|i: int| 0 <= i < list.len() - 1 && #[trigger] list.drop_first()[i].0 == a;
        assert(list[i + 1].0 == a);
    } else {
        assert(list[0].0 == a);
    }
}

/// Every known action's name is a run of `a`-`z` and `-`.
proof fn lemma_known_action_name(a: Seq<char>)
    requires
        spec_default_accel(a) is Some,
    ensures
        is_action_name(a),
{
    let list = spec_actions();
    reveal_strlit("new");
    reveal_strlit("new-folder");
    reveal_strlit("open");
    reveal_strlit("save");
    reveal_strlit("save-as");
    reveal_strlit("save-all");
    reveal_strlit("reload-all");
    reveal_strlit("close-tab");
    reveal_strlit("preferences");
    reveal_strlit("git-commit");
    reveal_strlit("git-push");
    reveal_strlit("git-pull");
    reveal_strlit("git-log");
    assert(is_action_name(list[0].0));
    assert(is_action_name(list[1].0));
    assert(is_action_name(list[2].0));
    assert(is_action_name(list[3].0));
    assert(is_action_name(list[4].0));
    assert(is_action_name(list[5].0));
    assert(is_action_name(list[6].0));
    assert(is_action_name(list[7].0));
    assert(is_action_name(list[8].0));
    assert(is_action_name(list[9].0));
    assert(is_action_name(list[10].0));
    assert(is_action_name(list[11].0));
    assert(is_action_name(list[12].0));
    lemma_find_entry_in(list, a);
}

/// Reading lines one run after another is reading them all.
proof fn lemma_key_lines_append(m: Map<Seq<char>, Seq<char>>, a: Seq<Seq<char>>, b: Seq<Seq<char>>)
    ensures
        key_lines(m, a + b) == key_lines(key_lines(m, a), b),
    decreases a.len(),
{
    if a.len() == 0 {
        assert(a + b =~= b);
    } else {
        assert((a + b).drop_first() =~= a.drop_first() + b);
        assert((a + b)[0] == a[0]);
        lemma_key_lines_append(key_line(m, a[0]), a.drop_first(), b);
    }
}

/// What reading the first `n` saved override lines does.
proof fn lemma_keymap_prefix(m: Map<Seq<char>, Seq<char>>, pairs: Seq<(Seq<char>, Seq<char>)>, n: int)
    requires
        0 <= n <= pairs.len(),
        forall|i: int|
            0 <= i < pairs.len() ==> spec_default_accel(#[trigger] pairs[i].0) is Some && line_safe(
                pairs[i].1,
            ),
    ensures
        ({
            let t = keymap_text(pairs.take(n));
            &&& t.len() == 0 || t.last() == '\n'
            &&& key_lines(m, spec_lines(t)) == m.union_prefer_right(pairs_map(pairs.take(n)))
        }),
    decreases n,
{
    let ps = pairs.take(n);
    if n == 0 {
        assert(ps =~= seq![]);
        assert(keymap_text(ps) == Seq::<char>::empty());
        assert(spec_lines(Seq::<char>::empty()) =~= seq![]);
        assert(m.union_prefer_right(Map::empty()) =~= m);
    } else {
        reveal_strlit("\n");
        reveal_strlit("key.");
        lemma_keymap_prefix(m, pairs, n - 1);
        let prev = pairs.take(n - 1);
        assert(ps.drop_last() =~= prev);
        let (action, accel) = pairs[n - 1];
        assert(ps.last() == (action, accel));
        assert(spec_default_accel(action) is Some);
        lemma_known_action_name(action);
        let key = "key."@ + action;
        assert(key.take(4) =~= "key."@);
        assert(key.skip(4) =~= action);
        assert forall|i: int| 0 <= i < key.len() implies key[i] != '=' by {
            if i >= 4 {
                assert(key[i] == action[i - 4]);
                assert(is_action_char(action[i - 4]));
            }
        }
        assert(line_safe(key)) by {
            assert forall|i: int| 0 <= i < key.len() implies key[i] != '\n' && key[i] != '\r' by {
                if i >= 4 {
                    assert(key[i] == action[i - 4]);
                    assert(is_action_char(action[i - 4]));
                }
            }
            assert(key.last() == action.last());
            assert(is_action_char(action[action.len() - 1]));
        }
        let t0 = keymap_text(prev);
        let line = key + "="@ + accel;
        let t = keymap_text(ps);
        assert(t =~= t0 + (line + "\n"@));
        lemma_split_named(key, accel);
        assert(line + "\n"@ =~= line.push('\n'));
        lemma_lines_single(line);
        lemma_lines_append(t0, line + "\n"@);
        let m0 = key_lines(m, spec_lines(t0));
        lemma_key_lines_append(m, spec_lines(t0), seq![line]);
        assert(seq![line].drop_first() =~= Seq::<Seq<char>>::empty());
        assert(key_lines(m0, seq![line]) == key_lines(key_line(m0, line), Seq::<Seq<char>>::empty()));
        assert(m.union_prefer_right(pairs_map(prev)).insert(action, accel) =~= m.union_prefer_right(
            pairs_map(ps),
        ));
        assert(t.last() == '\n');
    }
}

/// Saving a keymap and loading the file back gives the same overrides, as
/// long as each is for a known action and its accelerator has no line
/// break or surrounding white space.
pub proof fn lemma_keymap_round_trip(k: Keymap)
    requires
        k.wf(),
        forall|a: Seq<char>| #[trigger]
            k@.contains_key(a) ==> spec_default_accel(a) is Some && line_safe(k@[a]),
    ensures
        key_lines(Map::empty(), spec_lines(keymap_text(k.pairs()))) == k@,
{
    k.lemma_pairs();
    let p = k.pairs();
    assert forall|i: int| 0 <= i < p.len() implies spec_default_accel(#[trigger] p[i].0) is Some
        && line_safe(p[i].1) by {
        assert(k@.contains_key(p[i].0));
    }
    lemma_keymap_prefix(Map::empty(), p, p.len() as int);
    assert(p.take(p.len() as int) =~= p);
    assert(Map::<Seq<char>, Seq<char>>::empty().union_prefer_right(pairs_map(p)) =~= pairs_map(p));
}

impl Keymap {
    /// The saved pairs rebuild the overrides.
    proof fn lemma_pairs(&self)
        requires
            self.wf(),
        ensures
            pairs_map(self.pairs()) == self@,
            forall|i: int|
                0 <= i < self.pairs().len() ==> self@.contains_key(#[trigger] self.pairs()[i].0)
                    && self@[self.pairs()[i].0] == self.pairs()[i].1,
    {
        lemma_text_pairs(&self.overrides);
        assert(self.pairs() == text_pairs(&self.overrides));
    }
}

} // verus!
