//! Process-wide diagnostic logging, decided per invocation by `-v` /
//! `--verbose` flags (repeatable) and an environment override. This module
//! holds the decisions: which arguments are verbosity flags, how many steps
//! they ask for, and which level a count or an override name selects. The
//! logger itself (writing records to stderr) is installed by the binary.

use vstd::prelude::*;
use crate::text::{ascii_lower_seq, ascii_lowercase_chars, chars_of, eq_str, string_from, trim_seq, trim_str};

verus! {

/// How much diagnostic output to let through, quietest first.
#[derive(Clone, Copy, PartialEq, Eq, Debug, Structural)]
pub enum LevelFilter {
    Off,
    Error,
    Warn,
    Info,
    Debug,
    Trace,
}

/// A dash followed only by one or more `v`s: `-v`, `-vv`, `-vvv`, ...
pub open spec fn is_short_flag(a: Seq<char>) -> bool {
    a.len() >= 2 && a[0] == '-' && forall|i: int| 1 <= i < a.len() ==> a[i] == 'v'
}

/// The steps one argument asks for (`-v` = 1, `-vv` = 2, `--verbose` = 1):
/// a short flag asks for as many steps as it has `v`s.
pub open spec fn flag_steps(a: Seq<char>) -> nat {
    if a == "--verbose"@ {
        1
    } else if is_short_flag(a) {
        (a.len() - 1) as nat
    } else {
        0
    }
}

pub open spec fn is_verbosity_flag(a: Seq<char>) -> bool {
    a == "--verbose"@ || is_short_flag(a)
}

/// The arguments that survive flag stripping: everything but the
/// verbosity flags, and everything from a bare `--` on.
pub open spec fn kept_args(args: Seq<Seq<char>>) -> Seq<Seq<char>>
    decreases args.len(),
{
    if args.len() == 0 {
        seq![]
    } else if args[0] == "--"@ {
        args
    } else if is_verbosity_flag(args[0]) {
        kept_args(args.drop_first())
    } else {
        seq![args[0]] + kept_args(args.drop_first())
    }
}

/// The total number of steps asked for before any bare `--`.
pub open spec fn requested_steps(args: Seq<Seq<char>>) -> nat
    decreases args.len(),
{
    if args.len() == 0 {
        0
    } else if args[0] == "--"@ {
        0
    } else {
        flag_steps(args[0]) + requested_steps(args.drop_first())
    }
}

pub open spec fn min_nat(a: nat, b: nat) -> nat {
    if a <= b {
        a
    } else {
        b
    }
}

pub open spec fn views(args: Seq<String>) -> Seq<Seq<char>> {
    args.map_values(|s: String| s@)
}

proof fn lemma_scan_step(args: Seq<Seq<char>>, k: int)
    requires
        0 <= k < args.len(),
        forall|j: int| 0 <= j < k ==> args[j] != "--"@,
    ensures
        kept_args(args) == kept_args(args.take(k)) + kept_args(args.skip(k)),
        requested_steps(args) == requested_steps(args.take(k)) + requested_steps(args.skip(k)),
    decreases k,
{
    if k > 0 {
        let t = args.drop_first();
        assert(args.take(k).drop_first() =~= t.take(k - 1));
        assert(args.skip(k) =~= t.skip(k - 1));
        lemma_scan_step(t, k - 1);
        assert(args.take(k)[0] == args[0]);
    } else {
        assert(args.take(0) =~= Seq::<Seq<char>>::empty());
        assert(args.skip(0) =~= args);
    }
}

proof fn lemma_scan_prefix(args: Seq<Seq<char>>, k: int)
    requires
        0 <= k < args.len(),
        forall|j: int| 0 <= j < k ==> args[j] != "--"@,
        args[k] != "--"@,
    ensures
        kept_args(args.take(k + 1)) == kept_args(args.take(k)) + (if is_verbosity_flag(args[k]) {
            seq![]
        } else {
            seq![args[k]]
        }),
        requested_steps(args.take(k + 1)) == requested_steps(args.take(k)) + flag_steps(args[k]),
    decreases k,
{
    let s = args.take(k + 1);
    if k > 0 {
        let t = args.drop_first();
        assert(s.drop_first() =~= t.take(k));
        assert(args.take(k).drop_first() =~= t.take(k - 1));
        assert(t[k - 1] == args[k]);
        lemma_scan_prefix(t, k - 1);
        assert(s[0] == args[0]);
        assert(args.take(k)[0] == args[0]);
    } else {
        assert(s.drop_first() =~= Seq::<Seq<char>>::empty());
        assert(args.take(0) =~= Seq::<Seq<char>>::empty());
        assert(s[0] == args[0]);
    }
}

/// Where option parsing ends: the first bare `--`, else the end.
pub open spec fn options_end(args: Seq<Seq<char>>) -> int
    decreases args.len(),
{
    if args.len() == 0 {
        0
    } else if args[0] == "--"@ {
        0
    } else {
        1 + options_end(args.drop_first())
    }
}

/// Flag stripping keeps, in order, every argument before the first bare
/// `--` that is not a verbosity flag, then that `--` and everything after
/// it; the steps asked for are those of the flags before it.
pub proof fn lemma_verbosity_split(args: Seq<Seq<char>>)
    ensures
        0 <= options_end(args) <= args.len(),
        kept_args(args) == args.take(options_end(args)).filter(|a: Seq<char>| !is_verbosity_flag(a))
            + args.skip(options_end(args)),
        requested_steps(args) == requested_steps(args.take(options_end(args))),
    decreases args.len(),
{
    let d = options_end(args);
    if args.len() == 0 {
        assert(args.take(0) =~= Seq::<Seq<char>>::empty());
        assert(args.skip(0) =~= args);
        reveal(Seq::filter);
    } else if args[0] == "--"@ {
        assert(args.take(0) =~= Seq::<Seq<char>>::empty());
        assert(args.skip(0) =~= args);
        reveal(Seq::filter);
    } else {
        let t = args.drop_first();
        lemma_verbosity_split(t);
        let dt = options_end(t);
        assert(d == dt + 1);
        let pre = args.take(d);
        assert(pre =~= seq![args[0]] + t.take(dt));
        assert(args.skip(d) =~= t.skip(dt));
        let f = |a: Seq<char>| !is_verbosity_flag(a);
        Seq::filter_distributes_over_add(seq![args[0]], t.take(dt), f);
        reveal(Seq::filter);
        assert(seq![args[0]].drop_last() =~= Seq::<Seq<char>>::empty());
        assert(Seq::<Seq<char>>::empty().filter(f) =~= Seq::<Seq<char>>::empty());
        assert(seq![args[0]].last() == args[0]);
        assert(seq![args[0]].filter(f) == if f(args[0]) {
            seq![args[0]]
        } else {
            Seq::<Seq<char>>::empty()
        });
        assert(pre[0] == args[0]);
        assert(pre.drop_first() =~= t.take(dt));
        if is_verbosity_flag(args[0]) {
            assert(kept_args(args) == kept_args(t));
        } else {
            assert(kept_args(args) == seq![args[0]] + kept_args(t));
        }
    }
}

/// Remove every verbosity flag from `args` and return how many steps were
/// requested (`-v` = 1, `-vv` = 2, `--verbose` = 1, adding up, saturating
/// at `u8::MAX`). A bare `--` ends option parsing: it and everything after
/// it are left untouched.
pub fn parse_verbosity(args: &mut Vec<String>) -> (count: u8)
    ensures
        views(final(args)@) == kept_args(views(old(args)@)),
        count == min_nat(requested_steps(views(old(args)@)), 255),
{
    let ghost all = views(args@);
    let mut input: Vec<String> = Vec::new();
    std::mem::swap(args, &mut input);
    let mut count: u8 = 0;
    let mut i: usize = 0;
    let mut past_ddash = false;
    let ghost mut stop: int = input@.len() as int;
    while i < input.len()
        invariant
            all == views(input@),
            0 <= i <= input.len(),
            !past_ddash ==> forall|j: int| 0 <= j < i ==> all[j] != "--"@,
            !past_ddash ==> views(args@) == kept_args(all.take(i as int)),
            !past_ddash ==> count == min_nat(requested_steps(all.take(i as int)), 255),
            past_ddash ==> 0 <= stop < i,
            past_ddash ==> forall|j: int| 0 <= j < stop ==> all[j] != "--"@,
            past_ddash ==> all[stop] == "--"@,
            past_ddash ==> views(args@) == kept_args(all.take(stop)) + all.subrange(stop, i as int),
            past_ddash ==> count == min_nat(requested_steps(all.take(stop)), 255),
        decreases input.len() - i,
    {
        let arg = &input[i];
        let cs = chars_of(arg.as_str());
        assert(cs@ == all[i as int]);
        if past_ddash {
            let ghost before = views(args@);
            args.push(arg.clone());
            proof {
                assert(views(args@) =~= before.push(all[i as int]));
                assert(all.subrange(stop, i + 1) =~= all.subrange(stop, i as int).push(all[i as int]));
                assert(views(args@) =~= kept_args(all.take(stop)) + all.subrange(stop, i + 1));
            }
        } else if eq_str(cs.as_slice(), "--") {
            let ghost before = views(args@);
            assert(before == kept_args(all.take(i as int)));
            past_ddash = true;
            proof {
                stop = i as int;
            }
            args.push(arg.clone());
            proof {
                assert(views(args@) =~= before.push(all[i as int]));
                assert(all.subrange(stop, i + 1) =~= seq![all[i as int]]);
                assert(views(args@) =~= kept_args(all.take(stop)) + all.subrange(stop, i + 1));
            }
        } else {
            let steps = verbosity_steps(&cs);
            proof {
                lemma_scan_prefix(all, i as int);
            }
            match steps {
                Some(n) => {
                    count = count.saturating_add(n);
                    proof {
                        assert(views(args@) =~= kept_args(all.take(i + 1)));
                    }
                },
                None => {
                    args.push(arg.clone());
                    proof {
                        assert(views(args@) =~= kept_args(all.take(i + 1)));
                    }
                },
            }
        }
        i += 1;
    }
    proof {
        if past_ddash {
            lemma_scan_step(all, stop);
            assert(all.skip(stop)[0] == "--"@);
            assert(kept_args(all.skip(stop)) == all.skip(stop));
            assert(requested_steps(all.skip(stop)) == 0);
            assert(all.subrange(stop, all.len() as int) =~= all.skip(stop));
        } else {
            assert(all.take(all.len() as int) =~= all);
        }
    }
    count
}

/// `Some(steps)` when `a` is a verbosity flag, `None` otherwise; the steps
/// saturate at `u8::MAX`.
fn verbosity_steps(a: &Vec<char>) -> (r: Option<u8>)
    ensures
        r is Some <==> is_verbosity_flag(a@),
        r matches Some(n) ==> n == min_nat(flag_steps(a@), 255),
{
    if eq_str(a.as_slice(), "--verbose") {
        return Some(1);
    }
    if a.len() < 2 || a[0] != '-' {
        assert(!is_short_flag(a@));
        return None;
    }
    let mut i: usize = 1;
    while i < a.len()
        invariant
            1 <= i <= a.len(),
            a@ != "--verbose"@,
            a@[0] == '-',
            forall|j: int| 1 <= j < i ==> a@[j] == 'v',
        decreases a.len() - i,
    {
        if a[i] != 'v' {
            assert(a@[i as int] != 'v');
            assert(!is_short_flag(a@));
            return None;
        }
        i += 1;
    }
    let m = a.len() - 1;
    if m > 255 {
        Some(255)
    } else {
        Some(m as u8)
    }
}

/// The level a `-v` count selects: none = `Warn`, one = `Info`, two =
/// `Debug`, more = `Trace`.
pub open spec fn spec_level_for_count(verbosity: u8) -> LevelFilter {
    if verbosity == 0 {
        LevelFilter::Warn
    } else if verbosity == 1 {
        LevelFilter::Info
    } else if verbosity == 2 {
        LevelFilter::Debug
    } else {
        LevelFilter::Trace
    }
}

pub fn level_for_count(verbosity: u8) -> (level: LevelFilter)
    ensures
        level == spec_level_for_count(verbosity),
{
    match verbosity {
        0 => LevelFilter::Warn,
        1 => LevelFilter::Info,
        2 => LevelFilter::Debug,
        _ => LevelFilter::Trace,
    }
}

/// `off` / `error` / `warn` (or `warning`) / `info` / `debug` / `trace`,
/// ASCII case-insensitively.
pub open spec fn spec_parse_level(s: Seq<char>) -> Option<LevelFilter> {
    let l = ascii_lower_seq(s);
    if l == "off"@ {
        Some(LevelFilter::Off)
    } else if l == "error"@ {
        Some(LevelFilter::Error)
    } else if l == "warn"@ || l == "warning"@ {
        Some(LevelFilter::Warn)
    } else if l == "info"@ {
        Some(LevelFilter::Info)
    } else if l == "debug"@ {
        Some(LevelFilter::Debug)
    } else if l == "trace"@ {
        Some(LevelFilter::Trace)
    } else {
        None
    }
}

pub fn parse_level(s: &str) -> (r: Option<LevelFilter>)
    ensures
        r == spec_parse_level(s@),
{
    let cs = chars_of(s);
    let l = ascii_lowercase_chars(&cs);
    let l = l.as_slice();
    if eq_str(l, "off") {
        Some(LevelFilter::Off)
    } else if eq_str(l, "error") {
        Some(LevelFilter::Error)
    } else if eq_str(l, "warn") || eq_str(l, "warning") {
        Some(LevelFilter::Warn)
    } else if eq_str(l, "info") {
        Some(LevelFilter::Info)
    } else if eq_str(l, "debug") {
        Some(LevelFilter::Debug)
    } else if eq_str(l, "trace") {
        Some(LevelFilter::Trace)
    } else {
        None
    }
}

/// The level to install: an override naming a valid level (after
/// trimming) wins over the `-v` count, which wins over the `Warn` default.
pub open spec fn spec_effective_level(verbosity: u8, env: Option<Seq<char>>) -> LevelFilter {
    match env {
        Some(v) => match spec_parse_level(trim_seq(v)) {
            Some(l) => l,
            None => spec_level_for_count(verbosity),
        },
        None => spec_level_for_count(verbosity),
    }
}

pub fn effective_level(verbosity: u8, env: Option<&str>) -> (level: LevelFilter)
    ensures
        level == spec_effective_level(verbosity, match env {
            Some(v) => Some(v@),
            None => None,
        }),
{
    let from_count = level_for_count(verbosity);
    match env {
        Some(v) => {
            let t = trim_str(v);
            let t = string_from(t.as_slice());
            match parse_level(t.as_str()) {
                Some(l) => l,
                None => from_count,
            }
        },
        None => from_count,
    }
}

} // verus!
