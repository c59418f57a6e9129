//! Central home for the paths and intervals that would otherwise be
//! scattered as literals: where per-workspace and per-user state lives. The
//! caller supplies the OS's user config directory.

use vstd::prelude::*;
use crate::setting::spec::SValue;
use crate::setting::{NotesCacheScope, SettingKey, Settings};
use crate::text::{chars_of, extend_str, string_from};

verus! {

/// `name` appended to the path `base` as one more component: a separator
/// goes between them unless `base` is empty or already ends in one.
pub open spec fn spec_join(base: Seq<char>, name: Seq<char>) -> Seq<char> {
    if base.len() == 0 || base.last() == '/' {
        base + name
    } else {
        base + seq!['/'] + name
    }
}

/// `base` joined with the relative component `name`.
pub fn join_path(base: &str, name: &str) -> (r: String)
    ensures
        r@ == spec_join(base@, name@),
{
    let mut out = chars_of(base);
    if out.len() > 0 && out[out.len() - 1] != '/' {
        out.push('/');
    }
    extend_str(&mut out, name);
    string_from(out.as_slice())
}

/// Per-workspace config/cache directory (`<workspace>/.rhymr/`), created
/// lazily by callers that write into it.
pub fn workspace_dir(workspace_root: &str) -> (r: String)
    ensures
        r@ == spec_join(workspace_root@, ".rhymr"@),
{
    join_path(workspace_root, ".rhymr")
}

/// `<config dir>/rhymr/`, or `None` when the OS reports no config dir.
pub fn user_config_dir(config_dir: Option<&str>) -> (r: Option<String>)
    ensures
        match config_dir {
            Some(c) => r matches Some(p) && p@ == spec_join(c@, "rhymr"@),
            None => r is None,
        },
{
    match config_dir {
        Some(c) => Some(join_path(c, "rhymr")),
        None => None,
    }
}

/// Where the Apple Notes JSON snapshot lives, per the user's
/// [`NotesCacheScope`]: `<workspace>/.rhymr/apple-notes.json` per project,
/// or `<config dir>/rhymr/apple-notes.json` shared. `None` for `Workspace`
/// when no workspace is loaded, or for `User` when there is no config dir.
pub fn apple_notes_cache(
    workspace_root: Option<&str>,
    scope: NotesCacheScope,
    config_dir: Option<&str>,
) -> (r: Option<String>)
    ensures
        match scope {
            NotesCacheScope::User => match config_dir {
                Some(c) => r matches Some(p) && p@ == spec_join(
                    spec_join(c@, "rhymr"@),
                    "apple-notes.json"@,
                ),
                None => r is None,
            },
            NotesCacheScope::Workspace => match workspace_root {
                Some(w) => r matches Some(p) && p@ == spec_join(
                    spec_join(w@, ".rhymr"@),
                    "apple-notes.json"@,
                ),
                None => r is None,
            },
        },
{
    match scope {
        NotesCacheScope::User => match user_config_dir(config_dir) {
            Some(d) => Some(join_path(d.as_str(), "apple-notes.json")),
            None => None,
        },
        NotesCacheScope::Workspace => match workspace_root {
            Some(w) => {
                let d = workspace_dir(w);
                Some(join_path(d.as_str(), "apple-notes.json"))
            },
            None => None,
        },
    }
}

/// `<config dir>/rhymr/session.json` — per-workspace view state remembered
/// across launches. `None` when there is no config dir.
pub fn session_file(config_dir: Option<&str>) -> (r: Option<String>)
    ensures
        match config_dir {
            Some(c) => r matches Some(p) && p@ == spec_join(
                spec_join(c@, "rhymr"@),
                "session.json"@,
            ),
            None => r is None,
        },
{
    match user_config_dir(config_dir) {
        Some(d) => Some(join_path(d.as_str(), "session.json")),
        None => None,
    }
}

/// `<config dir>/rhymr/dock_layout.json`: the tool-window layout, kept
/// for every workspace alike. `None` when there is no config dir.
pub fn dock_layout_file(config_dir: Option<&str>) -> (r: Option<String>)
    ensures
        match config_dir {
            Some(c) => r matches Some(p) && p@ == spec_join(
                spec_join(c@, "rhymr"@),
                "dock_layout.json"@,
            ),
            None => r is None,
        },
{
    match user_config_dir(config_dir) {
        Some(d) => Some(join_path(d.as_str(), "dock_layout.json")),
        None => None,
    }
}

/// How often, in seconds, the Apple Notes tree re-reads from the Notes app:
/// the `apple_notes_refresh_secs` setting (300 unless the settings file
/// says otherwise), widened for the timer.
pub fn apple_notes_refresh(settings: &Settings) -> (secs: u64)
    ensures
        secs == settings.apple_notes_refresh_secs,
        settings@.values[SettingKey::AppleNotesRefreshSecs] == SValue::Int(secs as int),
{
    proof {
        crate::setting::lemma_interval_fields(settings);
    }
    settings.apple_notes_refresh_secs as u64
}

/// Cap, in seconds, on a single Rhyme Search lookup: the
/// `rhyme_lookup_timeout_secs` setting (8 unless the settings file says
/// otherwise), widened for the timer.
pub fn rhyme_lookup_timeout(settings: &Settings) -> (secs: u64)
    ensures
        secs == settings.rhyme_lookup_timeout_secs,
        settings@.values[SettingKey::RhymeLookupTimeoutSecs] == SValue::Int(secs as int),
{
    proof {
        crate::setting::lemma_interval_fields(settings);
    }
    settings.rhyme_lookup_timeout_secs as u64
}

} // verus!
