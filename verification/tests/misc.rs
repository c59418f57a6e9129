use rhymr_rs::config::{apple_notes_cache, dock_layout_file, apple_notes_refresh, join_path, rhyme_lookup_timeout, session_file, workspace_dir};
use rhymr_rs::dock::{Anchor, DockLayout, WindowState};
use rhymr_rs::git::{all_added, classify_status, detached_head, group_ref_labels, ref_kind, RefEntry, RefKind, fetch_summary, hunk_changes, parse_author, pull_step, push_refspec, push_summary, GitController, GitFileStatus, Hunk, LineChange, PullStep};
use rhymr_rs::platform::{fetch_apple_notes, parse_note_records};
use rhymr_rs::session::{load, update, WorkspaceSession};
use rhymr_rs::setting::NotesCacheScope;
use rhymr_rs::source::apple_notes::{doc_id, AppleNotesSource};
use rhymr_rs::source::model::{DocId, SourceError, SourceStatus, SourceTree};
use rhymr_rs::source::registry::SourceRegistry;
use rhymr_rs::source::TextSource;
use rhymr_rs::strmap::StrMap;
use rhymr_rs::terminal::{encode_key, resize_target, GridSize, Proxy, TermEvent, TermKey, TerminalError};
use rhymr_rs::version::display;

#[test]
fn anchors_round_trip_and_fall_back() {
    for a in [Anchor::Left, Anchor::Right, Anchor::Bottom] {
        assert_eq!(Anchor::parse(a.as_str(), Anchor::Left), a);
    }
    assert_eq!(Anchor::parse("top", Anchor::Bottom), Anchor::Bottom);
    let mut layout = DockLayout::default();
    layout.windows.insert("project".to_string(), WindowState { anchor: "left".to_string(), size: 240, open: true });
    assert_eq!(layout.windows.len(), 1);
}

#[test]
fn paths_join_like_the_os_does() {
    assert_eq!(workspace_dir("/home/u/lyrics"), "/home/u/lyrics/.rhymr");
    assert_eq!(workspace_dir("/home/u/lyrics/"), "/home/u/lyrics/.rhymr");
    assert_eq!(join_path("", "x"), "x");
    assert_eq!(
        apple_notes_cache(Some("/w"), NotesCacheScope::Workspace, Some("/cfg")),
        Some("/w/.rhymr/apple-notes.json".to_string())
    );
    assert_eq!(
        apple_notes_cache(None, NotesCacheScope::User, Some("/cfg")),
        Some("/cfg/rhymr/apple-notes.json".to_string())
    );
    assert_eq!(apple_notes_cache(None, NotesCacheScope::Workspace, Some("/cfg")), None);
    assert_eq!(apple_notes_cache(Some("/w"), NotesCacheScope::User, None), None);
    assert_eq!(session_file(Some("/cfg")), Some("/cfg/rhymr/session.json".to_string()));
    assert_eq!(session_file(None), None);
    let mut settings = rhymr_rs::setting::Settings::default();
    assert_eq!(apple_notes_refresh(&settings), 300);
    assert_eq!(rhyme_lookup_timeout(&settings), 8);
    rhymr_rs::setting::parse_into(&mut settings, "apple_notes_refresh_secs=120\nrhyme_lookup_timeout_secs=99\n");
    assert_eq!(apple_notes_refresh(&settings), 120);
    assert_eq!(rhyme_lookup_timeout(&settings), 60);
}

#[test]
fn authors_parse_or_fall_back() {
    assert_eq!(parse_author("Pneuma <pneuma@local>"), ("Pneuma".to_string(), "pneuma@local".to_string()));
    assert_eq!(parse_author("  Ann Lee   < ann@x.org>> "), ("Ann Lee".to_string(), "ann@x.org>>".to_string()));
    assert_eq!(parse_author("Ann Lee <ann@x.org>>"), ("Ann Lee".to_string(), "ann@x.org".to_string()));
    assert_eq!(parse_author("no email"), ("Rhymr".to_string(), "rhymr@local".to_string()));
    assert_eq!(parse_author("<only@email>"), ("Rhymr".to_string(), "rhymr@local".to_string()));
}

#[test]
fn hunks_become_gutter_marks() {
    let marks = hunk_changes(&[
        Hunk { new_start: 3, new_lines: 2, old_lines: 0 },
        Hunk { new_start: 10, new_lines: 1, old_lines: 4 },
        Hunk { new_start: 0, new_lines: 0, old_lines: 2 },
        Hunk { new_start: 3, new_lines: 0, old_lines: 1 },
    ]);
    assert_eq!(marks.len(), 4);
    assert_eq!(marks[&2], LineChange::Added);
    assert_eq!(marks[&3], LineChange::Added);
    assert_eq!(marks[&9], LineChange::Modified);
    assert_eq!(marks[&0], LineChange::Deleted);
    let fresh = all_added(3);
    assert_eq!(fresh.len(), 3);
    assert_eq!(fresh[&2], LineChange::Added);
}

#[test]
fn statuses_bucket_in_priority_order() {
    assert_eq!(classify_status(false, true, true, true), Some(GitFileStatus::New));
    assert_eq!(classify_status(false, false, true, true), Some(GitFileStatus::Renamed));
    assert_eq!(classify_status(false, false, false, true), Some(GitFileStatus::Modified));
    assert_eq!(classify_status(true, true, false, false), None);
    assert_eq!(classify_status(false, false, false, false), None);
}

#[test]
fn fetch_reports_read_as_sentences() {
    assert_eq!(fetch_summary(0, "origin"), "Already up to date.");
    assert_eq!(fetch_summary(12, "origin"), "Fetched 12 object(s) from origin.");
    let g = GitController::new("/repo");
    assert_eq!(g.repo_path(), "/repo");
}

#[test]
fn sessions_load_defaults_and_report_changes() {
    let mut sessions: StrMap<WorkspaceSession> = StrMap::new();
    let fresh = load(&sessions, "/a");
    assert!(fresh.collapsed_dirs.is_empty());
    assert_eq!(fresh.collapsed_sources, None);
    assert!(!update(&mut sessions, "/a", fresh.duplicate()));
    let mut edited = load(&sessions, "/a");
    edited.collapsed_dirs.push("src".to_string());
    edited.left_panel_width = Some(300);
    assert!(update(&mut sessions, "/a", edited));
    let back = load(&sessions, "/a");
    assert_eq!(back.collapsed_dirs, vec!["src".to_string()]);
    assert_eq!(back.left_panel_width, Some(300));
    assert!(load(&sessions, "/b").collapsed_dirs.is_empty());
}

#[test]
fn apple_notes_source_basics() {
    let mut src = AppleNotesSource::new(false);
    assert_eq!(src.id(), "apple-notes");
    assert_eq!(src.label(), "Apple Notes");
    assert_eq!(src.status(), SourceStatus::Unavailable("Apple Notes is macOS only".to_string()));
    assert!(src.requires_install());
    assert_eq!(src.cache_path(NotesCacheScope::Workspace, Some("/cfg")), None);
    src.set_workspace(Some("/w"));
    assert_eq!(src.cache_path(NotesCacheScope::Workspace, Some("/cfg")), Some("/w/.rhymr/apple-notes.json".to_string()));
    assert_eq!(src.document_text(&DocId("Notes\u{1f}x".to_string())), None);
    assert_eq!(doc_id("Notes", "Song").0, "Notes\u{1f}Song");
    assert_eq!(AppleNotesSource::new(true).status(), SourceStatus::Ready);
    assert_eq!(SourceRegistry::with_defaults(false).sources().len(), 0);
    assert_eq!(SourceRegistry::with_defaults(true).sources().len(), 1);
    assert!(SourceTree::default().is_empty());
    assert_eq!(SourceError::Io("boom".to_string()).message(), "i/o error: boom");
    assert_eq!(SourceError::Unsupported.message(), "not supported on this platform");
    assert_eq!(fetch_apple_notes(), Ok(Vec::new()));
}

#[test]
fn terminal_geometry_and_events() {
    assert_eq!(GridSize::clamped(0, 0), GridSize { cols: 2, rows: 1 });
    let cur = GridSize { cols: 80, rows: 24 };
    assert_eq!(resize_target(cur, 80, 24), None);
    assert_eq!(resize_target(cur, 1, 30), Some(GridSize { cols: 2, rows: 30 }));
    let mut p = Proxy::new();
    // A fresh session paints on its first poll.
    assert!(p.dirty);
    assert!(p.take_dirty());
    assert_eq!(p.send_event(TermEvent::Title("vim".to_string())), None);
    assert_eq!(p.title, "vim");
    assert_eq!(p.send_event(TermEvent::PtyWrite("\x1b[0n".to_string())), Some("\x1b[0n".to_string()));
    assert!(p.take_dirty());
    assert!(!p.take_dirty());
    p.send_event(TermEvent::ChildExit(0));
    assert!(p.exited);
    p.send_event(TermEvent::ResetTitle);
    assert_eq!(p.title, "");
    assert_eq!(TerminalError::Spawn("no shell".to_string()).message(), "could not start the shell: no shell");
}

#[test]
fn version_display_has_a_v_prefix() {
    assert_eq!(display("0.24.0"), "v0.24.0");
}

#[test]
fn notes_become_a_sorted_folder_tree() {
    let mut source = AppleNotesSource::new(true);
    let rows = vec![
        ("Work".to_string(), "zeta".to_string(), "z body".to_string()),
        ("  ".to_string(), "Beta".to_string(), "b body".to_string()),
        ("Work".to_string(), "Alpha".to_string(), "a body".to_string()),
        ("archive".to_string(), "  ".to_string(), "u body".to_string()),
        ("Work".to_string(), "alpha".to_string(), "second".to_string()),
    ];
    let tree = source.ingest(rows);
    assert!(tree.docs.is_empty());
    let names: Vec<&str> = tree.folders.iter().map(|f| f.name.as_str()).collect();
    assert_eq!(names, vec!["archive", "Notes", "Work"]);
    let work: Vec<&str> = tree.folders[2].docs.iter().map(|d| d.title.as_str()).collect();
    assert_eq!(work, vec!["Alpha", "alpha", "zeta"]);
    assert_eq!(tree.folders[0].docs[0].title, "Untitled");
    assert_eq!(tree.folders[1].docs[0].id, doc_id("Notes", "Beta"));
    assert_eq!(source.document_text(&doc_id("Work", "zeta")), Some("z body".to_string()));
    assert_eq!(source.document_text(&DocId("Work\u{1f}Beta".to_string())), None);
}

#[test]
fn notes_script_output_parses_into_rows() {
    let raw = "Songs\u{1f} Verse/One \u{1f} la la \u{1e}\u{1e}Drafts\u{1f}\u{1f}no title\u{1e}a/b\u{1f}t\u{1e}x\u{1f}y\u{1f}b\u{1f}c";
    let rows = parse_note_records(raw);
    assert_eq!(
        rows,
        vec![
            ("Songs".to_string(), "Verse_One".to_string(), "la la".to_string()),
            ("a_b".to_string(), "t".to_string(), String::new()),
            ("x".to_string(), "y".to_string(), "b\u{1f}c".to_string()),
        ]
    );
    assert!(parse_note_records("").is_empty());
    assert!(parse_note_records("only a folder\u{1e}").is_empty());
}

#[test]
fn keys_encode_to_terminal_bytes() {
    assert_eq!(encode_key(TermKey::Return, false, false, false), Some(vec![13]));
    assert_eq!(encode_key(TermKey::Up, false, false, false), Some(b"\x1b[A".to_vec()));
    assert_eq!(encode_key(TermKey::Up, false, false, true), Some(b"\x1bOA".to_vec()));
    assert_eq!(encode_key(TermKey::PageDown, true, true, false), Some(b"\x1b[6~".to_vec()));
    assert_eq!(encode_key(TermKey::Char('c'), true, false, false), Some(vec![3]));
    assert_eq!(encode_key(TermKey::Char('C'), true, true, false), Some(vec![0x1b, 3]));
    assert_eq!(encode_key(TermKey::Char('['), true, false, false), Some(vec![0x1b]));
    assert_eq!(encode_key(TermKey::Char('1'), true, false, false), Some(b"1".to_vec()));
    assert_eq!(encode_key(TermKey::Char('é'), false, false, false), Some("é".as_bytes().to_vec()));
    assert_eq!(encode_key(TermKey::Char('€'), false, true, false), Some([&[0x1b][..], "€".as_bytes()].concat()));
    assert_eq!(encode_key(TermKey::Char('😀'), false, false, false), Some("😀".as_bytes().to_vec()));
    assert_eq!(encode_key(TermKey::Other, true, true, true), None);
}

#[test]
fn pulls_fast_forward_or_report() {
    match pull_step("main", "origin", true, true) {
        Ok(PullStep::UpToDate(m)) => assert_eq!(m, "Already up to date."),
        _ => panic!("up to date expected"),
    }
    match pull_step("main", "origin", false, true) {
        Ok(PullStep::FastForward { refname, message }) => {
            assert_eq!(refname, "refs/heads/main");
            assert_eq!(message, "Fast-forwarded 'main' to origin/main.");
        }
        _ => panic!("fast-forward expected"),
    }
    match pull_step("dev", "up", false, false) {
        Err(e) => assert_eq!(e, "'dev' has diverged from up/dev \u{2014} can't fast-forward. Resolve manually."),
        _ => panic!("divergence expected"),
    }
    assert_eq!(push_refspec("main"), "refs/heads/main:refs/heads/main");
    assert_eq!(push_summary("main", "origin"), "Pushed 'main' to origin.");
    assert_eq!(detached_head("push"), "Detached HEAD \u{2014} can't push");
}

#[test]
fn ref_chips_group_by_commit_with_head_last() {
    assert_eq!(ref_kind(true, true, true), Some(RefKind::LocalBranch));
    assert_eq!(ref_kind(false, true, true), Some(RefKind::RemoteBranch));
    assert_eq!(ref_kind(false, false, true), Some(RefKind::Tag));
    assert_eq!(ref_kind(false, false, false), None);
    let e = |c: &str, k: RefKind, n: &str| RefEntry { commit: c.to_string(), kind: k, name: n.to_string() };
    let refs = vec![
        e("aaa", RefKind::LocalBranch, "main"),
        e("bbb", RefKind::Tag, "v1"),
        e("aaa", RefKind::RemoteBranch, "origin/main"),
        e("ccc", RefKind::Tag, ""),
    ];
    let map = group_ref_labels(&refs, Some("aaa".to_string()));
    assert_eq!(map.len(), 2);
    let (id, labels) = map.entry(0);
    assert_eq!(id, "aaa");
    let got: Vec<(&str, RefKind)> = labels.iter().map(|l| (l.name.as_str(), l.kind)).collect();
    assert_eq!(got, vec![("main", RefKind::LocalBranch), ("origin/main", RefKind::RemoteBranch), ("HEAD", RefKind::Head)]);
    let (id, labels) = map.entry(1);
    assert_eq!(id, "bbb");
    assert_eq!(labels.len(), 1);
}

#[test]
fn the_dock_layout_lives_beside_the_session_file() {
    assert_eq!(dock_layout_file(Some("/home/u/.config")), Some("/home/u/.config/rhymr/dock_layout.json".to_string()));
    assert_eq!(dock_layout_file(None), None);
}
