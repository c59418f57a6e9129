use rhymr_rs::tabs::{any_unmodified_tabs, nav_segments, truncate_tab_name, OpenTabs, MAX_TAB_CHARS};
use std::path::Path;

fn p(s: &str) -> Vec<String> {
    Path::new(s)
        .components()
        .map(|c| c.as_os_str().to_string_lossy().into_owned())
        .collect()
}

fn tabs_of(paths: &[&str]) -> OpenTabs {
    let mut t = OpenTabs::new();
    for s in paths {
        t.push(p(s));
    }
    t
}

fn paths(t: &OpenTabs) -> Vec<Vec<String>> {
    (0..t.len()).map(|i| t.path(i)).collect()
}

#[test]
fn short_tab_names_stand_as_they_are() {
    assert_eq!(truncate_tab_name("notes.txt"), "notes.txt");
    let exact = "abcdefghijklmnopqr";
    assert_eq!(exact.chars().count(), MAX_TAB_CHARS);
    assert_eq!(truncate_tab_name(exact), exact);
    assert_eq!(truncate_tab_name(""), "");
}

#[test]
fn long_tab_names_break_on_the_last_space() {
    assert_eq!(truncate_tab_name("a very long file name.txt"), "a very long file\u{2026}");
    assert_eq!(truncate_tab_name("abcdefghijklmnopqrstuvwxyz"), "abcdefghijklmnopqr\u{2026}");
    // A space in the first half is no place to break.
    assert_eq!(truncate_tab_name("ab cdefghijklmnopqrstuv"), "ab cdefghijklmnopq\u{2026}");
    // Trailing white space before the cut goes.
    assert_eq!(truncate_tab_name("abcdefghijklmnop   xyz"), "abcdefghijklmnop\u{2026}");
}

#[test]
fn the_half_way_mark_counts_bytes() {
    // Five two-byte letters put the space at byte 10, past half of 18.
    assert_eq!(truncate_tab_name("\u{e9}\u{e9}\u{e9}\u{e9}\u{e9} ghijklmnopqrstuvwxyz"), "\u{e9}\u{e9}\u{e9}\u{e9}\u{e9}\u{2026}");
    // Five one-byte letters do not.
    assert_eq!(truncate_tab_name("eeeee ghijklmnopqrstuvwxyz"), "eeeee ghijklmnopqr\u{2026}");
}

#[test]
fn opening_a_path_twice_finds_its_tab() {
    let mut t = tabs_of(&["/w/a.txt", "/w/b.txt"]);
    assert_eq!(t.position(&p("/w/b.txt")), Some(1));
    assert_eq!(t.position(&p("/w/b.txt/")), Some(1));
    assert_eq!(t.position(&p("/w/c.txt")), None);
    assert_eq!(t.push(p("/w/c.txt")), 2);
    t.remove(0);
    assert_eq!(paths(&t), vec![p("/w/b.txt"), p("/w/c.txt")]);
    t.set_path(1, p("/w/d.txt"));
    t.set_path(7, p("/w/e.txt"));
    assert_eq!(paths(&t), vec![p("/w/b.txt"), p("/w/d.txt")]);
}

#[test]
fn deleting_a_folder_closes_its_tabs_from_the_highest_page_down() {
    let mut t = tabs_of(&["/w/dir/a.txt", "/w/dirt.txt", "/w/dir", "/w/x.txt", "/w/dir/sub/b.txt"]);
    let closed = t.close_paths_under(&p("/w/dir"));
    assert_eq!(closed, vec![4, 2, 0]);
    assert_eq!(paths(&t), vec![p("/w/dirt.txt"), p("/w/x.txt")]);
}

#[test]
fn renaming_a_folder_retargets_the_tabs_inside_it() {
    let mut t = tabs_of(&["/w/dir/a.txt", "/w/dirt.txt", "/w/dir", "/w/dir/sub/b.txt"]);
    let touched = t.rename_path(&p("/w/dir"), &p("/w/new"));
    assert_eq!(touched, vec![0, 2, 3]);
    assert_eq!(
        paths(&t),
        vec![p("/w/new/a.txt"), p("/w/dirt.txt"), p("/w/new"), p("/w/new/sub/b.txt")]
    );
    let touched = t.rename_path(&p("/w/dirt.txt"), &p("/w/song.txt"));
    assert_eq!(touched, vec![1]);
    assert_eq!(t.path(1), p("/w/song.txt"));
}

#[test]
fn closing_other_tabs_keeps_one() {
    let mut t = tabs_of(&["/a", "/b", "/c", "/d"]);
    assert_eq!(t.close_other_tabs(1), vec![3, 2, 0]);
    assert_eq!(paths(&t), vec![p("/b")]);
    let mut t = tabs_of(&["/a", "/b"]);
    assert_eq!(t.close_other_tabs(5), vec![1, 0]);
    assert_eq!(t.len(), 0);
}

#[test]
fn closing_tabs_to_the_left() {
    let mut t = tabs_of(&["/a", "/b", "/c", "/d"]);
    assert_eq!(t.close_tabs_to_left(2), vec![1, 0]);
    assert_eq!(paths(&t), vec![p("/c"), p("/d")]);
    assert_eq!(t.close_tabs_to_left(9), vec![1, 0]);
    assert_eq!(t.len(), 0);
}

#[test]
fn closing_unmodified_tabs() {
    let mut t = tabs_of(&["/a", "/b", "/c"]);
    let modified = vec![false, true, false];
    assert!(any_unmodified_tabs(&modified));
    assert!(!any_unmodified_tabs(&[true, true]));
    assert_eq!(t.close_unmodified_tabs(&modified), vec![2, 0]);
    assert_eq!(paths(&t), vec![p("/b")]);
}

#[test]
fn the_first_text_file_in_sorted_order_opens() {
    let names = |xs: &[&str]| xs.iter().map(|s| s.to_string()).collect::<Vec<_>>();
    assert_eq!(rhymr_rs::tabs::first_text_file(&names(&["b.txt", "a.md", "c.TXT", "a.txt"])), Some(3));
    assert_eq!(rhymr_rs::tabs::first_text_file(&names(&["Z.Txt", "a.txt"])), Some(0));
    // A leading dot opens the name; it is no extension.
    assert_eq!(rhymr_rs::tabs::first_text_file(&names(&[".txt", "notes"])), None);
    assert_eq!(rhymr_rs::tabs::first_text_file(&names(&["..txt"])), Some(0));
    assert_eq!(rhymr_rs::tabs::first_text_file(&names(&["song.txt.bak", "x.text"])), None);
    assert_eq!(rhymr_rs::tabs::first_text_file(&Vec::new()), None);
}

#[test]
fn new_files_and_folders_take_the_first_free_name() {
    let names = |xs: &[&str]| xs.iter().map(|s| s.to_string()).collect::<Vec<_>>();
    assert_eq!(rhymr_rs::tabs::fresh_name("Untitled", ".txt", &names(&["a.txt"])), "Untitled.txt");
    assert_eq!(
        rhymr_rs::tabs::fresh_name("Untitled", ".txt", &names(&["Untitled.txt", "Untitled 2.txt", "Untitled 4.txt"])),
        "Untitled 3.txt"
    );
    assert_eq!(rhymr_rs::tabs::fresh_name("New Folder", "", &names(&["New Folder"])), "New Folder 2");
    let many: Vec<String> = std::iter::once("Untitled.txt".to_string())
        .chain((2..=12).map(|n| format!("Untitled {n}.txt")))
        .collect();
    assert_eq!(rhymr_rs::tabs::fresh_name("Untitled", ".txt", &many), "Untitled 13.txt");
}

#[test]
fn the_navigation_bar_shows_the_workspace_then_the_file() {
    let root = p("/home/u/lyrics");
    assert_eq!(nav_segments(Some(&root), None), vec!["lyrics"]);
    assert_eq!(nav_segments(Some(&root), Some(&p("/home/u/lyrics/album/song.txt"))), vec!["lyrics", "album", "song"]);
    // Outside the workspace: the file's name alone.
    assert_eq!(nav_segments(Some(&root), Some(&p("/tmp/draft.txt"))), vec!["lyrics", "draft"]);
    assert_eq!(nav_segments(None, Some(&p("/tmp/notes.md"))), vec!["notes.md"]);
    // Only a trailing `.txt` goes.
    assert_eq!(nav_segments(None, Some(&p("/tmp/a.txt.bak"))), vec!["a.txt.bak"]);
    assert_eq!(nav_segments(None, Some(&p("/tmp/.txt"))), vec![""]);
    assert!(nav_segments(None, None).is_empty());
    assert_eq!(nav_segments(Some(&p("/")), None), Vec::<String>::new());
}
