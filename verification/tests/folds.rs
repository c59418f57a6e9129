use rhymr_rs::source::folds::{folder_key, folder_keys, section_key, Folds};
use rhymr_rs::source::model::{SourceFolder, SourceTree};

fn folder(name: &str, folders: Vec<SourceFolder>) -> SourceFolder {
    SourceFolder { name: name.to_string(), folders, docs: Vec::new() }
}

fn tree() -> SourceTree {
    SourceTree {
        folders: vec![
            folder("Lyrics", vec![folder("Drafts", vec![]), folder("Done", vec![folder("2024", vec![])])]),
            folder("Ideas", vec![]),
        ],
        docs: Vec::new(),
    }
}

#[test]
fn keys_name_the_source_and_the_folder() {
    assert_eq!(section_key("apple-notes"), "\u{1}apple-notes");
    assert_eq!(folder_key("apple-notes", "Lyrics"), "apple-notes\u{1f}Lyrics");
    let keys = folder_keys("n", &tree());
    assert_eq!(keys, vec!["n\u{1f}Lyrics", "n\u{1f}Drafts", "n\u{1f}Done", "n\u{1f}2024", "n\u{1f}Ideas"]);
    assert!(folder_keys("n", &SourceTree::default()).is_empty());
}

#[test]
fn a_row_toggles_and_toggles_back() {
    let mut f = Folds::new();
    assert!(!f.is_collapsed("n\u{1f}Ideas"));
    f.toggle(folder_key("n", "Ideas"));
    assert!(f.is_collapsed("n\u{1f}Ideas"));
    f.toggle(folder_key("n", "Ideas"));
    assert!(!f.is_collapsed("n\u{1f}Ideas"));
}

#[test]
fn collapse_all_folds_the_folders_and_expand_all_unfolds_the_source() {
    let mut f = Folds::new();
    f.toggle(section_key("n"));
    f.toggle(folder_key("other", "Lyrics"));
    f.collapse_all("n", &tree());
    assert!(f.is_collapsed("n\u{1f}2024"));
    assert!(f.is_collapsed("n\u{1f}Lyrics"));
    assert!(f.is_collapsed("\u{1}n"));
    f.expand_all("n", &tree());
    for k in folder_keys("n", &tree()) {
        assert!(!f.is_collapsed(&k));
    }
    assert!(!f.is_collapsed("\u{1}n"));
    // Another source's rows stay as they were.
    assert!(f.is_collapsed("other\u{1f}Lyrics"));
}
