use rhymr_rs::dock::{Anchor, DockLayout, WindowState};
use rhymr_rs::dock_area::{bottom_split, DockArea, MAX_SIZE, MIN_SIZE};

fn key(s: &str) -> Vec<char> {
    s.chars().collect()
}

fn saved(d: &DockArea, id: &str) -> WindowState {
    d.persist().windows.get(&key(id)).cloned().expect("window is saved")
}

fn three_windows() -> DockArea {
    let mut d = DockArea::new();
    d.register("project", Anchor::Left, 260, true);
    d.register("outline", Anchor::Left, 50, false);
    d.register("rhymes", Anchor::Right, 5000, false);
    d
}

#[test]
fn register_clamps_the_default_extent_and_starts_closed() {
    let d = three_windows();
    assert_eq!(saved(&d, "project").size, 260);
    assert_eq!(saved(&d, "outline").size, MIN_SIZE);
    assert_eq!(saved(&d, "rhymes").size, MAX_SIZE);
    assert!(!d.is_open("project"));
    assert!(!d.is_open("nope"));
    assert_eq!(saved(&d, "rhymes").anchor, "right");
    assert_eq!(d.persist().windows.len(), 3);
}

#[test]
fn showing_a_window_hides_the_other_one_on_its_edge() {
    let mut d = three_windows();
    d.set_open("project", true, 0);
    d.set_open("rhymes", true, 0);
    assert!(d.is_open("project") && d.is_open("rhymes"));
    d.set_open("outline", true, 0);
    assert!(d.is_open("outline"));
    assert!(!d.is_open("project"));
    assert!(d.is_open("rhymes"));
}

#[test]
fn hiding_an_open_window_remembers_the_clamped_extent() {
    let mut d = three_windows();
    d.set_open("project", true, 0);
    d.set_open("project", false, 5000);
    assert!(!d.is_open("project"));
    assert_eq!(saved(&d, "project").size, MAX_SIZE);
    // Hiding a window that is already hidden keeps its extent.
    d.set_open("project", false, 300);
    assert_eq!(saved(&d, "project").size, MAX_SIZE);
    // An unknown id changes nothing.
    d.set_open("nope", true, 300);
    assert_eq!(d.persist().windows.len(), 3);
}

#[test]
fn toggle_flips_a_window() {
    let mut d = three_windows();
    d.toggle("rhymes", 0);
    assert!(d.is_open("rhymes"));
    d.toggle("rhymes", 400);
    assert!(!d.is_open("rhymes"));
    assert_eq!(saved(&d, "rhymes").size, 400);
}

#[test]
fn restore_applies_a_saved_layout_else_the_defaults() {
    let mut d = three_windows();
    let mut layout = DockLayout::default();
    layout.windows.insert("outline".to_string(), WindowState { anchor: "left".to_string(), size: 99999, open: true });
    d.restore(&layout);
    // "project" falls back to its defaults and opens; "outline" comes from
    // the file and opens after it, which hides "project": one per edge.
    assert_eq!(saved(&d, "outline").size, MAX_SIZE);
    assert_eq!(saved(&d, "project").size, 260);
    assert!(d.is_open("outline"));
    assert!(!d.is_open("project"));
    assert!(!d.is_open("rhymes"));
}

#[test]
fn a_persisted_layout_restores_the_same_state() {
    let mut d = three_windows();
    d.set_open("outline", true, 0);
    d.set_open("outline", false, 333);
    d.set_open("rhymes", true, 0);
    d.on_splitter_moved(Anchor::Right, 456);
    let layout = d.persist();

    let mut fresh = three_windows();
    fresh.restore(&layout);
    assert_eq!(fresh.persist(), layout);
    assert!(fresh.is_open("rhymes"));
    assert!(!fresh.is_open("outline"));
    assert_eq!(saved(&fresh, "outline").size, 333);
    assert_eq!(saved(&fresh, "rhymes").size, 456);
}

#[test]
fn restore_default_layout_resets_extents_and_open_windows() {
    let mut d = three_windows();
    d.set_open("rhymes", true, 0);
    d.on_splitter_moved(Anchor::Right, 700);
    d.set_open("outline", true, 0);
    d.restore_default_layout();
    assert!(d.is_open("project"));
    assert!(!d.is_open("outline"));
    assert!(!d.is_open("rhymes"));
    assert_eq!(saved(&d, "rhymes").size, MAX_SIZE);
    assert_eq!(saved(&d, "project").size, 260);
}

#[test]
fn a_splitter_only_resizes_the_open_window_on_its_edge() {
    let mut d = three_windows();
    assert!(!d.on_splitter_moved(Anchor::Left, 500));
    assert_eq!(saved(&d, "project").size, 260);
    d.set_open("project", true, 0);
    assert!(d.on_splitter_moved(Anchor::Left, 10));
    assert_eq!(saved(&d, "project").size, MIN_SIZE);
    assert_eq!(saved(&d, "outline").size, MIN_SIZE);
    assert!(!d.on_splitter_moved(Anchor::Bottom, 300));
    assert_eq!(saved(&d, "rhymes").size, MAX_SIZE);
}

#[test]
fn the_bottom_dock_opens_at_the_remembered_height_and_remembers_on_close() {
    // Opening: the divider sits the remembered height above the bottom.
    assert_eq!(bottom_split(800, 0, 200, true), (Some(600), 200));
    // A short window counts as 400 px; the divider never goes above 120.
    assert_eq!(bottom_split(300, 0, 200, true), (Some(200), 200));
    assert_eq!(bottom_split(800, 0, 750, true), (Some(120), 750));
    // Closing remembers the panel's height, kept within bounds.
    assert_eq!(bottom_split(800, 550, 200, false), (None, 250));
    assert_eq!(bottom_split(800, 750, 200, false), (None, 120));
    assert_eq!(bottom_split(800, 10, 200, false), (None, 740));
    // Nothing to remember in a tiny window.
    assert_eq!(bottom_split(100, 50, 200, false), (None, 200));
}
