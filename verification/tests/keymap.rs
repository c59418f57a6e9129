use rhymr_rs::keymap::{accel_from, actions, default_accel, expand, pretty, Keymap, Platform, UNBOUND};

#[test]
fn set_stores_only_real_overrides() {
    let mut km = Keymap::default();
    km.set("save", Some("<Primary><Alt>s")); // == default -> not stored
    assert_eq!(km, Keymap::default());

    km.set("save", Some("<Primary>e"));
    assert_eq!(km.accel("save"), "<Primary>e");

    km.set("save", None); // clear -> back to default
    assert_eq!(km.accel("save"), "<Primary><Alt>s");

    km.set("save", Some(UNBOUND));
    assert_eq!(km.accel("save"), UNBOUND);
}

#[test]
fn conflict_lookup_skips_the_action_itself() {
    let km = Keymap::default();
    // git-push default is <Primary><Shift>k
    assert_eq!(km.action_for_accel("<Primary><Shift>k", "new"), Some("git-push"));
    assert_eq!(km.action_for_accel("<Primary><Shift>k", "git-push"), None);
}

#[test]
fn pretty_is_readable() {
    assert_eq!(pretty("", Platform::Other), "\u{2013}");
    assert_eq!(pretty(UNBOUND, Platform::Other), "Unbound");
    assert_eq!(pretty("<Primary><Shift>k", Platform::Other), "Ctrl+Shift+K");
    assert_eq!(pretty("<Primary>comma", Platform::MacOs), "\u{2318},");
}

#[test]
fn pretty_spells_every_modifier_in_order() {
    assert_eq!(pretty("<Primary><Shift>n", Platform::MacOs), "\u{2318}\u{21e7}N");
    assert_eq!(pretty("<Alt>9", Platform::Other), "Alt+9");
    assert_eq!(pretty("<Control><Alt>period", Platform::Other), "Ctrl+Alt+.");
    assert_eq!(pretty("<Primary>Home", Platform::Other), "Ctrl+Home");
}

#[test]
fn expand_swaps_the_primary_placeholder() {
    assert_eq!(expand("<Primary><Shift>k", Platform::Other), "<Control><Shift>k");
    assert_eq!(expand("<Primary>s", Platform::MacOs), "<Meta>s");
    assert_eq!(expand("<Alt>9", Platform::MacOs), "<Alt>9");
}

#[test]
fn defaults_come_from_the_action_table() {
    assert_eq!(default_accel("new"), Some("<Primary>n"));
    assert_eq!(default_accel("git-log"), Some("<Alt>9"));
    assert_eq!(default_accel("nonsense"), None);
    assert_eq!(actions().len(), 13);
    assert_eq!(Keymap::default().accel("nonsense"), "");
}

#[test]
fn keymap_file_keeps_known_actions_only_and_round_trips() {
    let km = Keymap::parse("key.save = <Primary>e\nkey.bogus=<Alt>x\nsave=<Alt>q\nno equals here\nkey.git-log=none\n");
    assert_eq!(km.accel("save"), "<Primary>e");
    assert_eq!(km.accel("git-log"), "none");
    assert_eq!(km.accel("new"), "<Primary>n");
    let text = km.to_text();
    assert_eq!(text, "key.git-log=none\nkey.save=<Primary>e\n");
    assert_eq!(Keymap::parse(&text), km);
}

#[test]
fn captured_keys_become_stored_accels() {
    assert_eq!(accel_from("k", true, false, false, false, true), Some("<Primary><Shift>k".to_string()));
    assert_eq!(accel_from("x", false, true, true, true, false), Some("<Control><Meta><Alt>x".to_string()));
    assert_eq!(accel_from("k", false, false, false, false, true), None);
    assert_eq!(accel_from("", true, false, false, false, false), None);
}
