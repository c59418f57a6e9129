use rhymr_rs::logging::{effective_level, level_for_count, parse_level, parse_verbosity, LevelFilter};

fn strip(input: &[&str]) -> (u8, Vec<String>) {
    let mut args: Vec<String> = input.iter().map(|s| s.to_string()).collect();
    let count = parse_verbosity(&mut args);
    (count, args)
}

#[test]
fn no_flags_leaves_argv_untouched() {
    let (count, rest) = strip(&["rhymr", "/some/folder"]);
    assert_eq!(count, 0);
    assert_eq!(rest, ["rhymr", "/some/folder"]);
}

#[test]
fn counts_and_removes_short_and_long_flags() {
    let (count, rest) = strip(&["rhymr", "-v", "--verbose", "-vv", "proj"]);
    assert_eq!(count, 4);
    assert_eq!(rest, ["rhymr", "proj"]);
}

#[test]
fn double_dash_ends_option_parsing() {
    let (count, rest) = strip(&["rhymr", "-v", "--", "-v", "-vv"]);
    assert_eq!(count, 1);
    assert_eq!(rest, ["rhymr", "--", "-v", "-vv"]);
}

#[test]
fn unrelated_dash_v_word_is_not_a_flag() {
    // `-verbose` (single dash, letters after the v's) is left alone.
    let (count, rest) = strip(&["rhymr", "-version", "-x"]);
    assert_eq!(count, 0);
    assert_eq!(rest, ["rhymr", "-version", "-x"]);
}

#[test]
fn level_names_parse_case_insensitively() {
    assert_eq!(parse_level("TRACE"), Some(LevelFilter::Trace));
    assert_eq!(parse_level("Off"), Some(LevelFilter::Off));
    assert_eq!(parse_level("warning"), Some(LevelFilter::Warn));
    assert_eq!(parse_level("nonsense"), None);
}

#[test]
fn verbosity_count_saturates_at_the_byte_limit() {
    let mut input = vec!["rhymr".to_string()];
    for _ in 0..100 {
        input.push("-vvv".to_string());
    }
    let count = parse_verbosity(&mut input);
    assert_eq!(count, 255);
    assert_eq!(input, ["rhymr"]);
}

#[test]
fn a_lone_dash_is_not_a_flag() {
    let (count, rest) = strip(&["-", "-vvvv"]);
    assert_eq!(count, 4);
    assert_eq!(rest, ["-"]);
}

#[test]
fn count_maps_to_levels() {
    assert_eq!(level_for_count(0), LevelFilter::Warn);
    assert_eq!(level_for_count(1), LevelFilter::Info);
    assert_eq!(level_for_count(2), LevelFilter::Debug);
    assert_eq!(level_for_count(9), LevelFilter::Trace);
}

#[test]
fn environment_override_wins_when_valid() {
    assert_eq!(effective_level(0, Some("  debug \n")), LevelFilter::Debug);
    assert_eq!(effective_level(3, Some("bogus")), LevelFilter::Trace);
    assert_eq!(effective_level(1, None), LevelFilter::Info);
    assert_eq!(effective_level(0, Some("OFF")), LevelFilter::Off);
}

#[test]
fn a_long_flag_saturates_instead_of_wrapping() {
    let mut args = vec!["rhymr".to_string(), format!("-{}", "v".repeat(256))];
    assert_eq!(parse_verbosity(&mut args), 255);
    assert_eq!(args, vec!["rhymr".to_string()]);
    let mut args = vec!["rhymr".to_string(), format!("-{}", "v".repeat(200)), "-vvvvvvvvvvvvvvvvvvvvvvvvvvvvvvvvvvvvvvvvvvvvvvvvvvvvvv".to_string()];
    assert_eq!(parse_verbosity(&mut args), 254);
}
