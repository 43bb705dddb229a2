use phantasm::font::glyph;
use phantasm::identity::{
    resolve_from_environment, resolve_from_profile_metadata, resolve_from_profile_path, sanitize, NameSource, ENV_CANDIDATES,
    MAX_NAME_LEN,
};
use phantasm::text::char_prefix;

fn some(s: &str) -> Option<String> {
    Some(s.to_string())
}

#[test]
fn sanitize_trims_filters_and_capitalises() {
    assert_eq!(sanitize("  alice  "), some("Alice"));
    assert_eq!(sanitize("bob_smith!!"), some("Bob_smith"));
    assert_eq!(sanitize("o'brien"), some("O'brien"));
    assert_eq!(sanitize("\u{e9}lodie"), some("Lodie"));
    assert_eq!(sanitize("..__--carol--__.."), some("Carol"));
    assert_eq!(sanitize(" . dave . "), some("Dave"));
    assert_eq!(sanitize("Mary Ann"), some("Mary Ann"));
}

#[test]
fn sanitize_rejects_empty_results() {
    assert_eq!(sanitize(""), None);
    assert_eq!(sanitize("   "), None);
    assert_eq!(sanitize("...---___"), None);
    assert_eq!(sanitize("\u{1F47B}\u{1F47B}"), None);
    assert_eq!(sanitize("$%^&*"), None);
}

#[test]
fn sanitize_truncates_to_limit() {
    let long = "abcdefghijklmnopqrstuvwxyz0123456789";
    let got = sanitize(long).unwrap();
    assert_eq!(got.len(), MAX_NAME_LEN);
    assert_eq!(got, "Abcdefghijklmnopqrstuvwx");
}

#[test]
fn sanitize_inner_edge_punct_survives() {
    // stripping spaces after punctuation can leave punctuation at the front
    assert_eq!(sanitize(". -a"), some("-a"));
}

#[test]
fn sanitize_output_shape() {
    let samples = ["  zed", "\tq\n", "x_y-z.", "123abc", "'quoted'", "   -- hi --   ", "Zoë Ångström", "a b c d e f g h i j k l m n o p"];
    for s in samples.iter() {
        if let Some(n) = sanitize(s) {
            assert!(!n.is_empty() && n.chars().count() <= MAX_NAME_LEN);
            assert!(n.chars().all(|c| c.is_ascii_alphanumeric() || " .-_'".contains(c)));
            let first = n.chars().next().unwrap();
            assert!(first != ' ' && !first.is_ascii_lowercase());
        }
    }
}

#[test]
fn environment_layer_takes_first_usable_candidate() {
    assert_eq!(ENV_CANDIDATES, ["USERNAME", "USER", "LOGNAME"]);
    let id = resolve_from_environment(&[None, some("bob"), some("x")]).unwrap();
    assert_eq!(id.display_name, "Bob");
    assert_eq!(id.source, NameSource::EnvironmentVariable("USER"));
    let id = resolve_from_environment(&[some("!!!"), None, some("carol")]).unwrap();
    assert_eq!(id.display_name, "Carol");
    assert_eq!(id.source, NameSource::EnvironmentVariable("LOGNAME"));
    let id = resolve_from_environment(&[some("ann"), some("bob"), None]).unwrap();
    assert_eq!(id.source, NameSource::EnvironmentVariable("USERNAME"));
    assert!(resolve_from_environment(&[None, None, None]).is_none());
    assert!(resolve_from_environment(&[some(""), some("..."), some(" ")]).is_none());
}

#[test]
fn profile_layer_sanitises_basename() {
    let id = resolve_from_profile_metadata("alice").unwrap();
    assert_eq!(id.display_name, "Alice");
    assert_eq!(id.source, NameSource::ProfileDirectory);
    assert!(resolve_from_profile_metadata("...").is_none());
}

#[test]
fn name_sources_describe_themselves() {
    assert_eq!(NameSource::EnvironmentVariable("USER").describe(), "$USER");
    assert_eq!(NameSource::ProfileDirectory.describe(), "profile directory basename");
    assert_eq!(NameSource::TerminalPrompt.describe(), "manual terminal identification");
}

#[test]
fn font_covers_ascii_and_folds_case() {
    assert!(glyph('A').is_some());
    assert_eq!(glyph('a'), glyph('A'));
    assert_eq!(glyph('z'), glyph('Z'));
    assert!(glyph(' ').is_some());
    assert!(glyph('~').is_some());
    assert!(glyph('\u{e9}').is_none());
    assert!(glyph('\n').is_none());
    assert_eq!(glyph(' ').unwrap(), [0; 7]);
}

#[test]
fn char_prefix_takes_characters() {
    assert_eq!(char_prefix("h\u{e9}llo", 2), "h\u{e9}");
    assert_eq!(char_prefix("abc", 10), "abc");
    assert_eq!(char_prefix("abc", 0), "");
}

#[test]
fn profile_path_layer_takes_the_final_component() {
    let id = resolve_from_profile_path("/home/bob").unwrap();
    assert_eq!(id.display_name, "Bob");
    assert_eq!(id.source, NameSource::ProfileDirectory);
    assert_eq!(resolve_from_profile_path("/home/carol/").unwrap().display_name, "Carol");
    assert!(resolve_from_profile_path("/").is_none());
    assert!(resolve_from_profile_path("/home/..").is_none());
    assert!(resolve_from_profile_path("/home/___").is_none());
    assert!(resolve_from_profile_path("").is_none());
    assert_eq!(resolve_from_profile_path("home").unwrap().display_name, "Home");
    assert_eq!(resolve_from_profile_path("a1/b2//").unwrap().display_name, "B2");
}

#[test]
fn sanitize_is_idempotent_on_clean_ends() {
    for raw in ["  o'brien  ", "--zoe--", "x\u{1F600}y", "a b.c-d_e'f", "l'", "'quoted'"] {
        let once = sanitize(raw).unwrap();
        assert_eq!(sanitize(&once), Some(once.clone()), "{:?}", raw);
    }
}

#[test]
fn sanitize_twice_can_differ_when_truncation_exposes_punctuation() {
    // cut at 24 characters, the name ends in '.', which the second pass trims
    let raw = "abcdefghijklmnopqrstuvw.xyz";
    let once = sanitize(raw).unwrap();
    assert_eq!(once, "Abcdefghijklmnopqrstuvw.");
    assert_eq!(sanitize(&once).unwrap(), "Abcdefghijklmnopqrstuvw");
}
