use std::path::PathBuf;
use whitesmith::aliases::{parse_override, requires_overrides, restore_path, restore_str, Aliases, AliasError};

#[test]
fn insert_and_get() {
    let mut table = Aliases::new();
    table.insert("CMD", "echo");
    table.insert("X", "1");
    assert_eq!(table.get("CMD"), Some(String::from("echo")));
    assert_eq!(table.get("X"), Some(String::from("1")));
    assert_eq!(table.get("Y"), None);
    assert_eq!(table.key_count(), 2);
}

#[test]
fn later_write_wins() {
    let mut table = Aliases::new();
    table.insert("PROJECT", "/tmp/default");
    table.insert("PROJECT", "/tmp/override");
    assert_eq!(table.get("PROJECT"), Some(String::from("/tmp/override")));
    assert_eq!(table.key_count(), 1);
}

#[test]
fn resolve_simple_template() {
    let mut table = Aliases::new();
    table.insert("CMD", "echo");
    table.insert("X", "1");
    let resolved = restore_str("{CMD} --x {X}", &table).unwrap();
    assert_eq!(resolved, "echo --x 1");
}

#[test]
fn resolve_multi_level_indirection() {
    let mut table = Aliases::new();
    table.insert("A", "{B}/sub");
    table.insert("B", "{C}");
    table.insert("C", "/root-dir");
    let resolved = restore_str("{A}/leaf", &table).unwrap();
    assert_eq!(resolved, "/root-dir/sub/leaf");
}

#[test]
fn resolved_output_has_no_registered_placeholder() {
    let mut table = Aliases::new();
    table.insert("A", "{B}{B}");
    table.insert("B", "{C}");
    table.insert("C", "c");
    let resolved = restore_str("start {A} end", &table).unwrap();
    assert_eq!(resolved, "start cc end");
    assert!(!resolved.contains("{A}"));
    assert!(!resolved.contains("{B}"));
    assert!(!resolved.contains("{C}"));
}

#[test]
fn cyclic_definition_is_an_error() {
    let mut table = Aliases::new();
    table.insert("A", "{B}");
    table.insert("B", "{A}");
    let r = restore_str("{A}", &table);
    assert_eq!(r, Err(AliasError::Cyclic));
}

#[test]
fn self_referential_definition_is_an_error() {
    let mut table = Aliases::new();
    table.insert("A", "x{A}");
    let r = restore_str("{A}", &table);
    assert_eq!(r, Err(AliasError::Cyclic));
}

#[test]
fn unregistered_placeholder_is_left_alone() {
    let mut table = Aliases::new();
    table.insert("CMD", "echo");
    let resolved = restore_str("{CMD} {UNDEFINED}", &table).unwrap();
    assert_eq!(resolved, "echo {UNDEFINED}");
}

#[test]
fn resolve_without_placeholders_is_identity() {
    let table = Aliases::new();
    let resolved = restore_str("plain text", &table).unwrap();
    assert_eq!(resolved, "plain text");
}

#[test]
fn placeholder_formed_by_substitution_is_still_resolved() {
    // Replacing {A} with "{" forms a new placeholder {B} out of the
    // surrounding text, which a later replacement then resolves.
    let mut table = Aliases::new();
    table.insert("A", "{");
    table.insert("B", "x");
    assert_eq!(restore_str("{A}B}", &table).unwrap(), "x");
}

#[test]
fn empty_key_names_the_bare_brace_pair() {
    let mut table = Aliases::new();
    table.insert("", "v");
    assert_eq!(restore_str("a{}b", &table).unwrap(), "avb");
}

#[test]
fn restore_path_resolves_aliases() {
    let mut table = Aliases::new();
    table.insert("LOGS", "/var/log/campaign");
    let p = PathBuf::from("{LOGS}/job-1.err");
    let resolved = restore_path(&p, &table).unwrap();
    assert_eq!(resolved, PathBuf::from("/var/log/campaign/job-1.err"));
}

#[test]
fn parse_override_splits_on_first_colon() {
    let kv = parse_override("KEY:value").unwrap();
    assert_eq!(kv.0, "KEY");
    assert_eq!(kv.1, "value");
    let kv2 = parse_override("K:v:w").unwrap();
    assert_eq!(kv2.0, "K");
    assert_eq!(kv2.1, "v");
    assert_eq!(parse_override("no-colon-here"), None);
}

#[test]
fn override_gate_reports_missing_keys() {
    let mut table = Aliases::new();
    table.insert("SOLVER", "minisat");
    let required = vec![String::from("SOLVER"), String::from("BENCH")];
    assert!(requires_overrides(&required, &table));
    table.insert("BENCH", "suite-a");
    assert!(!requires_overrides(&required, &table));
    let none_required: Vec<String> = Vec::new();
    assert!(!requires_overrides(&none_required, &table));
}
