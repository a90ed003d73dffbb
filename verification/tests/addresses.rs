use wallet_export::address::{
    normalize_address, select_addresses, select_from_lines, split_lines, validate_address,
};
use wallet_export::args::{argument_value, begins_with, ArgParser};

const SAMPLE: &str = "ronin:3759468f9fd589665c8affbe52414ef77f863f72";
const SAMPLE_HEX: &str = "0x3759468f9fd589665c8affbe52414ef77f863f72";

#[test]
fn normalize_replaces_chain_prefix() {
    assert_eq!(normalize_address(SAMPLE), SAMPLE_HEX);
}

#[test]
fn normalize_keeps_canonical_input() {
    assert_eq!(normalize_address(SAMPLE_HEX), SAMPLE_HEX);
}

#[test]
fn normalize_is_idempotent_on_samples() {
    for raw in [SAMPLE, SAMPLE_HEX, "", "ronin:", "roninronin::", "xronin:ronin:y", "ronin", "r0xonin:"] {
        let once = normalize_address(raw);
        let twice = normalize_address(&once);
        assert_eq!(once, twice);
    }
}

#[test]
fn normalize_replaces_every_occurrence() {
    assert_eq!(normalize_address("xronin:ronin:y"), "x0x0xy");
    assert_eq!(normalize_address("roninronin::"), "ronin0x:");
    assert_eq!(normalize_address("ronin"), "ronin");
    assert_eq!(normalize_address(""), "");
}

#[test]
fn normalize_agrees_with_replace() {
    for raw in [SAMPLE, "a ronin: b", "ronin:ronin:", "ron", "ronin;ronin:", "\u{e9}ronin:\u{e9}"] {
        assert_eq!(normalize_address(raw), raw.replace("ronin:", "0x"));
    }
}

#[test]
fn validate_accepts_sample_in_both_forms() {
    assert_eq!(validate_address(SAMPLE), Some(SAMPLE_HEX.to_string()));
    assert_eq!(validate_address(SAMPLE_HEX), Some(SAMPLE_HEX.to_string()));
}

#[test]
fn validate_refuses_malformed_addresses() {
    assert_eq!(validate_address(""), None);
    assert_eq!(validate_address("ronin:1234"), None);
    assert_eq!(validate_address("ronin:zz59468f9fd589665c8affbe52414ef77f863f72"), None);
    assert_eq!(validate_address("0x3759468f9fd589665c8affbe52414ef77f863f7200"), None);
}

#[test]
fn split_lines_keeps_empty_lines() {
    assert_eq!(split_lines(""), vec![String::new()]);
    assert_eq!(split_lines("a\n\nb\n"), vec!["a", "", "b", ""]);
    assert_eq!(split_lines("one"), vec!["one"]);
}

#[test]
fn select_addresses_sorts_lines() {
    let content = format!("{}\nnot an address\n{}\n", SAMPLE, SAMPLE_HEX);
    let selection = select_addresses(&content);
    assert_eq!(selection.accepted, vec![SAMPLE_HEX, SAMPLE_HEX]);
    assert_eq!(selection.skipped, vec!["not an address", ""]);
}

#[test]
fn begins_with_is_prefix_test() {
    assert!(begins_with("--output=file", "--output"));
    assert!(begins_with("--output", "--output"));
    assert!(begins_with("anything", ""));
    assert!(!begins_with("--out", "--output"));
    assert!(!begins_with("-output=file", "--output"));
}

#[test]
fn argument_value_needs_exactly_one_equals_sign() {
    assert_eq!(argument_value("--output=file"), Some("file".to_string()));
    assert_eq!(argument_value("--output="), Some(String::new()));
    assert_eq!(argument_value("=x"), Some("x".to_string()));
    assert_eq!(argument_value("--output"), None);
    assert_eq!(argument_value("--a=b=c"), None);
    assert_eq!(argument_value(""), None);
}

#[test]
fn split_finds_first_argument_with_value() {
    let args: Vec<String> = vec![
        "program".to_string(),
        "--output".to_string(),
        "--output=a=b".to_string(),
        "--output=file".to_string(),
        "--output=stdout".to_string(),
    ];
    assert_eq!(ArgParser::split(&args, "--output"), Some("file".to_string()));
    assert_eq!(ArgParser::split(&args, "--silent"), None);
    assert_eq!(ArgParser::split(&Vec::new(), "--output"), None);
}

#[test]
fn select_from_lines_takes_lines_as_given() {
    let lines = vec![
        format!("{}\r", SAMPLE),
        SAMPLE.to_string(),
        "0x12".to_string(),
        SAMPLE_HEX.to_string(),
    ];
    let selection = select_from_lines(&lines);
    assert_eq!(
        selection.accepted,
        vec![format!("{}\r", SAMPLE_HEX), SAMPLE_HEX.to_string(), SAMPLE_HEX.to_string()]
    );
    assert_eq!(selection.skipped, vec!["0x12"]);
    let none = select_from_lines(&Vec::new());
    assert!(none.accepted.is_empty() && none.skipped.is_empty());
}
