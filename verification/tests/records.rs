//! The record files: rendering, parsing, the round trip, and the store.

use dependencies::codec::{parse_ledger, parse_manifest, render_ledger, render_manifest};
use dependencies::error::Error;
use dependencies::manifest::{LocalPackages, Manifest};
use dependencies::store::Store;
use dependencies::table::Table;
use dependencies::version::Version;

fn sample_manifest() -> Manifest {
    let mut requirements = Table::new();
    assert!(requirements.insert("gleam_stdlib".to_string(), "~> 0.14".to_string()));
    assert!(requirements.insert("gleeunit".to_string(), "~> 0.6".to_string()));
    let mut m = Manifest::from_resolution(requirements, Table::new());
    assert!(m.insert_package("gleam_stdlib".to_string(), Version::parse("0.14.0").unwrap()));
    assert!(m.insert_package("gleeunit".to_string(), Version::parse("0.6.1").unwrap()));
    m
}

#[test]
fn manifest_renders_exact_text() {
    let text = render_manifest(&sample_manifest());
    assert_eq!(
        text,
        "# Kept up to date by the package manager; do not edit by hand.\n\
         [requirements]\n\
         gleam_stdlib = \"~> 0.14\"\n\
         gleeunit = \"~> 0.6\"\n\
         [packages]\n\
         gleam_stdlib = \"0.14.0\"\n\
         gleeunit = \"0.6.1\"\n"
    );
}

#[test]
fn manifest_round_trip() {
    let m = sample_manifest();
    let text = render_manifest(&m);
    let back = parse_manifest(text.as_str()).unwrap();
    assert!(back.requirements.same_mapping(&m.requirements));
    assert!(back.packages.same_mapping(&m.packages));
    assert_eq!(render_manifest(&back), text);
}

#[test]
fn empty_manifest_round_trip() {
    let m = Manifest::from_resolution(Table::new(), Table::new());
    let text = render_manifest(&m);
    let back = parse_manifest(text.as_str()).unwrap();
    assert_eq!(back.requirements.len(), 0);
    assert_eq!(back.packages.len(), 0);
}

#[test]
fn ledger_round_trip() {
    let mut packages = Table::new();
    assert!(packages.insert("gleam_stdlib".to_string(), "0.14.0".to_string()));
    let ledger = LocalPackages { packages };
    let text = render_ledger(&ledger);
    assert_eq!(text, "[packages]\ngleam_stdlib = \"0.14.0\"\n");
    let back = parse_ledger(text.as_str()).unwrap();
    assert!(back.packages.same_mapping(&ledger.packages));
}

#[test]
fn parse_accepts_comments_and_blank_lines() {
    let text = "# a note\n\n[requirements]\n# another\na = \"~> 1.0\"\n\n[packages]\na = \"1.0.0\"\n";
    let m = parse_manifest(text).unwrap();
    assert_eq!(m.requirements.get("a").unwrap().as_str(), "~> 1.0");
    assert_eq!(m.packages.get("a").unwrap().as_str(), "1.0.0");
}

#[test]
fn parse_rejects_empty_text() {
    assert!(matches!(parse_manifest(""), Err(Error::ParseFailed { .. })));
}

#[test]
fn parse_rejects_missing_packages_section() {
    let text = "[requirements]\na = \"~> 1.0\"\n";
    assert!(matches!(parse_manifest(text), Err(Error::ParseFailed { .. })));
}

#[test]
fn parse_rejects_entry_before_any_section() {
    let text = "a = \"1.0.0\"\n[requirements]\n[packages]\n";
    assert!(matches!(parse_manifest(text), Err(Error::ParseFailed { .. })));
}

#[test]
fn parse_rejects_malformed_entry() {
    let text = "[requirements]\n[packages]\na = 1.0.0\n";
    assert!(matches!(parse_manifest(text), Err(Error::ParseFailed { .. })));
}

#[test]
fn parse_rejects_duplicate_name() {
    let text = "[requirements]\n[packages]\na = \"1.0.0\"\na = \"2.0.0\"\n";
    assert!(matches!(parse_manifest(text), Err(Error::ParseFailed { .. })));
}

#[test]
fn parse_rejects_repeated_section() {
    let text = "[requirements]\n[requirements]\n[packages]\n";
    assert!(matches!(parse_manifest(text), Err(Error::ParseFailed { .. })));
}

#[test]
fn parse_ledger_rejects_requirements_section() {
    let text = "[requirements]\na = \"1.0.0\"\n";
    assert!(matches!(parse_ledger(text), Err(Error::ParseFailed { .. })));
}

#[test]
fn store_reads_nothing_when_absent() {
    let store = Store::new();
    assert!(store.read_manifest().unwrap().is_none());
    assert!(store.read_ledger().unwrap().is_none());
}

#[test]
fn store_read_fails_on_malformed_record() {
    // A record that exists but does not parse is a fatal error, never
    // silently treated as absent.
    let mut store = Store::new();
    store.manifest_file = Some("not a manifest".to_string());
    assert!(store.read_manifest().is_err());
    store.ledger_file = Some("[packages]\nbroken\n".to_string());
    assert!(store.read_ledger().is_err());
}

#[test]
fn version_parse_accepts_and_echoes_text() {
    let v = Version::parse("1.0.0-rc.1+build5").unwrap();
    assert_eq!(v.as_str(), "1.0.0-rc.1+build5");
    assert_eq!(v.text(), "1.0.0-rc.1+build5".to_string());
    assert!(v.same(&v.duplicate()));
}

#[test]
fn version_parse_rejects_unprintable_or_quoted_text() {
    assert!(Version::parse("").is_none());
    assert!(Version::parse("1.0\n0").is_none());
    assert!(Version::parse("1.0\"0").is_none());
    assert!(Version::parse("1.0\\0").is_none());
}

#[test]
fn table_rejects_duplicates_and_bad_names() {
    let mut t = Table::new();
    assert!(t.insert("pkg_1".to_string(), "1.0.0".to_string()));
    assert!(!t.insert("pkg_1".to_string(), "2.0.0".to_string()));
    assert!(!t.insert("Bad Name".to_string(), "1.0.0".to_string()));
    assert!(!t.insert("".to_string(), "1.0.0".to_string()));
    assert!(!t.insert("ok".to_string(), "1.0\n0".to_string()));
    assert_eq!(t.len(), 1);
    assert_eq!(t.get("pkg_1").unwrap().as_str(), "1.0.0");
    assert!(t.get("pkg_2").is_none());
}
