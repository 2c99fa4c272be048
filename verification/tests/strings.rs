//! Strings as the record format carries them: literal values, the shapes
//! the reader accepts, and equality.

use dependencies::codec::{parse_manifest, render_manifest};
use dependencies::error::Error;
use dependencies::manifest::Manifest;
use dependencies::table::Table;
use dependencies::version::Version;

#[test]
fn string_literals() {
    // A value is carried literally: punctuation, spaces and all.
    let mut requirements = Table::new();
    assert!(requirements.insert("greeting".to_string(), "Hello, Gleam!".to_string()));
    let m = Manifest::from_resolution(requirements, Table::new());
    let text = render_manifest(&m);
    assert!(text.contains("greeting = \"Hello, Gleam!\"\n"));
    let back = parse_manifest(text.as_str()).unwrap();
    assert_eq!(back.requirements.get("greeting").unwrap().as_str(), "Hello, Gleam!");
}

#[test]
fn string_patterns() {
    // The reader takes an entry apart by its shape: the name before the
    // first space, the value between the quotes. Anything else is refused.
    let m = parse_manifest("[requirements]\n[packages]\nx = \"let \\ = go\"\n");
    assert!(matches!(m, Err(Error::ParseFailed { .. })));
    let ok = parse_manifest("[requirements]\n[packages]\nx = \"let go = 1\"\n").unwrap();
    assert_eq!(ok.packages.get("x").unwrap().as_str(), "let go = 1");
}

#[test]
fn equality() {
    let a = Version::parse("ok").unwrap();
    let b = Version::parse("ok").unwrap();
    let c = Version::parse("not_ok").unwrap();
    assert!(a.same(&b));
    assert!(!a.same(&c));
    assert!(a.same(&a));
}
