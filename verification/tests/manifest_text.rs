//! The manifest serializer: exact text, escaping, and agreement with a
//! real TOML reader.

use cook::meta::{PackageMeta, PackageMetaList};

#[test]
fn new_record_has_no_depends() {
    let m = PackageMeta::new("foo", "9", "x86_64-unknown-redox");
    assert_eq!(m.name, "foo");
    assert_eq!(m.version, "9");
    assert_eq!(m.target, "x86_64-unknown-redox");
    assert!(m.depends.is_empty());
}

#[test]
fn record_serializes_exactly() {
    let m = PackageMeta::new("foo", "9", "tgt");
    assert_eq!(
        m.to_toml(),
        "name = \"foo\"\nversion = \"9\"\ntarget = \"tgt\"\ndepends = []\n"
    );
}

#[test]
fn depends_serialize_in_order() {
    let mut m = PackageMeta::new("foo", "9", "tgt");
    m.depends = vec!["zlib".to_string(), "openssl".to_string()];
    assert_eq!(
        m.to_toml(),
        "name = \"foo\"\nversion = \"9\"\ntarget = \"tgt\"\ndepends = [\"zlib\", \"openssl\"]\n"
    );
}

#[test]
fn strings_are_escaped() {
    let m = PackageMeta::new("a\"b", "1\\2", "t\nx");
    assert_eq!(
        m.to_toml(),
        "name = \"a\\\"b\"\nversion = \"1\\\\2\"\ntarget = \"t\\nx\"\ndepends = []\n"
    );
    let m = PackageMeta::new("tab\there", "cr\rthere", "t");
    assert_eq!(
        m.to_toml(),
        "name = \"tab\\there\"\nversion = \"cr\\rthere\"\ntarget = \"t\"\ndepends = []\n"
    );
}

#[test]
fn control_characters_are_escaped() {
    // Raw control characters are forbidden in a quoted string: they are
    // written as \u00XX escapes, as a TOML reader expects.
    let m = PackageMeta::new("a\u{1}b", "v\u{7f}", "t\u{1f}");
    assert_eq!(
        m.to_toml(),
        "name = \"a\\u0001b\"\nversion = \"v\\u007F\"\ntarget = \"t\\u001F\"\ndepends = []\n"
    );
    let parsed = PackageMeta::from_toml(&m.to_toml()).unwrap();
    assert_eq!(parsed, m);
    let doc: toml::Value = toml::from_str(&m.to_toml()).unwrap();
    assert_eq!(doc["name"].as_str(), Some("a\u{1}b"));
    assert_eq!(doc["version"].as_str(), Some("v\u{7f}"));
    assert_eq!(doc["target"].as_str(), Some("t\u{1f}"));
}

#[test]
fn unicode_escapes_name_control_characters_only() {
    // Only control characters are written as \u escapes, so only those are
    // read back; anything else under \u is rejected.
    let m = PackageMeta::from_toml(
        "name = \"\\u0001\"\nversion = \"9\"\ntarget = \"t\"\ndepends = []\n",
    )
    .unwrap();
    assert_eq!(m.name, "\u{1}");
    assert!(PackageMeta::from_toml(
        "name = \"\\u0041\"\nversion = \"9\"\ntarget = \"t\"\ndepends = []\n"
    )
    .is_none());
    assert!(PackageMeta::from_toml(
        "name = \"\\u00\"\nversion = \"9\"\ntarget = \"t\"\ndepends = []\n"
    )
    .is_none());
}

#[test]
fn manifest_is_valid_toml() {
    // A real TOML reader sees exactly the record we wrote.
    let mut m = PackageMeta::new("foo", "9", "x86_64-unknown-redox");
    m.depends = vec!["a\"b".to_string(), "c\\d".to_string()];
    let doc: toml::Value = toml::from_str(&m.to_toml()).unwrap();
    assert_eq!(doc["name"].as_str(), Some("foo"));
    assert_eq!(doc["version"].as_str(), Some("9"));
    assert_eq!(doc["target"].as_str(), Some("x86_64-unknown-redox"));
    let deps: Vec<&str> = doc["depends"]
        .as_array()
        .unwrap()
        .iter()
        .map(|v| v.as_str().unwrap())
        .collect();
    assert_eq!(deps, vec!["a\"b", "c\\d"]);
}

#[test]
fn record_parses_back() {
    let mut m = PackageMeta::new("foo", "9", "x86_64-unknown-redox");
    m.depends = vec!["a".to_string(), "b".to_string()];
    let parsed = PackageMeta::from_toml(&m.to_toml()).unwrap();
    assert_eq!(parsed, m);
}

#[test]
fn escaped_record_parses_back() {
    let mut m = PackageMeta::new("a\"b", "1\\2", "t\nx");
    m.depends = vec!["tab\there".to_string()];
    let parsed = PackageMeta::from_toml(&m.to_toml()).unwrap();
    assert_eq!(parsed, m);
}

#[test]
fn parse_accepts_exactly_the_canonical_text() {
    let m = PackageMeta::from_toml(
        "name = \"foo\"\nversion = \"9\"\ntarget = \"tgt\"\ndepends = [\"a\", \"b\"]\n",
    )
    .unwrap();
    assert_eq!(m.name, "foo");
    assert_eq!(m.version, "9");
    assert_eq!(m.target, "tgt");
    assert_eq!(m.depends, vec!["a".to_string(), "b".to_string()]);
}

#[test]
fn parse_rejects_malformed_text() {
    assert!(PackageMeta::from_toml("").is_none());
    assert!(PackageMeta::from_toml("name = \"foo\"").is_none());
    assert!(PackageMeta::from_toml("name = foo\nversion = \"9\"").is_none());
    assert!(PackageMeta::from_toml(
        "name = \"foo\"\nversion = \"9\"\ntarget = \"t\"\ndepends = [\"unterminated\n"
    )
    .is_none());
    // An unknown escape is rejected.
    assert!(PackageMeta::from_toml(
        "name = \"f\\qo\"\nversion = \"9\"\ntarget = \"t\"\ndepends = []\n"
    )
    .is_none());
    // Trailing text after the record is rejected.
    assert!(PackageMeta::from_toml(
        "name = \"foo\"\nversion = \"9\"\ntarget = \"t\"\ndepends = []\nmore"
    )
    .is_none());
}

#[test]
fn empty_list_is_just_the_header() {
    let l = PackageMetaList::new();
    assert!(l.packages.is_empty());
    assert_eq!(l.to_toml(), "[packages]\n");
}

#[test]
fn list_serializes_entries_in_order() {
    let mut l = PackageMetaList::new();
    l.packages.push(("foo".to_string(), "9".to_string()));
    l.packages.push(("bar".to_string(), "1.2".to_string()));
    assert_eq!(l.to_toml(), "[packages]\nfoo = \"9\"\nbar = \"1.2\"\n");
}

#[test]
fn non_bare_keys_are_quoted() {
    let mut l = PackageMetaList::new();
    l.packages.push(("a b".to_string(), "1".to_string()));
    l.packages.push(("".to_string(), "2".to_string()));
    l.packages.push(("q\"k".to_string(), "3".to_string()));
    assert_eq!(
        l.to_toml(),
        "[packages]\n\"a b\" = \"1\"\n\"\" = \"2\"\n\"q\\\"k\" = \"3\"\n"
    );
    // And such an index still parses back to itself.
    let parsed = PackageMetaList::from_toml(&l.to_toml()).unwrap();
    assert_eq!(parsed, l);
    // A real TOML reader agrees on the quoted keys.
    let doc: toml::Value = toml::from_str(&l.to_toml()).unwrap();
    let packages = doc["packages"].as_table().unwrap();
    assert_eq!(packages["a b"].as_str(), Some("1"));
    assert_eq!(packages["q\"k"].as_str(), Some("3"));
}

#[test]
fn list_parses_back() {
    let mut l = PackageMetaList::new();
    l.packages.push(("foo".to_string(), "9".to_string()));
    l.packages.push(("bar".to_string(), "1.2".to_string()));
    let parsed = PackageMetaList::from_toml(&l.to_toml()).unwrap();
    assert_eq!(parsed, l);
}

#[test]
fn empty_list_parses_back() {
    let parsed = PackageMetaList::from_toml("[packages]\n").unwrap();
    assert!(parsed.packages.is_empty());
}

#[test]
fn list_parse_rejects_malformed_text() {
    assert!(PackageMetaList::from_toml("").is_none());
    assert!(PackageMetaList::from_toml("[packages]").is_none());
    assert!(PackageMetaList::from_toml("[packages]\nfoo = 9\n").is_none());
    assert!(PackageMetaList::from_toml("[packages]\nfoo = \"9\"").is_none());
}

#[test]
fn list_is_valid_toml() {
    let mut l = PackageMetaList::new();
    l.packages.push(("foo".to_string(), "9".to_string()));
    l.packages.push(("bar".to_string(), "1.2".to_string()));
    let doc: toml::Value = toml::from_str(&l.to_toml()).unwrap();
    let packages = doc["packages"].as_table().unwrap();
    assert_eq!(packages["foo"].as_str(), Some("9"));
    assert_eq!(packages["bar"].as_str(), Some("1.2"));
}
