//! Tests for header names, classification and the header collection.

use minihttp::header::HeaderMap;
use minihttp::header::HeaderName;
use minihttp::header::Kind;
use minihttp::header::PredefinedName;
use minihttp::ErrorKind;

#[test]
fn header_macro_as_string() {
    assert_eq!(PredefinedName::ContentLength.canonical_str(), "content-length");
}

#[test]
fn canonical_strings() {
    assert_eq!(PredefinedName::Server.canonical_str(), "server");
    assert_eq!(PredefinedName::Referer.canonical_str(), "referer");
}

#[test]
fn lookup_round_trips_canonical_display() {
    for p in [
        PredefinedName::ContentLength,
        PredefinedName::Server,
        PredefinedName::Referer,
    ] {
        let built = HeaderName::from_predefined(p);
        let looked_up = HeaderName::lookup(built.display().as_str());
        assert!(looked_up.is_standard());
        assert_eq!(looked_up, built);
    }
}

#[test]
fn lookup_is_case_insensitive() {
    let h = HeaderName::lookup("Content-Length");
    assert!(h.is_standard());
    assert_eq!(h.display(), "content-length");
    let h = HeaderName::lookup("SERVER");
    assert!(h.is_standard());
    assert_eq!(h.display(), "server");
}

#[test]
fn lookup_falls_back_to_custom() {
    let h = HeaderName::lookup("X-Foo");
    assert!(h.is_custom());
    assert!(!h.is_standard());
    assert_eq!(h, HeaderName::from_custom(String::from("X-Foo")));
    assert_eq!(h.display(), "X-Foo");
}

#[test]
fn find_matches_only_predefined() {
    assert!(PredefinedName::find("content-length").is_some());
    assert!(PredefinedName::find("Referer").is_some());
    assert!(PredefinedName::find("x-unknown").is_none());
}

#[test]
fn parse_standard_header_line() {
    let (name, value) = HeaderName::parse("Content-Length: 42").unwrap();
    assert!(name.is_standard());
    assert_eq!(name.kind, Kind::Standard(PredefinedName::ContentLength));
    assert_eq!(value, "42");
}

#[test]
fn parse_custom_header_line() {
    let (name, value) = HeaderName::parse("X-Foo:bar").unwrap();
    assert!(name.is_custom());
    assert_eq!(name.display(), "X-Foo");
    assert_eq!(value, "bar");
}

#[test]
fn parse_line_without_colon_is_malformed() {
    let e = HeaderName::parse("no-colon-here").unwrap_err();
    assert_eq!(e.kind, ErrorKind::MalformedHeaderLine);
}

#[test]
fn parse_splits_at_first_colon_and_trims_value() {
    let (name, value) = HeaderName::parse("X-Time:  12:30:00\t").unwrap();
    assert_eq!(name.display(), "X-Time");
    assert_eq!(value, "12:30:00");
}

#[test]
fn parse_trims_unicode_whitespace_from_value() {
    let (name, value) = HeaderName::parse("X-Pad:\u{a0}v\u{a0}").unwrap();
    assert_eq!(name.display(), "X-Pad");
    assert_eq!(value, "v");
    let (_, value) = HeaderName::parse("X-Pad: \u{2009}w\u{3000}\u{85}").unwrap();
    assert_eq!(value, "w");
}

#[test]
fn join_empty_map_is_empty_string() {
    let map = HeaderMap::new();
    assert_eq!(map.join("\r\n"), "");
}

#[test]
fn join_single_entry_has_no_separator() {
    let mut map = HeaderMap::new();
    map.insert(PredefinedName::Server, String::from("quiet"));
    assert_eq!(map.join("\r\n"), "server: quiet");
}

#[test]
fn join_keeps_insertion_order() {
    let mut map = HeaderMap::new();
    map.insert(PredefinedName::Server, String::from("quiet"));
    map.insert(String::from("X-One"), String::from("1"));
    map.insert(PredefinedName::Referer, String::from("here"));
    assert_eq!(map.join(", "), "server: quiet, X-One: 1, referer: here");
}

#[test]
fn insert_overwrites_same_key() {
    let mut map = HeaderMap::new();
    map.insert(PredefinedName::ContentLength, String::from("1"));
    map.insert(String::from("Content-Length"), String::from("2"));
    assert_eq!(map.join("\r\n"), "content-length: 2");
}

#[test]
fn insert_overwrites_custom_key() {
    let mut map = HeaderMap::new();
    map.insert(String::from("X-Foo"), String::from("a"));
    map.insert(String::from("X-Foo"), String::from("b"));
    assert_eq!(map.join("\r\n"), "X-Foo: b");
}

#[test]
fn join_using_emits_first_map_then_second() {
    let mut a = HeaderMap::new();
    a.insert(String::from("X-One"), String::from("1"));
    a.insert(String::from("X-Two"), String::from("2"));
    let mut b = HeaderMap::new();
    b.insert(PredefinedName::ContentLength, String::from("7"));
    let joined = HeaderMap::join_using("; ", a.get_map(), b.get_map());
    assert_eq!(joined, "X-One: 1; X-Two: 2; content-length: 7");
}

#[test]
fn join_using_does_not_deduplicate_across_maps() {
    let mut a = HeaderMap::new();
    a.insert(PredefinedName::ContentLength, String::from("1"));
    let mut b = HeaderMap::new();
    b.insert(PredefinedName::ContentLength, String::from("2"));
    let joined = HeaderMap::join_using("\r\n", a.get_map(), b.get_map());
    assert_eq!(joined, "content-length: 1\r\ncontent-length: 2");
}

#[test]
fn from_map_collapses_duplicate_keys() {
    let entries = vec![
        (HeaderName::lookup("X-A"), String::from("1")),
        (HeaderName::lookup("x-b"), String::from("2")),
        (HeaderName::lookup("X-A"), String::from("3")),
    ];
    let map = HeaderMap::from_map(entries);
    assert_eq!(map.join(", "), "X-A: 3, x-b: 2");
}

#[test]
fn get_map_exposes_entries() {
    let mut map = HeaderMap::new();
    map.insert(String::from("X-One"), String::from("1"));
    let entries = map.get_map();
    assert_eq!(entries.len(), 1);
    assert_eq!(entries[0].0.display(), "X-One");
    assert_eq!(entries[0].1, "1");
}
