use repository_engine::error::Error;
use repository_engine::types::enc_path::EncPath;
use repository_engine::types::enc_string::EncString;
use repository_engine::types::text::{slugify, split_segments};

#[test]
fn encode_keeps_unreserved_characters() {
    let e = EncString::encode("Hello-World_1.2~x");
    assert_eq!(e.encoded().as_str(), "Hello-World_1.2~x");
}

#[test]
fn encode_escapes_other_bytes_in_upper_case_hex() {
    assert_eq!(EncString::encode("a b").encoded().as_str(), "a%20b");
    assert_eq!(EncString::encode("a/b").encoded().as_str(), "a%2Fb");
    assert_eq!(EncString::encode("100%").encoded().as_str(), "100%25");
    assert_eq!(EncString::encode("é").encoded().as_str(), "%C3%A9");
    assert_eq!(EncString::encode("").encoded().as_str(), "");
}

#[test]
fn decode_undoes_encode() {
    for s in ["", "plain", "a b/c?d=e&f", "100% sûr — ✓", "%41", "%%", "tab\there"] {
        let e = EncString::encode(s);
        assert_eq!(e.plain().unwrap(), s);
        assert_eq!(EncString::decode_encoded(e.encoded().as_str()).unwrap(), s);
    }
}

#[test]
fn decode_leaves_malformed_escapes() {
    assert_eq!(EncString::decode_encoded("%").unwrap(), "%");
    assert_eq!(EncString::decode_encoded("%4").unwrap(), "%4");
    assert_eq!(EncString::decode_encoded("%zz").unwrap(), "%zz");
    assert_eq!(EncString::decode_encoded("%4g1").unwrap(), "%4g1");
    assert_eq!(EncString::decode_encoded("%41%").unwrap(), "A%");
    assert_eq!(EncString::decode_encoded("%2f").unwrap(), "/");
}

#[test]
fn decode_fails_on_bytes_that_are_not_utf8() {
    assert_eq!(EncString::decode_encoded("%FF"), Err(Error::InvalidArgument));
    assert_eq!(EncString::decode_encoded("%C3"), Err(Error::InvalidArgument));
}

#[test]
fn from_url_path_accepts_canonical_text() {
    for s in ["", "abc", "a%20b", "%C3%A9", "A-Z_0.9~", "%", "%zz"] {
        let e = EncString::from_url_path(s.to_string()).unwrap();
        assert_eq!(e.encoded().as_str(), s);
    }
}

#[test]
fn from_url_path_accepts_every_encoding() {
    for s in ["a b", "x/y/z", "été", "100%", "a+b=c"] {
        let e = EncString::encode(s);
        let again = EncString::from_url_path(e.encoded().clone()).unwrap();
        assert_eq!(again, e);
    }
}

#[test]
fn from_url_path_rejects_other_text() {
    for s in ["a b", "a/b", "é", "a+b", "a?b", "a\u{0}b"] {
        assert_eq!(EncString::from_url_path(s.to_string()).err(), Some(Error::InvalidArgument));
    }
}

#[test]
fn is_empty_tells_the_empty_text() {
    assert!(EncString::encode("").is_empty());
    assert!(EncString::default().is_empty());
    assert!(!EncString::encode("x").is_empty());
}

#[test]
fn slug_joins_lower_case_runs() {
    assert_eq!(slugify("Hello, World!"), "hello-world");
    assert_eq!(slugify("  My   Repo 2  "), "my-repo-2");
    assert_eq!(slugify("---"), "");
    assert_eq!(slugify(""), "");
    assert_eq!(slugify("ABC"), "abc");
    assert_eq!(slugify("a/b/c"), "a-b-c");
}

#[test]
fn url_formated_transliterates_and_slugs() {
    let name = EncString::encode("Été à Paris");
    assert_eq!(name.url_formated().unwrap().encoded().as_str(), "ete-a-paris");
    let name = EncString::encode("My Files (2024)");
    assert_eq!(name.url_formated().unwrap().encoded().as_str(), "my-files-2024");
    let bad = EncString::from_url_path("%FF".to_string()).unwrap();
    assert_eq!(bad.url_formated().err(), Some(Error::InvalidArgument));
}

#[test]
fn split_segments_drops_empty_parts() {
    assert_eq!(split_segments("/a//b/", '/'), vec!["a".to_string(), "b".to_string()]);
    assert_eq!(split_segments("", '/'), Vec::<String>::new());
    assert_eq!(split_segments("///", '/'), Vec::<String>::new());
    assert_eq!(split_segments("abc", '/'), vec!["abc".to_string()]);
}

#[test]
fn path_parse_and_to_string_round_trip() {
    let segments = vec![EncString::encode("docs"), EncString::encode("my file"), EncString::encode("é")];
    let path = EncPath::from(segments);
    let text = path.to_string();
    assert_eq!(text, "/docs/my%20file/%C3%A9");
    let parsed = EncPath::parse(text.as_str()).unwrap();
    assert!(parsed.same_as(&path));
    assert_eq!(parsed.len(), 3);
    assert_eq!(parsed.segment(1).encoded().as_str(), "my%20file");
}

#[test]
fn path_parse_drops_empty_segments() {
    let path = EncPath::parse("//a///b/").unwrap();
    assert_eq!(path.to_string(), "/a/b");
    assert_eq!(EncPath::parse("").unwrap().len(), 0);
    assert_eq!(EncPath::parse("/").unwrap().to_string(), "");
}

#[test]
fn path_parse_rejects_segments_that_are_not_canonical() {
    assert_eq!(EncPath::parse("/a/b c").err(), Some(Error::InvalidArgument));
    assert_eq!(EncPath::parse("/é").err(), Some(Error::InvalidArgument));
}

#[test]
fn path_plain_decodes_each_segment() {
    let path = EncPath::parse("/docs/my%20file").unwrap();
    assert_eq!(path.plain().unwrap(), "/docs/my file");
    assert_eq!(EncPath::default().plain().unwrap(), "");
    let bad = EncPath::parse("/ok/%FF").unwrap();
    assert_eq!(bad.plain().err(), Some(Error::InvalidArgument));
}
