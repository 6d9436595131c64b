use rocket_csrf::error::CsrfError;
use rocket_csrf::path::{percent_decode, split_bytes, CaptureMap, PathPattern, Segment};

fn captures(pairs: &[(&str, &str)]) -> CaptureMap {
    let mut map = CaptureMap::new();
    for (name, value) in pairs {
        map.insert(name.as_bytes().to_vec(), value.as_bytes().to_vec());
    }
    map
}

#[test]
fn capture_binds_one_segment() {
    let pattern = PathPattern::compile(b"/a/<x>/c");
    let found = pattern.match_path(b"/a/b/c").unwrap();
    assert_eq!(found.get(b"x"), Some(&b"b".to_vec()));
    assert_eq!(found.get(b"y"), None);
    assert!(!found.is_empty());
}

#[test]
fn other_segment_counts_do_not_match() {
    let pattern = PathPattern::compile(b"/a/<x>/c");
    assert!(pattern.match_path(b"/a/b/c/d").is_none());
    assert!(pattern.match_path(b"/a/c").is_none());
    assert!(pattern.match_path(b"/a/b/c/").is_none());
    assert!(pattern.match_path(b"a/b/c").is_none());
}

#[test]
fn literal_must_be_equal() {
    let pattern = PathPattern::compile(b"/a/<x>/c");
    assert!(pattern.match_path(b"/a/b/d").is_none());
    assert!(pattern.match_path(b"/A/b/c").is_none());
}

#[test]
fn encoded_and_unencoded_forms_compare_equal() {
    let pattern = PathPattern::compile(b"/a b/<x>");
    let found = pattern.match_path(b"/a%20b/c%2Fd").unwrap();
    assert_eq!(found.get(b"x"), Some(&b"c/d".to_vec()));
    let encoded = PathPattern::compile(b"/a%20b/<x>");
    assert!(encoded.match_path(b"/a b/z").is_some());
    assert!(encoded.match_path(b"/a%2520b/z").is_none());
}

#[test]
fn a_later_capture_of_the_same_name_wins() {
    let pattern = PathPattern::compile(b"/<x>/<x>");
    let found = pattern.match_path(b"/first/second").unwrap();
    assert_eq!(found.get(b"x"), Some(&b"second".to_vec()));
}

#[test]
fn render_substitutes_captures() {
    let pattern = PathPattern::compile(b"/dst/<x>");
    assert_eq!(pattern.render(&captures(&[("x", "b")])), Some(b"/dst/b".to_vec()));
}

#[test]
fn render_without_the_capture_gives_nothing() {
    let pattern = PathPattern::compile(b"/dst/<x>");
    assert_eq!(pattern.render(&captures(&[])), None);
    assert_eq!(pattern.render(&captures(&[("y", "b")])), None);
    assert_eq!(pattern.render_verbatim(&captures(&[("y", "b")])), None);
}

#[test]
fn render_percent_encodes_values() {
    let pattern = PathPattern::compile(b"/dst/<x>/end");
    assert_eq!(
        pattern.render(&captures(&[("x", "a b/c?d=e&f%")])),
        Some(b"/dst/a%20b%2Fc%3Fd%3De%26f%25/end".to_vec())
    );
    assert_eq!(
        pattern.render_verbatim(&captures(&[("x", "a b/c")])),
        Some(b"/dst/a b/c/end".to_vec())
    );
}

#[test]
fn render_keeps_literals_as_written() {
    let pattern = PathPattern::compile(b"/a%20b//c");
    assert_eq!(pattern.len(), 4);
    assert_eq!(pattern.render(&captures(&[])), Some(b"/a%20b//c".to_vec()));
    assert_eq!(PathPattern::compile(b"/").render(&captures(&[])), Some(b"/".to_vec()));
    assert_eq!(PathPattern::compile(b"").render(&captures(&[])), Some(b"".to_vec()));
}

#[test]
fn default_target_may_capture_only_uri() {
    assert_eq!(
        PathPattern::compile_default_target(b"/<invalid>").err(),
        Some(CsrfError::ConfigError)
    );
    assert_eq!(
        PathPattern::compile_default_target(b"/a/<uri>/<other>").err(),
        Some(CsrfError::ConfigError)
    );
    assert!(PathPattern::compile_default_target(b"/<uri>").is_ok());
    assert!(PathPattern::compile_default_target(b"/<uri>/x/<uri>").is_ok());
    assert!(PathPattern::compile_default_target(b"/csrf").is_ok());
    assert!(PathPattern::compile(b"/<uri>").captures_only_uri());
    assert!(!PathPattern::compile(b"/<ur>").captures_only_uri());
}

#[test]
fn brackets_must_enclose_the_whole_segment() {
    let pattern = PathPattern::compile(b"/<x/x>/<>/>");
    assert_eq!(pattern.len(), 5);
    assert!(pattern.match_path(b"/<x/x>/anything/>").is_some());
    assert!(pattern.match_path(b"/a/b/anything/>").is_none());
    let found = pattern.match_path(b"/<x/x>/v/>").unwrap();
    assert_eq!(found.get(b""), Some(&b"v".to_vec()));
    assert!(matches!(PathPattern::compile_default_target(b"/<>"), Err(CsrfError::ConfigError)));
}

#[test]
fn segments_are_compiled_one_by_one() {
    assert!(matches!(rocket_csrf::path::compile_segment(b"<name>"), Segment::Capture(n) if n == b"name".to_vec()));
    assert!(matches!(rocket_csrf::path::compile_segment(b"name>"), Segment::Literal(n) if n == b"name>".to_vec()));
    assert!(matches!(rocket_csrf::path::compile_segment(b"<"), Segment::Literal(n) if n == b"<".to_vec()));
}

#[test]
fn percent_decoding_leaves_malformed_escapes() {
    assert_eq!(percent_decode(b"a%20b"), b"a b".to_vec());
    assert_eq!(percent_decode(b"%41%4a%4A%7e"), b"AJJ~".to_vec());
    assert_eq!(percent_decode(b"100%"), b"100%".to_vec());
    assert_eq!(percent_decode(b"%4"), b"%4".to_vec());
    assert_eq!(percent_decode(b"%zz%41"), b"%zzA".to_vec());
    assert_eq!(percent_decode(b"%%41"), b"%A".to_vec());
    assert_eq!(percent_decode(b"%ff%00"), vec![0xff, 0x00]);
    assert_eq!(percent_decode(b""), Vec::<u8>::new());
}

#[test]
fn splitting_keeps_empty_parts() {
    assert_eq!(split_bytes(b"/a//b/", b'/'), vec![b"".to_vec(), b"a".to_vec(), b"".to_vec(), b"b".to_vec(), b"".to_vec()]);
    assert_eq!(split_bytes(b"", b'/'), vec![Vec::<u8>::new()]);
    assert_eq!(split_bytes(b"abc", b'/'), vec![b"abc".to_vec()]);
}

#[test]
fn matching_segments_directly() {
    let pattern = PathPattern::compile(b"a/<x>");
    let found = pattern.match_segments(&vec![b"a".to_vec(), b"%62".to_vec()]).unwrap();
    assert_eq!(found.get(b"x"), Some(&b"b".to_vec()));
    assert!(pattern.match_segments(&vec![b"a".to_vec()]).is_none());
}

#[test]
fn capture_map_rebinds() {
    let mut map = CaptureMap::new();
    assert_eq!(map.get(b"k"), None);
    map.insert(b"k".to_vec(), b"1".to_vec());
    map.insert(b"j".to_vec(), b"2".to_vec());
    map.insert(b"k".to_vec(), b"3".to_vec());
    assert_eq!(map.get(b"k"), Some(&b"3".to_vec()));
    assert_eq!(map.get(b"j"), Some(&b"2".to_vec()));
    assert!(!map.is_empty());
    assert!(CaptureMap::new().is_empty());
}
