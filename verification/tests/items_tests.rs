use randgen::args::UuidVersion;
use randgen::items::{compose_url, draw_url, push_decimal, ScalarKind};
use randgen::lines::LineWorker;

fn decimal(v: i64) -> String {
    let mut out = Vec::new();
    push_decimal(v, &mut out);
    String::from_utf8(out).unwrap()
}

fn draw(kind: ScalarKind) -> String {
    let mut worker = LineWorker::finite(kind, 1, 1);
    String::from_utf8(worker.item()).unwrap()
}

#[test]
fn decimal_text_of_integers() {
    for v in [0, 1, 9, 10, 99, 100, 12345, -1, -10, -12345, i64::MAX, i64::MIN, i64::MIN + 1] {
        assert_eq!(decimal(v), v.to_string());
    }
    assert_eq!(decimal(-9223372036854775808), "-9223372036854775808");
}

#[test]
fn decimal_text_is_appended() {
    let mut out = b"x=".to_vec();
    push_decimal(-42, &mut out);
    assert_eq!(out, b"x=-42".to_vec());
}

#[test]
fn integers_stay_in_their_range() {
    for _ in 0..200 {
        let v: i64 = draw(ScalarKind::Int { min: -3, max: 4 }).parse().unwrap();
        assert!((-3..=4).contains(&v));
    }
    assert_eq!(draw(ScalarKind::Int { min: 7, max: 7 }), "7");
    assert_eq!(draw(ScalarKind::Int { min: i64::MIN, max: i64::MIN }), i64::MIN.to_string());
}

#[test]
fn the_nil_and_the_max_uuid() {
    assert_eq!(draw(ScalarKind::Uuid(UuidVersion::Empty)), "00000000-0000-0000-0000-000000000000");
    assert_eq!(draw(ScalarKind::Uuid(UuidVersion::Max)), "ffffffff-ffff-ffff-ffff-ffffffffffff");
}

#[test]
fn a_random_uuid_has_version_four() {
    for _ in 0..50 {
        let text = draw(ScalarKind::Uuid(UuidVersion::V4));
        let bytes = text.as_bytes();
        assert_eq!(bytes.len(), 36);
        for (i, b) in bytes.iter().enumerate() {
            if [8, 13, 18, 23].contains(&i) {
                assert_eq!(*b, b'-');
            } else {
                assert!(b.is_ascii_digit() || (b'a'..=b'f').contains(b));
            }
        }
        assert_eq!(bytes[14], b'4');
        assert!(b"89ab".contains(&bytes[19]));
    }
}

#[test]
fn urls_are_composed_of_their_parts() {
    let domain = b"example".to_vec();
    let tld = b"org".to_vec();
    let path = Some(vec![b"a".to_vec(), b"bc".to_vec(), b"d".to_vec()]);
    let query = Some(b"q".to_vec());
    let text = |p: &Option<Vec<Vec<u8>>>, q: &Option<Vec<u8>>| {
        String::from_utf8(compose_url(&domain, &tld, p, q)).unwrap()
    };
    assert_eq!(text(&None, &None), "https://example.org");
    assert_eq!(text(&path, &None), "https://example.org/a/bc/d");
    assert_eq!(text(&None, &query), "https://example.org/?q");
    assert_eq!(text(&path, &query), "https://example.org/a/bc/d?q");
    assert_eq!(text(&Some(vec![]), &None), "https://example.org/");
    assert_eq!(text(&Some(vec![]), &query), "https://example.org/?q");
    assert_eq!(text(&Some(vec![b"only".to_vec()]), &None), "https://example.org/only");
}

fn is_label(s: &str, length: Option<usize>) -> bool {
    s.bytes().all(|b| b.is_ascii_lowercase())
        && match length {
            Some(l) => s.len() == l,
            None => (5..15).contains(&s.len()),
        }
}

#[test]
fn drawn_urls_have_labels_of_the_length_asked() {
    for _ in 0..50 {
        let url = String::from_utf8(draw_url(Some(6), Some(2), true)).unwrap();
        let rest = url.strip_prefix("https://").unwrap();
        let (host, tail) = rest.split_once('/').unwrap();
        let (domain, tld) = host.split_once('.').unwrap();
        assert!(is_label(domain, Some(6)));
        assert!(is_label(tld, Some(3)));
        let (path, query) = tail.split_once('?').unwrap();
        let segments: Vec<&str> = path.split('/').collect();
        assert_eq!(segments.len(), 2);
        assert!(segments.iter().all(|s| is_label(s, Some(6))));
        assert!(is_label(query, Some(6)));
    }
}

#[test]
fn drawn_urls_without_length_have_labels_of_five_to_fourteen() {
    for _ in 0..200 {
        let url = String::from_utf8(draw_url(None, None, false)).unwrap();
        let host = url.strip_prefix("https://").unwrap();
        let (domain, tld) = host.split_once('.').unwrap();
        assert!(is_label(domain, None));
        assert!(is_label(tld, Some(3)));
    }
}

#[test]
fn a_url_of_empty_labels() {
    assert_eq!(String::from_utf8(draw_url(Some(0), None, true)).unwrap().len(), "https://.abc/?".len());
}

#[test]
fn kinds_that_are_drawn() {
    assert!(ScalarKind::Int { min: 0, max: 1 }.is_drawn());
    assert!(ScalarKind::Uuid(UuidVersion::V4).is_drawn());
    assert!(ScalarKind::Url { length: None, segments: None, query: false }.is_drawn());
    assert!(!ScalarKind::Supplied.is_drawn());
}

#[test]
fn drawn_integers_vary() {
    let mut seen = std::collections::BTreeSet::new();
    for _ in 0..500 {
        seen.insert(draw(ScalarKind::Int { min: 0, max: 3 }));
    }
    assert_eq!(seen.len(), 4);
}

#[test]
fn drawn_uuids_and_labels_vary() {
    assert_ne!(draw(ScalarKind::Uuid(UuidVersion::V4)), draw(ScalarKind::Uuid(UuidVersion::V4)));
    let kind = ScalarKind::Url { length: Some(20), segments: None, query: false };
    assert_ne!(draw(kind), draw(kind));
}
