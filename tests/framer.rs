use minihttp::framer::{contains_marker, Framer};
use minihttp::text::{decimal_string, parse_usize};

#[test]
fn framer_stops_at_end_of_headers() {
    let mut f = Framer::new();
    assert!(!f.feed(b"GET / HTTP/1.1\r\n"));
    assert!(f.feed(b"Host: x\r\n\r\n"));
    assert_eq!(f.into_text(), "GET / HTTP/1.1\r\nHost: x\r\n\r\n");
}

#[test]
fn framer_stops_when_peer_closes() {
    let mut f = Framer::new();
    assert!(!f.feed(b"GET / HTTP/1.1\r\n"));
    assert!(f.feed(b""));
    assert_eq!(f.into_text(), "GET / HTTP/1.1\r\n");
}

#[test]
fn framer_marker_across_reads() {
    let mut f = Framer::new();
    assert!(!f.feed(b"GET / HTTP/1.1\r\n\r"));
    assert!(f.feed(b"\n"));
}

#[test]
fn framer_invalid_utf8_gives_empty_text() {
    let mut f = Framer::new();
    assert!(f.feed(&[0xff, 0xfe, 13, 10, 13, 10]));
    assert_eq!(f.into_text(), "");
    let mut g = Framer::new();
    assert!(g.feed("é\r\n\r\n".as_bytes()));
    assert_eq!(g.into_text(), "é\r\n\r\n");
}

#[test]
fn marker_search() {
    assert!(contains_marker(&b"a\r\n\r\nb".to_vec()));
    assert!(!contains_marker(&b"a\r\n\rb".to_vec()));
    assert!(!contains_marker(&Vec::new()));
}

#[test]
fn decimal_rendering_and_parsing() {
    assert_eq!(decimal_string(0), "0");
    assert_eq!(decimal_string(404), "404");
    assert_eq!(decimal_string(usize::MAX), usize::MAX.to_string());
    let digits: Vec<char> = "x123y".chars().collect();
    assert_eq!(parse_usize(&digits, 1, 4), Some(123));
    assert_eq!(parse_usize(&digits, 0, 4), None);
    assert_eq!(parse_usize(&digits, 1, 1), None);
    let max: Vec<char> = usize::MAX.to_string().chars().collect();
    assert_eq!(parse_usize(&max, 0, max.len()), Some(usize::MAX));
}
