use maplayer::rpc::{parse_method, route, route_stream, tail_line_count, Method, StreamRoute, METHOD_NOT_FOUND, UNAUTHORIZED};
use maplayer::proto::StreamHeader;
use maplayer::wire::{frame_line, LineEvent, LineReader, MAX_LINE};

fn feed_all(r: &mut LineReader, bytes: &[u8]) -> Vec<LineEvent> {
    bytes.iter().map(|b| r.feed(*b)).collect()
}

#[test]
fn framed_line_reads_back() {
    let mut r = LineReader::new();
    let framed = frame_line(b"{\"kind\":\"rpc\",\"v\":1}");
    assert_eq!(framed.last(), Some(&b'\n'));
    let events = feed_all(&mut r, &framed);
    let (last, before) = events.split_last().unwrap();
    assert!(before.iter().all(|e| matches!(e, LineEvent::Pending)));
    match last {
        LineEvent::Line(l) => assert_eq!(l.as_slice(), b"{\"kind\":\"rpc\",\"v\":1}"),
        _ => panic!("no line"),
    }
}

#[test]
fn two_lines_in_a_row() {
    let mut r = LineReader::new();
    let events = feed_all(&mut r, b"a\nbc\n");
    let lines: Vec<Vec<u8>> = events
        .into_iter()
        .filter_map(|e| match e {
            LineEvent::Line(l) => Some(l),
            _ => None,
        })
        .collect();
    assert_eq!(lines, vec![b"a".to_vec(), b"bc".to_vec()]);
}

#[test]
fn empty_line() {
    let mut r = LineReader::new();
    match r.feed(b'\n') {
        LineEvent::Line(l) => assert!(l.is_empty()),
        _ => panic!("expected a line"),
    }
}

#[test]
fn line_of_exactly_max_is_accepted() {
    let mut r = LineReader::new();
    for _ in 0..MAX_LINE {
        assert!(matches!(r.feed(b'x'), LineEvent::Pending));
    }
    match r.feed(b'\n') {
        LineEvent::Line(l) => assert_eq!(l.len(), MAX_LINE),
        _ => panic!("expected a line"),
    }
}

#[test]
fn line_over_max_is_refused() {
    let mut r = LineReader::new();
    for _ in 0..MAX_LINE {
        assert!(matches!(r.feed(b'x'), LineEvent::Pending));
    }
    assert!(matches!(r.feed(b'x'), LineEvent::TooLong));
}

#[test]
fn methods_parse_by_name() {
    assert_eq!(parse_method("maplayer/ping"), Some(Method::Ping));
    assert_eq!(parse_method("maplayer/pair_hello"), Some(Method::PairHello));
    assert_eq!(parse_method("maplayer/sessions"), Some(Method::Sessions));
    assert_eq!(parse_method("maplayer/session_new"), Some(Method::SessionNew));
    assert_eq!(parse_method("maplayer/session_kill"), Some(Method::SessionKill));
    assert_eq!(parse_method("maplayer/session_tail"), Some(Method::SessionTail));
    assert_eq!(parse_method("maplayer/profiles"), Some(Method::Profiles));
    assert_eq!(parse_method("maplayer/profile_new"), Some(Method::ProfileNew));
    assert_eq!(parse_method("maplayer/profile_default"), Some(Method::ProfileDefault));
    assert_eq!(parse_method("maplayer/nope"), None);
    assert_eq!(parse_method(""), None);
}

#[test]
fn unauthorized_callers_reach_pair_hello_only() {
    let e = route(false, "maplayer/ping").err().unwrap();
    assert_eq!(e.code, -32001);
    assert_eq!(e.code, UNAUTHORIZED);
    assert_eq!(e.message, "unauthorized");
    // Unknown names are unauthorized too for such callers.
    assert_eq!(route(false, "maplayer/nope").err().unwrap().code, -32001);
    assert_eq!(route(false, "maplayer/pair_hello").ok(), Some(Method::PairHello));
}

#[test]
fn allowed_callers_get_method_not_found() {
    let e = route(true, "maplayer/nope").err().unwrap();
    assert_eq!(e.code, -32601);
    assert_eq!(e.code, METHOD_NOT_FOUND);
    assert_eq!(e.message, "method not found");
    assert_eq!(route(true, "maplayer/sessions").ok(), Some(Method::Sessions));
}

#[test]
fn tail_count_defaults_and_caps() {
    assert_eq!(tail_line_count(None), 50);
    assert_eq!(tail_line_count(Some(2)), 2);
    assert_eq!(tail_line_count(Some(500)), 500);
    assert_eq!(tail_line_count(Some(501)), 500);
    assert_eq!(tail_line_count(Some(0)), 0);
}

#[test]
fn acp_attach_needs_allowlist() {
    let h = StreamHeader::Acp { v: 1, session_id: "abc".to_string() };
    assert!(matches!(route_stream(h, false), StreamRoute::Unauthorized));
    let h = StreamHeader::Acp { v: 1, session_id: "abc".to_string() };
    match route_stream(h, true) {
        StreamRoute::Attach(id) => assert_eq!(id, "abc"),
        _ => panic!("expected attach"),
    }
    assert!(matches!(route_stream(StreamHeader::Rpc { v: 1 }, false), StreamRoute::Rpc));
}
