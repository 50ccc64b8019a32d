use mint_client::{
    frame_lines, ConnectionFrontEnd, DialStep, Dialer, Event, LinkEvt, ReadOutcome, ReadReaction,
};

fn feed_all(chunks: &[&[u8]]) -> (Vec<Vec<u8>>, Vec<u8>) {
    let mut buffer: Vec<u8> = Vec::new();
    let mut lines: Vec<Vec<u8>> = Vec::new();
    for chunk in chunks {
        lines.extend(frame_lines(&mut buffer, chunk));
    }
    (lines, buffer)
}

#[test]
fn framing_is_the_same_for_every_split() {
    let whole: &[u8] = b"A\nBC\nD";
    let expected = (vec![b"A".to_vec(), b"BC".to_vec()], b"D".to_vec());
    assert_eq!(feed_all(&[whole]), expected);
    for cut in 0..=whole.len() {
        assert_eq!(feed_all(&[&whole[..cut], &whole[cut..]]), expected);
        for cut2 in cut..=whole.len() {
            assert_eq!(feed_all(&[&whole[..cut], &whole[cut..cut2], &whole[cut2..]]), expected);
        }
    }
    let bytes: Vec<&[u8]> = whole.chunks(1).collect();
    assert_eq!(feed_all(&bytes), expected);
}

#[test]
fn framing_keeps_empty_lines_and_partial_tails() {
    assert_eq!(feed_all(&[b"\n\nx"]), (vec![vec![], vec![]], b"x".to_vec()));
    assert_eq!(feed_all(&[b""]), (vec![], vec![]));
    assert_eq!(feed_all(&[b"abc"]), (vec![], b"abc".to_vec()));
}

#[test]
fn connection_ids_start_at_one_and_increase() {
    let mut f: ConnectionFrontEnd<u32> = ConnectionFrontEnd::new();
    let a = f.start_connection(vec!["x"]).unwrap();
    let b = f.start_connection(Vec::<&str>::new()).unwrap();
    assert_eq!(a.cid, 1);
    assert_eq!(a.addrs, vec!["x"]);
    assert_eq!(b.cid, 2);
}

#[test]
fn link_events_become_events() {
    let mut f: ConnectionFrontEnd<u32> = ConnectionFrontEnd::new();
    let events = f.process_link_events(vec![
        LinkEvt::Established(1, 77),
        LinkEvt::Data(1, b"hel".to_vec()),
        LinkEvt::Data(1, b"lo\nwor".to_vec()),
        LinkEvt::Data(1, b"ld\n".to_vec()),
        LinkEvt::CouldntEstablish(2),
    ]);
    assert_eq!(
        events,
        vec![
            Event::ConnectionStart { which: 1 },
            Event::ServerText { line: "hello".to_string(), which: 1 },
            Event::ServerText { line: "world".to_string(), which: 1 },
            Event::ConnectionEnd { which: 2, reason: "Could not establish connection".to_string() },
        ]
    );
    assert_eq!(f.link(1), Some(&77));
    assert_eq!(f.link(2), None);
}

#[test]
fn errors_and_eof_end_connections() {
    let mut f: ConnectionFrontEnd<u32> = ConnectionFrontEnd::new();
    let events = f.process_link_events(vec![
        LinkEvt::Established(1, 5),
        LinkEvt::Established(2, 6),
        LinkEvt::Data(1, b"partial".to_vec()),
        LinkEvt::Error(1, "reset".to_string()),
        LinkEvt::Eof(2),
        LinkEvt::Data(1, b"\n".to_vec()),
    ]);
    assert_eq!(
        events,
        vec![
            Event::ConnectionStart { which: 1 },
            Event::ConnectionStart { which: 2 },
            Event::ConnectionEnd { which: 1, reason: "Link error: reset".to_string() },
            Event::ConnectionEnd { which: 2, reason: "End of connection".to_string() },
            // The partial line was dropped with the connection.
            Event::ServerText { line: "".to_string(), which: 1 },
        ]
    );
    assert_eq!(f.link(1), None);
    assert_eq!(f.link(2), None);
}

#[test]
fn invalid_utf8_is_replaced() {
    let mut f: ConnectionFrontEnd<u32> = ConnectionFrontEnd::new();
    let events = f.process_link_events(vec![LinkEvt::Data(4, vec![b'o', 0xff, b'k', b'\n'])]);
    assert_eq!(events, vec![Event::ServerText { line: "o\u{FFFD}k".to_string(), which: 4 }]);
}

#[test]
fn dialer_tries_candidates_from_the_last_and_gives_up_once() {
    let mut f: ConnectionFrontEnd<u32> = ConnectionFrontEnd::new();
    let mut d: Dialer<&str> = Dialer::new();
    let req = f.start_connection(vec!["x", "y"]).unwrap();
    let cid = d.add_request(req);
    assert_eq!(d.next_candidate(cid), DialStep::Connect("y"));
    assert_eq!(d.next_candidate(cid), DialStep::Connect("x"));
    assert_eq!(d.next_candidate(cid), DialStep::GaveUp);
    assert!(!d.is_pending(cid));
    assert_eq!(d.next_candidate(cid), DialStep::NotPending);
}

/// Runs the dial loop the dialer thread runs, with `reachable` deciding
/// which connects succeed; returns the connected address and the notices.
fn dial(d: &mut Dialer<&'static str>, cid: usize, reachable: &[&str]) -> (Option<&'static str>, Vec<LinkEvt<u32>>) {
    loop {
        match d.next_candidate(cid) {
            DialStep::Connect(a) => {
                if reachable.contains(&a) {
                    return (Some(a), vec![]);
                }
            }
            DialStep::GaveUp => return (None, vec![LinkEvt::CouldntEstablish(cid)]),
            DialStep::NotPending => return (None, vec![]),
        }
    }
}

#[test]
fn only_the_answering_candidate_starts_the_connection() {
    let mut f: ConnectionFrontEnd<u32> = ConnectionFrontEnd::new();
    let mut d: Dialer<&'static str> = Dialer::new();
    let cid = d.add_request(f.start_connection(vec!["X", "Y", "Z"]).unwrap());
    let (conn, mut notices) = dial(&mut d, cid, &["Z"]);
    assert_eq!(conn, Some("Z"));
    assert_eq!(d.on_read(cid, ReadOutcome::Received), ReadReaction::Received { confirms: true });
    notices.push(LinkEvt::Established(cid, 9));
    notices.push(LinkEvt::Data(cid, b"welcome\n".to_vec()));
    assert_eq!(d.on_read(cid, ReadOutcome::Received), ReadReaction::Received { confirms: false });
    notices.push(LinkEvt::Data(cid, b"more\n".to_vec()));
    assert_eq!(d.on_read(cid, ReadOutcome::WouldBlock), ReadReaction::Drained);
    let events = f.process_link_events(notices);
    assert_eq!(
        events,
        vec![
            Event::ConnectionStart { which: cid },
            Event::ServerText { line: "welcome".to_string(), which: cid },
            Event::ServerText { line: "more".to_string(), which: cid },
        ]
    );
}

#[test]
fn unreachable_candidates_end_once() {
    let mut f: ConnectionFrontEnd<u32> = ConnectionFrontEnd::new();
    let mut d: Dialer<&'static str> = Dialer::new();
    let cid = d.add_request(f.start_connection(vec!["X", "Y", "Z"]).unwrap());
    let (conn, notices) = dial(&mut d, cid, &[]);
    assert_eq!(conn, None);
    let events = f.process_link_events(notices);
    assert_eq!(
        events,
        vec![Event::ConnectionEnd { which: cid, reason: "Could not establish connection".to_string() }]
    );
}

#[test]
fn nothing_listening_on_localhost_ends_with_establishment_failure() {
    // The address "127.0.0.1:<port>" resolves to one candidate, and a
    // connect to a port with nothing listening fails.
    let mut f: ConnectionFrontEnd<u32> = ConnectionFrontEnd::new();
    let mut d: Dialer<&'static str> = Dialer::new();
    let cid = d.add_request(f.start_connection(vec!["127.0.0.1:1"]).unwrap());
    let (conn, notices) = dial(&mut d, cid, &[]);
    assert_eq!(conn, None);
    let events = f.process_link_events(notices);
    assert_eq!(events.len(), 1);
    assert_eq!(
        events[0],
        Event::ConnectionEnd { which: cid, reason: "Could not establish connection".to_string() }
    );
    assert!(!events.iter().any(|e| matches!(e, Event::ServerText { .. })));
}

#[test]
fn read_failures_redial_while_candidates_remain() {
    let mut d: Dialer<&str> = Dialer::new();
    d.add_request(mint_client::ConnectionRequest { addrs: vec!["a", "b"], cid: 3 });
    assert_eq!(d.next_candidate(3), DialStep::Connect("b"));
    assert_eq!(d.on_read(3, ReadOutcome::Failed), ReadReaction::Failed { redial: true });
    assert_eq!(d.next_candidate(3), DialStep::Connect("a"));
    assert_eq!(d.on_read(3, ReadOutcome::Failed), ReadReaction::Failed { redial: false });
    assert!(!d.is_pending(3));
    assert_eq!(d.on_read(3, ReadOutcome::Failed), ReadReaction::Failed { redial: false });
}

#[test]
fn closed_stream_ends_the_request() {
    let mut d: Dialer<&str> = Dialer::new();
    d.add_request(mint_client::ConnectionRequest { addrs: vec!["a", "b"], cid: 5 });
    assert_eq!(d.next_candidate(5), DialStep::Connect("b"));
    assert_eq!(d.on_read(5, ReadOutcome::Closed), ReadReaction::Closed);
    assert!(!d.is_pending(5));
}
