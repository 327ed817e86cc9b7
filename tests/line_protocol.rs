use panopticon::framing::{Framed, LineFramer, MAX_LINE_LENGTH};
use panopticon::protocol::{
    check_authz, classify_line, IgnoreReason, Message, ReadEvent, RejectReason, Session,
    SessionAction, SessionPhase,
};

/// Feeds a whole stream to a framer in chunks of `chunk` bytes and collects
/// every completed read, ending with the end of the stream.
fn frame_all(framer: &mut LineFramer, data: &[u8], chunk: usize) -> Vec<Framed> {
    let mut out = Vec::new();
    let mut pos = 0;
    loop {
        let end = (pos + chunk).min(data.len());
        let (n, ev) = framer.feed(&data[pos..end]);
        pos += n;
        if let Some(ev) = ev {
            let done = ev == Framed::End;
            out.push(ev);
            if done {
                return out;
            }
        }
    }
}

#[test]
fn framer_splits_lines_and_keeps_newlines() {
    let mut f = LineFramer::new(MAX_LINE_LENGTH);
    let out = frame_all(&mut f, b"LOG: a\nSCAN: 80:00:48:23:4C\n", 4096);
    assert_eq!(
        out,
        vec![
            Framed::Line(b"LOG: a\n".to_vec()),
            Framed::Line(b"SCAN: 80:00:48:23:4C\n".to_vec()),
            Framed::End,
        ]
    );
}

#[test]
fn framer_consumes_up_to_the_first_newline() {
    let mut f = LineFramer::new(16);
    let (n, ev) = f.feed(b"ab\ncd\n");
    assert_eq!(n, 3);
    assert_eq!(ev, Some(Framed::Line(b"ab\n".to_vec())));
    let (n, ev) = f.feed(b"cd");
    assert_eq!(n, 2);
    assert_eq!(ev, None);
    assert_eq!(f.pending, b"cd".to_vec());
}

#[test]
fn oversized_line_rejected_then_next_line_read() {
    let mut data = vec![b'x'; MAX_LINE_LENGTH + 100];
    data.push(b'\n');
    data.extend_from_slice(b"SCAN: 80:00:48:23:4C\n");
    for chunk in [7, 1000, 4096, 100_000] {
        let mut f = LineFramer::new(MAX_LINE_LENGTH);
        let out = frame_all(&mut f, &data, chunk);
        assert_eq!(
            out,
            vec![
                Framed::TooLong,
                Framed::Line(b"SCAN: 80:00:48:23:4C\n".to_vec()),
                Framed::End,
            ],
            "chunk size {chunk}"
        );
    }
}

#[test]
fn line_of_exactly_the_maximum_is_accepted() {
    let mut data = vec![b'a'; 9];
    data.push(b'\n');
    let mut f = LineFramer::new(10);
    assert_eq!(frame_all(&mut f, &data, 3)[0], Framed::Line(data.clone()));
    let mut longer = vec![b'a'; 10];
    longer.push(b'\n');
    let mut f = LineFramer::new(10);
    assert_eq!(frame_all(&mut f, &longer, 3)[0], Framed::TooLong);
}

#[test]
fn oversized_line_cut_by_end_of_stream() {
    let data = vec![b'z'; 50];
    let mut f = LineFramer::new(10);
    assert_eq!(frame_all(&mut f, &data, 8), vec![Framed::TooLong, Framed::End]);
}

#[test]
fn partial_last_line_is_delivered_at_end() {
    let mut f = LineFramer::new(MAX_LINE_LENGTH);
    assert_eq!(
        frame_all(&mut f, b"LOG: tail", 4),
        vec![Framed::Line(b"LOG: tail".to_vec()), Framed::End]
    );
}

#[test]
fn non_utf8_line_is_rejected_alone() {
    let mut f = LineFramer::new(MAX_LINE_LENGTH);
    let out = frame_all(&mut f, b"LOG: \xff\xfe\nLOG: ok\n", 64);
    assert_eq!(
        out,
        vec![Framed::NotUtf8, Framed::Line(b"LOG: ok\n".to_vec()), Framed::End]
    );
}

#[test]
fn multibyte_text_split_across_chunks_is_kept() {
    let line = "LOG: caf\u{e9} \u{2603}\n".as_bytes().to_vec();
    let mut f = LineFramer::new(MAX_LINE_LENGTH);
    let out = frame_all(&mut f, &line, 1);
    assert_eq!(out[0], Framed::Line(line.clone()));
    assert_eq!(classify_line(&line), Message::Log("caf\u{e9} \u{2603}".to_string()));
}

#[test]
fn classify_recognises_each_shape() {
    assert_eq!(classify_line(b"LOG: [INFO main] hi\r\n"), Message::Log("[INFO main] hi".to_string()));
    assert_eq!(
        classify_line(b"  SCAN: 80:00:48:23:4C \n"),
        Message::Scan("80:00:48:23:4C".to_string())
    );
    assert_eq!(classify_line(b"SCAN: 80:00:48:23:4c\n"), Message::InvalidScan);
    assert_eq!(classify_line(b"SCAN: 80:00:48:23\n"), Message::InvalidScan);
    assert_eq!(classify_line(b"SCAN: GG:00:48:23:4C\n"), Message::InvalidScan);
    assert_eq!(classify_line(b"SCAN: \xc3\x28\n"), Message::NotText);
    assert_eq!(classify_line(b" \t\r\n"), Message::Empty);
    assert_eq!(classify_line(b"PING\n"), Message::Unknown);
    assert_eq!(classify_line(b"LOG:\n"), Message::Unknown);
    assert_eq!(classify_line(b"log: x\n"), Message::Unknown);
}

#[test]
fn authz_line_must_carry_the_secret() {
    assert!(check_authz(b"AUTHZ: s3cret\n", b"s3cret"));
    assert!(check_authz(b"AUTHZ: s3cret\r\n", b"s3cret"));
    assert!(!check_authz(b"AUTHZ: wrong\n", b"s3cret"));
    assert!(!check_authz(b"AUTHZ: s3cret2\n", b"s3cret"));
    assert!(!check_authz(b"AUTH: s3cret\n", b"s3cret"));
    assert!(!check_authz(b"s3cret\n", b"s3cret"));
}

fn line(s: &str) -> ReadEvent {
    ReadEvent::Framed(Framed::Line(s.as_bytes().to_vec()))
}

#[test]
fn session_authenticates_then_dispatches() {
    let mut s = Session::new(b"s3cret".to_vec());
    assert_eq!(s.on_read(line("AUTHZ: s3cret\n")), SessionAction::Authenticated);
    assert_eq!(s.phase, SessionPhase::Active);
    assert_eq!(s.on_read(line("LOG: hello\n")), SessionAction::StoreLog("hello".to_string()));
    assert_eq!(
        s.on_read(line("SCAN: 80:00:48:23:4C\n")),
        SessionAction::ProcessScan("80:00:48:23:4C".to_string())
    );
    assert_eq!(s.on_read(line("SCAN: bad\n")), SessionAction::Ignored(IgnoreReason::MalformedTag));
    assert_eq!(s.on_read(line("HELLO\n")), SessionAction::Ignored(IgnoreReason::Unknown));
    assert_eq!(s.on_read(line("\n")), SessionAction::Ignored(IgnoreReason::Empty));
    assert_eq!(s.on_read(ReadEvent::Framed(Framed::End)), SessionAction::Disconnected);
    assert_eq!(s.phase, SessionPhase::Closed);
    assert_eq!(s.on_read(line("LOG: late\n")), SessionAction::Finished);
}

#[test]
fn session_survives_oversized_and_bad_lines() {
    let mut s = Session::new(b"k".to_vec());
    assert_eq!(s.on_read(line("AUTHZ: k\n")), SessionAction::Authenticated);
    assert_eq!(
        s.on_read(ReadEvent::Framed(Framed::TooLong)),
        SessionAction::Ignored(IgnoreReason::TooLong)
    );
    assert_eq!(
        s.on_read(ReadEvent::Framed(Framed::NotUtf8)),
        SessionAction::Ignored(IgnoreReason::NotUtf8)
    );
    assert_eq!(
        s.on_read(line("SCAN: 80:00:48:23:4C\n")),
        SessionAction::ProcessScan("80:00:48:23:4C".to_string())
    );
    assert_eq!(s.on_read(ReadEvent::Failed), SessionAction::Disconnected);
}

#[test]
fn session_rejects_before_authentication() {
    let cases = [
        (line("AUTHZ: nope\n"), RejectReason::BadAuthz),
        (line("LOG: hi\n"), RejectReason::BadAuthz),
        (ReadEvent::Framed(Framed::TooLong), RejectReason::BadAuthz),
        (ReadEvent::Framed(Framed::End), RejectReason::ClosedBeforeAuthz),
        (ReadEvent::TimedOut, RejectReason::TimedOut),
        (ReadEvent::Failed, RejectReason::ReadFailed),
    ];
    for (ev, reason) in cases {
        let mut s = Session::new(b"k".to_vec());
        assert_eq!(s.on_read(ev), SessionAction::Rejected(reason));
        assert_eq!(s.phase, SessionPhase::Closed);
    }
}
