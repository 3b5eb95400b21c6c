//! How a `Seekable` resumes, against a server that truncates bodies on purpose.

use jetstreamer::cursor::ErrorKind;
use jetstreamer::http_seek::errors::{
    is_retryable, Failure, ProbeError, RangeError, RangeMismatch, RangeStatus, ReopenExhausted,
    ShortBody,
};
use jetstreamer::http_seek::content_range::{content_range_start, content_range_total};
use jetstreamer::http_seek::{
    check_range_response, reopen_delay, Phase, ReadAction, ReadEvent, Seekable,
    MAX_REOPEN_ATTEMPTS,
};
use jetstreamer::node_reader::Len;
use jetstreamer::seek_from::{SeekError, SeekFrom};

const PAYLOAD_LEN: usize = 1 << 20;

/// How the server answers one range request.
#[derive(Clone, Copy)]
enum Reply {
    /// `206`, whole range.
    Full,
    /// `206`, but the connection breaks after this many bytes.
    TruncateAfter(usize),
    /// `206`, but the body ends cleanly after this many bytes.
    NoLengthTruncateAfter(usize),
    /// Empty response with this status.
    Status(u16),
}

struct Server {
    payload: Vec<u8>,
    plan: fn(usize) -> Reply,
    /// Where each request started, in order.
    request_starts: Vec<u64>,
    body: Vec<u8>,
    read: usize,
    breaks: bool,
    delay_ms: u64,
}

fn payload() -> Vec<u8> {
    let mut x: u32 = 0x9E37_79B9;
    (0..PAYLOAD_LEN)
        .map(|_| {
            x ^= x << 13;
            x ^= x >> 17;
            x ^= x << 5;
            (x & 0xFF) as u8
        })
        .collect()
}

impl Server {
    fn new(plan: fn(usize) -> Reply) -> Server {
        Server {
            payload: payload(),
            plan,
            request_starts: Vec::new(),
            body: Vec::new(),
            read: 0,
            breaks: false,
            delay_ms: 0,
        }
    }

    fn content_range(&self, start: u64, end: u64) -> Option<Vec<u8>> {
        Some(format!("bytes {}-{}/{}", start, end, self.payload.len()).into_bytes())
    }

    fn open(&self) -> Seekable {
        Seekable::new(Seekable::fetch_file_size(206, &self.content_range(0, 0)))
    }

    fn answer(&mut self, range: &str) -> ReadEvent {
        let (start, end) = range.strip_prefix("bytes=").unwrap().split_once('-').unwrap();
        let start: u64 = start.parse().unwrap();
        let end: u64 = end.parse().unwrap();
        let reply = (self.plan)(self.request_starts.len());
        self.request_starts.push(start);
        let whole = self.payload[start as usize..=end as usize].to_vec();
        self.read = 0;
        self.breaks = matches!(reply, Reply::TruncateAfter(_));
        self.body = match reply {
            Reply::Full => whole,
            Reply::TruncateAfter(n) | Reply::NoLengthTruncateAfter(n) => whole[..n.min(whole.len())].to_vec(),
            Reply::Status(status) => {
                return ReadEvent::Responded { status, content_range: None };
            }
        };
        ReadEvent::Responded { status: 206, content_range: self.content_range(start, end) }
    }

    fn read_body(&mut self, out: &mut Vec<u8>, wanted: usize) -> ReadEvent {
        let left = self.body.len() - self.read;
        if left == 0 && self.breaks {
            return ReadEvent::BodyFailed(vec![
                "error decoding response body".to_string(),
                "IncompleteBody".to_string(),
            ]);
        }
        let n = left.min(wanted).min(8192);
        out.extend_from_slice(&self.body[self.read..self.read + n]);
        self.read += n;
        ReadEvent::Body { read: n as u64, remaining: (wanted - n) as u64 }
    }
}

fn read_exact(reader: &mut Seekable, server: &mut Server, n: usize) -> Result<Vec<u8>, RangeError> {
    let mut out: Vec<u8> = Vec::new();
    while out.len() < n {
        let wanted = n - out.len();
        let mut action = reader.poll_read(ReadEvent::Poll);
        loop {
            let event = match action {
                ReadAction::Ready => break,
                ReadAction::Fail(error) => return Err(error),
                ReadAction::Open { delay_ms } => {
                    server.delay_ms += delay_ms;
                    server.answer(&reader.open_range())
                }
                ReadAction::AwaitOpen => server.answer(&reader.open_range()),
                ReadAction::ReadBody => server.read_body(&mut out, wanted),
            };
            action = reader.poll_read(event);
        }
    }
    Ok(out)
}

#[test]
fn resumes_at_current_offset_after_content_length_body_is_cut() {
    let mut server = Server::new(|i| {
        [100_000usize, 250_000, 7].get(i).map_or(Reply::Full, |n| Reply::TruncateAfter(*n))
    });
    let mut reader = server.open();
    assert_eq!(reader.file_size, Some(PAYLOAD_LEN as u64));
    let out = read_exact(&mut reader, &mut server, PAYLOAD_LEN)
        .expect("full payload despite three cuts");

    assert_eq!(out, server.payload);
    assert_eq!(reader.position, PAYLOAD_LEN as u64);
    assert_eq!(server.request_starts, vec![0, 100_000, 350_000, 350_007]);
}

#[test]
fn resumes_when_body_ends_cleanly_before_range_end() {
    let mut server = Server::new(|i| {
        if i == 0 {
            Reply::NoLengthTruncateAfter(65_536)
        } else {
            Reply::Full
        }
    });
    let mut reader = server.open();
    let out = read_exact(&mut reader, &mut server, PAYLOAD_LEN)
        .expect("full payload after clean early EOF");

    assert_eq!(out, server.payload);
    assert_eq!(server.request_starts, vec![0, 65_536]);
}

#[test]
fn retries_server_error_on_open() {
    let mut server =
        Server::new(|i| if i == 0 { Reply::Status(503) } else { Reply::Full });
    let mut reader = server.open();
    let out = read_exact(&mut reader, &mut server, 4096).expect("503 on open is retried");

    assert_eq!(out, server.payload[..4096]);
    assert_eq!(server.request_starts, vec![0, 0]);
}

#[test]
fn client_error_on_open_is_not_retried() {
    let mut server = Server::new(|_| Reply::Status(404));
    let mut reader = server.open();
    let err = read_exact(&mut reader, &mut server, 16).expect_err("404 must surface");

    assert_ne!(err.kind(), ErrorKind::UnexpectedEof, "{}", err.text());
    assert_eq!(server.request_starts, vec![0]);
    assert_eq!(
        err.text(),
        "http range reopen gave up after 1 failure(s) at pos=0: range GET pos=0 returned 404 Not Found"
    );
}

#[test]
fn gives_up_after_repeated_failures_without_progress() {
    let mut server = Server::new(|_| Reply::TruncateAfter(0));
    let mut reader = server.open();
    let err = read_exact(&mut reader, &mut server, 16).expect_err("no progress must surface");

    assert_ne!(
        err.kind(),
        ErrorKind::UnexpectedEof,
        "a failed resume must not look like end of stream: {}",
        err.text()
    );
    let attempts = server.request_starts.len();
    assert!((3..=8).contains(&attempts), "attempts={attempts}");
    assert!(server.delay_ms < 10_000, "elapsed={}", server.delay_ms);
    assert_eq!(attempts, 7);
    assert_eq!(server.delay_ms, 3_100);
    assert_eq!(
        err.text(),
        "http range reopen gave up after 7 failure(s) at pos=0: error decoding response body -> IncompleteBody"
    );
    // The failure is sticky until the caller seeks again.
    let again = read_exact(&mut reader, &mut server, 16).expect_err("sticky failure");
    assert_ne!(again.kind(), ErrorKind::UnexpectedEof);
    assert_eq!(again, RangeError::Closed(0));
    assert_eq!(
        again.text(),
        "http range stream closed after repeated failures at pos=0; seek to reopen"
    );
    assert_eq!(server.request_starts.len(), attempts);
}

#[test]
fn seek_reopens_range_at_new_offset_and_resets_failures() {
    let mut server =
        Server::new(|i| if i == 0 { Reply::Status(404) } else { Reply::Full });
    let mut reader = server.open();
    read_exact(&mut reader, &mut server, 16).expect_err("first open fails");
    assert_eq!(reader.phase, Phase::Failed);

    reader.start_seek(SeekFrom::Start(300_000)).expect("seek");
    assert_eq!(reader.poll_complete(), 300_000);
    assert_eq!(reader.reopen_failures, 0);
    let out = read_exact(&mut reader, &mut server, 16).expect("read after seek");
    assert_eq!(out, server.payload[300_000..300_016]);
    assert_eq!(reader.position, 300_016);

    reader.start_seek(SeekFrom::Current(-16)).expect("seek back");
    let again = read_exact(&mut reader, &mut server, 16).expect("re-read");
    assert_eq!(again, out);
    assert_eq!(server.request_starts, vec![0, 300_000, 300_000]);
}

#[test]
fn read_at_end_reports_unexpected_eof() {
    let mut server = Server::new(|_| Reply::Full);
    let mut reader = server.open();
    reader.start_seek(SeekFrom::Start(PAYLOAD_LEN as u64)).expect("seek to end");
    let err = read_exact(&mut reader, &mut server, 16).expect_err("eof");
    assert_eq!(err.kind(), ErrorKind::UnexpectedEof);
    assert_eq!(err.text(), "EOF reached");
}

#[test]
fn progress_restores_the_attempts() {
    let mut server = Server::new(|i| {
        if i % 6 == 5 {
            Reply::TruncateAfter(1)
        } else {
            Reply::TruncateAfter(0)
        }
    });
    let mut reader = server.open();
    let out = read_exact(&mut reader, &mut server, 4).expect("a byte every six attempts");
    assert_eq!(out, server.payload[..4]);
    assert_eq!(server.request_starts.len(), 24);
    assert_eq!(reader.reopen_failures, 0);
}

#[test]
fn a_body_of_unknown_length_may_end() {
    let mut reader = Seekable::new(Err(ProbeError::NoSize));
    assert_eq!(reader.file_size, None);
    assert_eq!(reader.len(), 0);
    assert!(reader.is_empty());
    assert_eq!(reader.open_range(), "bytes=0-");
    assert_eq!(
        reader.poll_read(ReadEvent::Responded { status: 200, content_range: None }),
        ReadAction::ReadBody
    );
    assert_eq!(reader.poll_read(ReadEvent::Body { read: 5, remaining: 3 }), ReadAction::Ready);
    assert_eq!(reader.poll_read(ReadEvent::Body { read: 0, remaining: 3 }), ReadAction::Ready);
    assert_eq!(reader.position, 5);
    assert_eq!(reader.start_seek(SeekFrom::End(0)), Err(SeekError::LengthUnknown));
    assert_eq!(SeekError::LengthUnknown.kind(), ErrorKind::Unsupported);
    assert_eq!(SeekError::LengthUnknown.text(), "length unknown");
    assert_eq!(reader.start_seek(SeekFrom::Start(1 << 40)), Ok(()));
    assert_eq!(reader.position, 1 << 40);
    assert!(!reader.at_end());
}

#[test]
fn an_empty_buffer_is_no_cut() {
    let mut reader = Seekable::new(Ok(10));
    reader.poll_read(ReadEvent::Responded { status: 206, content_range: None });
    assert_eq!(reader.poll_read(ReadEvent::Body { read: 0, remaining: 0 }), ReadAction::Ready);
    assert_eq!(reader.phase, Phase::Streaming);
    assert_eq!(
        reader.poll_read(ReadEvent::Body { read: 0, remaining: 1 }),
        ReadAction::Open { delay_ms: 0 }
    );
    assert_eq!(
        reader.poll_read(ReadEvent::OpenFailed(vec!["refused".to_string()])),
        ReadAction::Open { delay_ms: 100 }
    );
    assert_eq!(reader.reopen_failures, 2);
}

#[test]
fn ranges_end_with_the_file() {
    let mut reader = Seekable::new(Ok(10));
    assert_eq!(reader.len(), 10);
    assert_eq!(reader.open_range(), "bytes=0-9");
    reader.start_seek(SeekFrom::End(-3)).expect("seek");
    assert_eq!(reader.open_range(), "bytes=7-9");
    assert!(!reader.at_end());
    reader.start_seek(SeekFrom::Start(30)).expect("seek");
    assert_eq!(reader.position, 10);
    assert!(reader.at_end());
    assert_eq!(reader.start_seek(SeekFrom::Current(-11)), Err(SeekError::Negative));
    assert_eq!(Seekable::new(Ok(0)).open_range(), "bytes=0-0");
}

#[test]
fn delays_double_up_to_a_limit() {
    let delays: Vec<u64> = (0..10).map(reopen_delay).collect();
    assert_eq!(delays, vec![0, 0, 100, 200, 400, 800, 1600, 1600, 1600, 1600]);
    assert_eq!(reopen_delay(u32::MAX), 1600);
    let total: u64 = (1..=MAX_REOPEN_ATTEMPTS).map(reopen_delay).sum();
    assert_eq!(total, 3100);
}

#[test]
fn the_size_comes_from_the_probe() {
    let value = |text: &str| Some(text.as_bytes().to_vec());
    assert_eq!(Seekable::fetch_file_size(206, &value("bytes 0-0/1048576")), Ok(1048576));
    assert_eq!(Seekable::fetch_file_size(206, &value("bytes 0-0/ 12 /9")), Ok(12));
    assert_eq!(Seekable::fetch_file_size(206, &value("bytes 0-0/*")), Err(ProbeError::NoSize));
    assert_eq!(Seekable::fetch_file_size(206, &value("bytes 0-0")), Err(ProbeError::NoSize));
    assert_eq!(Seekable::fetch_file_size(206, &None), Err(ProbeError::NoSize));
    assert_eq!(
        Seekable::fetch_file_size(200, &value("bytes 0-0/12")),
        Err(ProbeError::Status(200))
    );
}

#[test]
fn probe_errors_have_messages() {
    assert_eq!(ProbeError::Status(200).text(), "size probe status 200 OK");
    assert_eq!(ProbeError::Status(200).kind(), ErrorKind::Unsupported);
    assert_eq!(ProbeError::NoSize.text(), "failed to determine file size");
    assert_eq!(ProbeError::NoSize.kind(), ErrorKind::Other);
    assert_eq!(ProbeError::Transport("refused".to_string()).text(), "refused");
    assert_eq!(ProbeError::Transport("refused".to_string()).kind(), ErrorKind::Other);
}

#[test]
fn content_ranges_are_read_leniently() {
    assert_eq!(content_range_start(b"bytes 5-9/10"), Some(5));
    assert_eq!(content_range_start(b"  bytes +5 -9/10"), Some(5));
    assert_eq!(content_range_start(b"bytes 18446744073709551615-/"), Some(u64::MAX));
    assert_eq!(content_range_start(b"bytes 18446744073709551616-/"), None);
    assert_eq!(content_range_start(b"bytes */10"), None);
    assert_eq!(content_range_start(b"octets 5-9/10"), None);
    assert_eq!(content_range_start(b"bytes 5"), None);
    assert_eq!(content_range_start(b"bytes \xe9-9/10"), None);
    assert_eq!(content_range_total(b"bytes 5-9/10"), Some(10));
    assert_eq!(content_range_total(b"/10"), Some(10));
    assert_eq!(content_range_total(b"bytes 5-9/1\xe90"), None);
    assert_eq!(content_range_total(b"bytes 5-9/"), None);
}

#[test]
fn responses_must_serve_the_requested_range() {
    let value = Some(b"bytes 5-9/10".to_vec());
    assert_eq!(check_range_response(206, &value, 5), Ok(()));
    assert_eq!(check_range_response(206, &None, 5), Ok(()));
    assert_eq!(check_range_response(206, &Some(b"nonsense".to_vec()), 5), Ok(()));
    assert_eq!(
        check_range_response(206, &value, 0),
        Err(Failure::Mismatch(RangeMismatch { requested: 0, served: 5 }))
    );
    assert_eq!(check_range_response(200, &value, 0), Ok(()));
    assert_eq!(
        check_range_response(200, &value, 5),
        Err(Failure::Status(RangeStatus { status: 200, position: 5 }))
    );
    assert_eq!(
        check_range_response(416, &None, 0),
        Err(Failure::Status(RangeStatus { status: 416, position: 0 }))
    );
}

#[test]
fn only_server_errors_and_throttling_are_retried() {
    let status = |status: u16| Failure::Status(RangeStatus { status, position: 3 });
    for code in [500u16, 503, 599, 429] {
        assert!(is_retryable(&status(code)), "{code}");
    }
    for code in [200u16, 301, 404, 416, 499, 600] {
        assert!(!is_retryable(&status(code)), "{code}");
    }
    assert!(is_retryable(&Failure::Mismatch(RangeMismatch { requested: 1, served: 2 })));
    assert!(is_retryable(&Failure::ShortBody(ShortBody { position: 1, expected_end: None })));
    assert!(is_retryable(&Failure::Transport(vec!["reset".to_string()])));
}

#[test]
fn failures_have_messages() {
    assert_eq!(
        Failure::Status(RangeStatus { status: 503, position: 3 }).text(),
        "range GET pos=3 returned 503 Service Unavailable"
    );
    assert_eq!(
        Failure::Mismatch(RangeMismatch { requested: 1, served: 2 }).text(),
        "range GET requested pos=1 but Content-Range starts at 2"
    );
    assert_eq!(
        Failure::ShortBody(ShortBody { position: 1, expected_end: Some(9) }).text(),
        "body ended at pos=1 before range end Some(9)"
    );
    assert_eq!(
        Failure::ShortBody(ShortBody { position: 1, expected_end: None }).text(),
        "body ended at pos=1 before range end None"
    );
    let source = Failure::Transport(vec!["a".to_string(), "b".to_string(), "c".to_string()]);
    assert_eq!(source.text(), "a -> b -> c");
    let exhausted = ReopenExhausted { attempts: 7, position: 42, source };
    assert_eq!(
        exhausted.text(),
        "http range reopen gave up after 7 failure(s) at pos=42: a -> b -> c"
    );
    assert_eq!(RangeError::Exhausted(exhausted).kind(), ErrorKind::Other);
    assert_eq!(RangeError::Closed(1).kind(), ErrorKind::Other);
}
