//! What holds of a [`Seekable`] over whole sessions: what it delivers, how long it goes on
//! trying, and when it reports the end of the file.

use vstd::arithmetic::power2::{lemma2_to64, lemma_pow2_unfold};
use vstd::prelude::*;

use super::content_range::{content_range, law_content_range, range_start, range_total};
use super::errors::{lemma_number_between, number_between, Failure, ProbeError, RangeError, RangeMismatch, RangeStatus, ReopenExhausted, ShortBody};
use super::{range_text, reopen_delay_ms, response_failure, Phase, ReadAction, ReadEvent, Seekable, MAX_REOPEN_ATTEMPTS};
use crate::cursor::ErrorKind;
use crate::http_status::{OK_STATUS, TOO_MANY_REQUESTS};
use crate::node_reader::Len;
use crate::seek_from::{can_seek, seek_target, SeekError, SeekFrom};
use crate::text::{ascii, decimal, law_decimal_parses, parsed_u64};

verus! {

/// What happens to a reader during a session.
pub enum Input {
    Event(ReadEvent),
    Seek(SeekFrom),
}

/// Where in the file the body of a response starts: `200` serves the whole file, any other
/// status the range that its header names, or else the range that was asked for.
pub open spec fn body_start(status: u16, content_range: Option<Vec<u8>>, requested: u64) -> int {
    if status == OK_STATUS {
        0
    } else {
        match content_range {
            Some(value) => match range_start(value@) {
                Some(start) => start as int,
                None => requested as int,
            },
            None => requested as int,
        }
    }
}

/// A reader, and what it has delivered since it was last moved.
pub struct Session {
    pub reader: Seekable,
    /// Where the reader was last moved to.
    pub start: int,
    /// Where in the file the body that is being read stands.
    pub body: int,
    /// The bytes delivered since.
    pub out: Seq<u8>,
}

impl Session {
    /// A session that starts with `reader`.
    pub open spec fn opening(reader: Seekable) -> Session {
        Session { reader, start: reader.position as int, body: 0, out: Seq::empty() }
    }

    /// Whether `input` can come next, where `file` is served.
    pub open spec fn admits(self, file: Seq<u8>, input: Input) -> bool {
        match input {
            Input::Seek(from) => can_seek(from, self.reader.position, self.reader.file_size),
            Input::Event(event) => self.reader.expects(event) && (event matches ReadEvent::Body {
                read,
                ..
            } ==> self.body + read <= file.len()),
        }
    }

    /// The session after `input`, where `file` is served.
    pub open spec fn after(self, file: Seq<u8>, input: Input) -> Session {
        match input {
            Input::Seek(from) => match seek_target(
                from,
                self.reader.position,
                self.reader.file_size,
            ) {
                Ok(target) => Session::opening(self.reader.sought_to(target)),
                Err(_) => self,
            },
            Input::Event(event) => {
                let reader = self.reader.after(event).0;
                match event {
                    ReadEvent::Responded { status, content_range } => Session {
                        reader,
                        body: body_start(status, content_range, self.reader.position),
                        ..self
                    },
                    ReadEvent::Body { read, .. } => Session {
                        reader,
                        body: self.body + read,
                        out: self.out + file.subrange(self.body, self.body + read),
                        ..self
                    },
                    _ => Session { reader, ..self },
                }
            },
        }
    }

    /// The session after all of `inputs`.
    pub open spec fn after_all(self, file: Seq<u8>, inputs: Seq<Input>) -> Session
        decreases inputs.len(),
    {
        if inputs.len() == 0 {
            self
        } else {
            self.after_all(file, inputs.drop_last()).after(file, inputs.last())
        }
    }

    /// Whether each of `inputs` can come in its turn.
    pub open spec fn admits_all(self, file: Seq<u8>, inputs: Seq<Input>) -> bool
        decreases inputs.len(),
    {
        inputs.len() > 0 ==> self.admits_all(file, inputs.drop_last()) && self.after_all(
            file,
            inputs.drop_last(),
        ).admits(file, inputs.last())
    }

    /// Whether what was delivered is the part of the file from where the reader was last moved
    /// to where it stands now.
    pub open spec fn faithful(self, file: Seq<u8>) -> bool {
        &&& self.start + self.out.len() == self.reader.position
        &&& forall|i: int| 0 <= i < self.out.len() ==> #[trigger] self.out[i] == file[self.start + i]
    }
}

/// A body that is read starts, or goes on, exactly where the reader stands.
spec fn aligned(s: Session) -> bool {
    s.reader.wf() && (s.reader.phase is Streaming ==> s.body == s.reader.position)
}

proof fn lemma_faithful_step(file: Seq<u8>, s: Session, input: Input)
    requires
        aligned(s),
        s.faithful(file),
        s.body >= 0,
        s.admits(file, input),
    ensures
        aligned(s.after(file, input)),
        s.after(file, input).faithful(file),
        s.after(file, input).body >= 0,
{
    if let Input::Event(ReadEvent::Body { read, .. }) = input {
        let part = file.subrange(s.body, s.body + read);
        let out = s.out + part;
        assert forall|i: int| 0 <= i < out.len() implies #[trigger] out[i] == file[s.start + i] by {
            if i < s.out.len() {
                assert(out[i] == s.out[i]);
            } else {
                assert(out[i] == part[i - s.out.len()]);
            }
        }
    }
}

/// However often bodies break off, responses fail and the reader is moved, the bytes that it
/// delivers are those of the file, in order, without gap or repetition.
pub proof fn law_delivers_the_file(file: Seq<u8>, reader: Seekable, inputs: Seq<Input>)
    requires
        reader.wf(),
        !(reader.phase is Streaming),
        Session::opening(reader).admits_all(file, inputs),
    ensures
        Session::opening(reader).after_all(file, inputs).faithful(file),
        Session::opening(reader).after_all(file, inputs).reader.wf(),
{
    lemma_delivers(file, reader, inputs);
}

proof fn lemma_delivers(file: Seq<u8>, reader: Seekable, inputs: Seq<Input>)
    requires
        reader.wf(),
        !(reader.phase is Streaming),
        Session::opening(reader).admits_all(file, inputs),
    ensures
        Session::opening(reader).after_all(file, inputs).faithful(file),
        aligned(Session::opening(reader).after_all(file, inputs)),
        Session::opening(reader).after_all(file, inputs).body >= 0,
    decreases inputs.len(),
{
    if inputs.len() > 0 {
        lemma_delivers(file, reader, inputs.drop_last());
        lemma_faithful_step(
            file,
            Session::opening(reader).after_all(file, inputs.drop_last()),
            inputs.last(),
        );
    }
}

/// A reader that knows the size of the file never leaves it.
proof fn lemma_stays_within(file: Seq<u8>, reader: Seekable, inputs: Seq<Input>)
    requires
        reader.wf(),
        !(reader.phase is Streaming),
        reader.file_size == Some(file.len() as u64),
        reader.position <= file.len() <= u64::MAX,
        Session::opening(reader).admits_all(file, inputs),
    ensures
        ({
            let after = Session::opening(reader).after_all(file, inputs);
            after.reader.file_size == reader.file_size && after.reader.position <= file.len()
        }),
    decreases inputs.len(),
{
    if inputs.len() > 0 {
        lemma_stays_within(file, reader, inputs.drop_last());
        lemma_delivers(file, reader, inputs.drop_last());
    }
}

/// Once a reader that knows the size of the file reports its end, everything from where it was
/// last moved to the end has been delivered.
pub proof fn law_reads_to_the_end(file: Seq<u8>, reader: Seekable, inputs: Seq<Input>)
    requires
        reader.wf(),
        !(reader.phase is Streaming),
        reader.file_size == Some(file.len() as u64),
        reader.position <= file.len() <= u64::MAX,
        Session::opening(reader).admits_all(file, inputs),
        Session::opening(reader).after_all(file, inputs).reader.spec_at_end(),
    ensures
        ({
            let after = Session::opening(reader).after_all(file, inputs);
            after.reader.position == file.len() && after.out == file.skip(after.start)
        }),
{
    lemma_stays_within(file, reader, inputs);
    lemma_delivers(file, reader, inputs);
    let after = Session::opening(reader).after_all(file, inputs);
    lemma_start(file, reader, inputs);
    assert(after.out =~= file.skip(after.start));
}

proof fn lemma_start(file: Seq<u8>, reader: Seekable, inputs: Seq<Input>)
    ensures
        Session::opening(reader).after_all(file, inputs).start >= 0,
    decreases inputs.len(),
{
    if inputs.len() > 0 {
        lemma_start(file, reader, inputs.drop_last());
    }
}

/// Whether `event` reports that the body broke off, or could not be had.
pub open spec fn breaks_off(reader: Seekable, event: ReadEvent) -> bool {
    match event {
        ReadEvent::Poll => false,
        ReadEvent::Responded { status, content_range } => response_failure(
            status,
            content_range,
            reader.position,
        ) is Some,
        ReadEvent::OpenFailed(_) => true,
        ReadEvent::BodyFailed(_) => true,
        ReadEvent::Body { read, remaining } => read == 0 && remaining > 0 && reader.file_size is Some,
    }
}

/// When the body breaks off, the reader stays where it is: what is asked for next starts with
/// the first byte that was not delivered.
pub proof fn law_resumes_in_place(reader: Seekable, event: ReadEvent)
    requires
        reader.wf(),
        reader.expects(event),
        breaks_off(reader, event),
    ensures
        reader.after(event).0.position == reader.position,
        reader.after(event).0.file_size == reader.file_size,
        reader.after(event).1 is Open || reader.after(event).1 is Fail,
        reader.after(event).1 is Open ==> reader.after(event).0.phase is Opening,
        reader.after(event).1 is Fail ==> reader.after(event).0.phase is Failed,
{
}

/// The reader after one failure after another.
pub open spec fn after_failures(reader: Seekable, failures: Seq<Failure>) -> Seekable
    decreases failures.len(),
{
    if failures.len() == 0 {
        reader
    } else {
        after_failures(reader, failures.drop_last()).failing(failures.last()).0
    }
}

/// As many failures in a row as there are attempts are each followed by a new request, after the
/// delay that is due; one more is final.
pub proof fn law_attempts_are_bounded(reader: Seekable, failures: Seq<Failure>)
    requires
        reader.reopen_failures == 0,
        !(reader.phase is Failed),
        failures.len() <= MAX_REOPEN_ATTEMPTS + 1,
        forall|i: int| 0 <= i < failures.len() ==> #[trigger] failures[i].spec_retryable(),
    ensures
        ({
            let after = after_failures(reader, failures);
            &&& after.reopen_failures == failures.len()
            &&& after.position == reader.position
            &&& after.file_size == reader.file_size
            &&& after.phase == if failures.len() == 0 {
                reader.phase
            } else if failures.len() <= MAX_REOPEN_ATTEMPTS {
                Phase::Opening { delay_ms: reopen_delay_ms(failures.len() as u32) as u64 }
            } else {
                Phase::Failed
            }
        }),
    decreases failures.len(),
{
    if failures.len() > 0 {
        assert(failures.last() == failures[failures.len() - 1]);
        law_attempts_are_bounded(reader, failures.drop_last());
    }
}

/// A single byte that is read wipes out the failures before it.
pub proof fn law_progress_restores_attempts(reader: Seekable, read: u64, remaining: u64)
    requires
        reader.expects(ReadEvent::Body { read, remaining }),
        read > 0,
    ensures
        reader.after(ReadEvent::Body { read, remaining }).0.reopen_failures == 0,
        reader.after(ReadEvent::Body { read, remaining }).0.phase is Streaming,
        reader.after(ReadEvent::Body { read, remaining }).0.position == reader.position + read,
        reader.after(ReadEvent::Body { read, remaining }).1 is Ready,
{
}

/// The time spent on the delays before the first `n` reopen attempts in a row.
pub open spec fn total_delay_ms(n: nat) -> nat
    decreases n,
{
    if n == 0 {
        0
    } else {
        total_delay_ms((n - 1) as nat) + reopen_delay_ms(n as u32)
    }
}

/// All the delays before the reader gives up add up to little over three seconds.
pub proof fn law_total_delay()
    ensures
        total_delay_ms(MAX_REOPEN_ATTEMPTS as nat) == 3100,
{
    lemma2_to64();
    reveal_with_fuel(total_delay_ms, 7);
}

/// A read fails with the kind that marks the end of a stream exactly when the file has been
/// read to its end; giving up never looks like it.
pub proof fn law_end_of_file(reader: Seekable, event: ReadEvent)
    requires
        reader.expects(event),
    ensures
        (reader.after(event).1 matches ReadAction::Fail(e) && e.spec_kind()
            == ErrorKind::UnexpectedEof) <==> event is Poll && reader.spec_at_end(),
{
}

/// A reader that has given up stays as it is, and says so at each read, until it is moved.
pub proof fn law_failed_until_moved(reader: Seekable, event: ReadEvent)
    requires
        reader.phase is Failed,
        reader.expects(event),
    ensures
        reader.after(event).0 == reader,
        !reader.spec_at_end() ==> reader.after(event).1 == ReadAction::Fail(
            RangeError::Closed(reader.position),
        ),
{
}

/// Moving a reader wipes out whatever has happened to it: what follows depends on the file and
/// on the new offset alone.
pub proof fn law_seek_starts_afresh(reader: Seekable, target: u64)
    ensures
        reader.sought_to(target) == (Seekable {
            file_size: reader.file_size,
            position: reader.sought_to(target).position,
            phase: Phase::Opening { delay_ms: 0 },
            reopen_failures: 0,
        }),
        reader.file_size is None ==> reader.sought_to(target).position == target,
        reader.file_size matches Some(size) ==> reader.sought_to(target).position == if target
            <= size {
            target
        } else {
            size
        },
{
}

/// An answer of `4xx`, other than that requests are too many, is final at once.
pub proof fn law_client_error_is_final(
    reader: Seekable,
    status: u16,
    content_range: Option<Vec<u8>>,
)
    requires
        reader.expects(ReadEvent::Responded { status, content_range }),
        400 <= status <= 499,
        status != TOO_MANY_REQUESTS,
    ensures
        reader.after(ReadEvent::Responded { status, content_range }).0.phase is Failed,
        reader.after(ReadEvent::Responded { status, content_range }).1 matches ReadAction::Fail(e)
            && e.spec_kind() == ErrorKind::Other,
{
}

/// A server error is followed by another request for the same range, as long as there are
/// attempts left.
pub proof fn law_server_error_is_retried(
    reader: Seekable,
    status: u16,
    content_range: Option<Vec<u8>>,
)
    requires
        reader.expects(ReadEvent::Responded { status, content_range }),
        500 <= status <= 599,
        reader.reopen_failures < MAX_REOPEN_ATTEMPTS,
    ensures
        reader.after(ReadEvent::Responded { status, content_range }).1 is Open,
        reader.after(ReadEvent::Responded { status, content_range }).0.position == reader.position,
{
}

/// The range that is asked for starts exactly where the reader stands, and ends with the last byte
/// of the file, or is left open where the size is not known.
pub proof fn law_asks_for_current_offset(position: u64, size: u64)
    ensures
        number_between(range_text(position, None), "bytes="@, "-"@) == Some(position),
        ({
            let text = range_text(position, Some(size));
            let dash = 6 + decimal(position as nat).len() as int;
            &&& text.take(6) == "bytes="@
            &&& parsed_u64(ascii(text.subrange(6, dash))) == Some(position)
            &&& forall|i: int| 6 <= i < dash ==> #[trigger] text[i] != '-'
            &&& text[dash] == '-'
            &&& parsed_u64(ascii(text.skip(dash + 1))) == Some(
                if size > 0 {
                    (size - 1) as u64
                } else {
                    0
                },
            )
        }),
{
    reveal_strlit("bytes=");
    reveal_strlit("-");
    lemma_number_between("bytes="@, position, "-"@);
    let last: u64 = if size > 0 {
        (size - 1) as u64
    } else {
        0
    };
    let first = decimal(position as nat);
    let text = range_text(position, Some(size));
    let dash = 6 + first.len() as int;
    law_decimal_parses(position);
    law_decimal_parses(last);
    assert(text.take(6) =~= "bytes="@);
    assert(text.subrange(6, dash) =~= first);
    assert(text.skip(dash + 1) =~= decimal(last as nat));
    assert forall|i: int| 6 <= i < dash implies #[trigger] text[i] != '-' by {
        assert(text[i] == first[i - 6]);
    }
}

/// The end of the file is where its size says, and nowhere where it is not known.
pub proof fn law_at_end(reader: Seekable, size: u64)
    ensures
        reader.file_size == Some(size) ==> (reader.spec_at_end() <==> reader.position >= size),
        reader.file_size is None ==> !reader.spec_at_end(),
        reader.file_size == Some(size) ==> reader.spec_len() == size,
        reader.file_size is None ==> reader.spec_len() == 0,
{
}

/// Asking for bytes changes nothing, and leads to whatever is under way.
pub proof fn law_poll(reader: Seekable)
    requires
        reader.file_size matches Some(size) ==> reader.position < size,
    ensures
        reader.after(ReadEvent::Poll).0 == reader,
        reader.phase is Opening ==> reader.after(ReadEvent::Poll).1 == ReadAction::AwaitOpen,
        reader.phase is Streaming ==> reader.after(ReadEvent::Poll).1 == ReadAction::ReadBody,
        reader.phase is Failed ==> reader.after(ReadEvent::Poll).1 == ReadAction::Fail(
            RangeError::Closed(reader.position),
        ),
{
}

/// At the end of the file a read fails, whatever is under way, and changes nothing.
pub proof fn law_poll_at_end(reader: Seekable, size: u64)
    requires
        reader.file_size == Some(size),
        reader.position >= size,
    ensures
        reader.after(ReadEvent::Poll) == (reader, ReadAction::Fail(RangeError::EndOfFile)),
{
}

/// Partial content is read unless its header names another start, and the whole file from its
/// start; nothing else is.
pub proof fn law_accepts_response(reader: Seekable, status: u16, content_range: Option<Vec<u8>>)
    ensures
        ({
            let accepted = Seekable { phase: Phase::Streaming, ..reader };
            let after = reader.after(ReadEvent::Responded { status, content_range });
            let start = match content_range {
                Some(value) => range_start(value@),
                None => None,
            };
            &&& status == 206 && (start is None || start == Some(reader.position)) ==> after == (
                accepted,
                ReadAction::ReadBody,
            )
            &&& status == 200 && reader.position == 0 ==> after == (accepted, ReadAction::ReadBody)
            &&& status == 206 && start is Some && start != Some(reader.position) ==> after
                == reader.failing(
                Failure::Mismatch(RangeMismatch { requested: reader.position, served: start->0 }),
            )
            &&& status != 206 && !(status == 200 && reader.position == 0) ==> after
                == reader.failing(
                Failure::Status(RangeStatus { status, position: reader.position }),
            )
        }),
{
}

/// What breaks off in the transport, or too early, is reported as that.
pub proof fn law_tells_failure(reader: Seekable, parts: Vec<String>, remaining: u64)
    ensures
        reader.after(ReadEvent::OpenFailed(parts)) == reader.failing(Failure::Transport(parts)),
        reader.after(ReadEvent::BodyFailed(parts)) == reader.failing(Failure::Transport(parts)),
        remaining > 0 && reader.file_size is Some ==> reader.after(
            ReadEvent::Body { read: 0, remaining },
        ) == reader.failing(
            Failure::ShortBody(
                ShortBody { position: reader.position, expected_end: reader.file_size },
            ),
        ),
        reader.after(ReadEvent::Body { read: 0, remaining: 0 }) == (reader, ReadAction::Ready),
        reader.file_size is None ==> reader.after(ReadEvent::Body { read: 0, remaining }) == (
            reader,
            ReadAction::Ready,
        ),
{
}

/// A failure counts once. Up to the sixth in a row the same range is asked for again, after no
/// delay, then 100 milliseconds, then twice as long each time, up to 1600; a seventh is final, and
/// so is any failure that cannot pass. The error tells the failure, their number and the offset.
pub proof fn law_failure(reader: Seekable, failure: Failure)
    requires
        reader.reopen_failures <= 6,
    ensures
        ({
            let n = reader.reopen_failures + 1;
            let (after, action) = reader.failing(failure);
            let final_status = failure matches Failure::Status(e) && !(500 <= e.status < 600
                || e.status == 429);
            let delay: u64 = match n as u32 {
                1 => 0,
                2 => 100,
                3 => 200,
                4 => 400,
                5 => 800,
                _ => 1600,
            };
            &&& after.reopen_failures == n
            &&& after.position == reader.position
            &&& after.file_size == reader.file_size
            &&& n <= 6 && !final_status ==> action == (ReadAction::Open { delay_ms: delay })
                && after.phase == (Phase::Opening { delay_ms: delay })
            &&& n == 7 || final_status ==> after.phase is Failed && action == ReadAction::Fail(
                RangeError::Exhausted(
                    ReopenExhausted {
                        attempts: n as u32,
                        position: reader.position,
                        source: failure,
                    },
                ),
            )
        }),
{
    lemma2_to64();
}

/// Delays start with none, and double up to a limit however many failures there are.
pub proof fn law_delays(failures: u32)
    ensures
        failures <= 1 ==> reopen_delay_ms(failures) == 0,
        failures == 2 ==> reopen_delay_ms(failures) == 100,
        2 <= failures < u32::MAX ==> reopen_delay_ms((failures + 1) as u32) == if 2 * reopen_delay_ms(
            failures,
        ) < 1600 {
            2 * reopen_delay_ms(failures)
        } else {
            1600
        },
{
    lemma2_to64();
    if 2 <= failures < u32::MAX {
        lemma_pow2_unfold((failures - 1) as nat);
    }
}

/// A move goes where it is told, forward or backward, and stops at the end of the file; from there
/// on the reader behaves as a fresh one at that offset.
pub proof fn law_moves(reader: Seekable, offset: i64, size: u64, target: u64)
    requires
        reader.file_size == Some(size),
        reader.position <= size <= i64::MAX,
        target == reader.position + offset,
    ensures
        seek_target(SeekFrom::Current(offset), reader.position, reader.file_size) == Ok::<
            u64,
            SeekError,
        >(target),
        reader.sought_to(target) == (Seekable {
            file_size: Some(size),
            position: if target < size {
                target
            } else {
                size
            },
            phase: Phase::Opening { delay_ms: 0 },
            reopen_failures: 0,
        }),
{
}

/// Whatever a reader waits for may come: an answer with any status while it opens a range, any
/// number of bytes that offsets can count while it reads a body.
pub proof fn law_expects(
    reader: Seekable,
    status: u16,
    content_range: Option<Vec<u8>>,
    parts: Vec<String>,
    read: u64,
    remaining: u64,
)
    ensures
        reader.expects(ReadEvent::Poll),
        reader.phase is Opening && 100 <= status < 1000 ==> reader.expects(
            ReadEvent::Responded { status, content_range },
        ),
        reader.phase is Opening ==> reader.expects(ReadEvent::OpenFailed(parts)),
        reader.phase is Streaming ==> reader.expects(ReadEvent::BodyFailed(parts)),
        reader.phase is Streaming && reader.position + read <= u64::MAX ==> reader.expects(
            ReadEvent::Body { read, remaining },
        ),
        reader.reopen_failures <= 6 ==> reader.wf(),
{
}

/// A probe tells the size of a file exactly as the header of its partial response does, and nothing
/// where there is no such header, or another status.
pub proof fn law_probe(status: u16, value: Vec<u8>, start: u64, end: u64, size: u64)
    ensures
        value@ == content_range(start, end, size) ==> Seekable::probed_size(206, Some(value)) == Ok::<
            u64,
            ProbeError,
        >(size),
        range_total(value@) is Some ==> Seekable::probed_size(206, Some(value)) == Ok::<
            u64,
            ProbeError,
        >(range_total(value@)->0),
        range_total(value@) is None ==> Seekable::probed_size(206, Some(value)) == Err::<
            u64,
            ProbeError,
        >(ProbeError::NoSize),
        Seekable::probed_size(206, None) == Err::<u64, ProbeError>(ProbeError::NoSize),
        status != 206 ==> Seekable::probed_size(status, Some(value)) == Err::<u64, ProbeError>(
            ProbeError::Status(status),
        ) && Seekable::probed_size(status, None) == Err::<u64, ProbeError>(
            ProbeError::Status(status),
        ),
{
    law_content_range(start, end, size);
}

/// A reader starts at the front, with the whole file before it and all of its attempts, and knows
/// the size where the probe told it.
pub proof fn law_starts(size: u64, e: ProbeError)
    ensures
        Seekable::opening(Ok(size)).file_size == Some(size),
        Seekable::opening(Err(e)).file_size is None,
        Seekable::opening(Ok(size)).position == 0,
        Seekable::opening(Err(e)).position == 0,
        Seekable::opening(Ok(size)).phase == (Phase::Opening { delay_ms: 0 }),
        Seekable::opening(Err(e)).phase == (Phase::Opening { delay_ms: 0 }),
        Seekable::opening(Ok(size)).reopen_failures == 0,
        Seekable::opening(Err(e)).reopen_failures == 0,
{
}

} // verus!
