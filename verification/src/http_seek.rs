//! Seekable HTTP reader over `Range` requests that resumes a truncated body.
//!
//! [`Seekable`] decides; its caller performs what it decides on and reports back what came of it.
//! - `206` is accepted for every range, `200` only for one that starts at `0`
//! - when the body ends before the requested range (connection cut, clean end before the range
//!   is complete) the range is reopened at the current byte offset
//! - attempts to reopen are bounded as long as no byte is read, so that a dead origin still
//!   surfaces, and never as the end of the file

use vstd::arithmetic::power2::{lemma2_to64, lemma_pow2_strictly_increases, pow2};
use vstd::prelude::*;

use crate::http_status::{is_status, OK_STATUS, PARTIAL_CONTENT};
use crate::node_reader::Len;
use crate::seek_from::{can_seek, resolve_seek, seek_target, SeekError, SeekFrom};
use crate::text::{decimal, push_decimal};
use content_range::{content_range_start, content_range_total, range_start, range_total};
use errors::{is_retryable, Failure, ProbeError, RangeError, RangeMismatch, RangeStatus, ReopenExhausted, ShortBody};

pub mod content_range;
pub mod errors;
pub mod laws;

verus! {

/// Consecutive reopen attempts without reading a single byte before the error is surfaced.
pub const MAX_REOPEN_ATTEMPTS: u32 = 6;

/// Delay before the second reopen attempt; doubles per attempt up to [`REOPEN_DELAY_MAX_MS`].
pub const REOPEN_DELAY_BASE_MS: u64 = 100;

/// The longest delay before a reopen attempt.
pub const REOPEN_DELAY_MAX_MS: u64 = 1600;

/// The delay before the reopen attempt that follows the given number of failures.
pub open spec fn reopen_delay_ms(failures: u32) -> nat {
    if failures <= 1 {
        0
    } else {
        let doubled = REOPEN_DELAY_BASE_MS as nat * pow2((failures - 2) as nat);
        if doubled < REOPEN_DELAY_MAX_MS {
            doubled
        } else {
            REOPEN_DELAY_MAX_MS as nat
        }
    }
}

/// The delay, in milliseconds, before the reopen attempt that follows `failures` failures.
pub fn reopen_delay(failures: u32) -> (r: u64)
    ensures
        r == reopen_delay_ms(failures),
{
    if failures <= 1 {
        return 0;
    }
    let doublings: u32 = if failures - 2 < 16 {
        failures - 2
    } else {
        16
    };
    proof {
        lemma2_to64();
        if doublings < failures - 2 {
            lemma_pow2_strictly_increases(16, (failures - 2) as nat);
        }
        if doublings < 16 {
            lemma_pow2_strictly_increases(doublings as nat, 16);
        }
        vstd::bits::lemma_u64_shl_is_mul(1, doublings as u64);
    }
    let delay: u64 = REOPEN_DELAY_BASE_MS * (1u64 << doublings);
    if delay < REOPEN_DELAY_MAX_MS {
        delay
    } else {
        REOPEN_DELAY_MAX_MS
    }
}

/// The value of the `Range` header that asks for a file from `position` on.
pub open spec fn range_text(position: u64, file_size: Option<u64>) -> Seq<char> {
    let head = "bytes="@ + decimal(position as nat) + "-"@;
    match file_size {
        Some(size) => head + decimal(if size > 0 { (size - 1) as nat } else { 0 }),
        None => head,
    }
}

/// Why a response to a request for the range at `position` is not acceptable, if it is not.
pub open spec fn response_failure(status: u16, content_range: Option<Vec<u8>>, position: u64) -> Option<
    Failure,
> {
    if status != PARTIAL_CONTENT && !(status == OK_STATUS && position == 0) {
        Some(Failure::Status(RangeStatus { status, position }))
    } else if status == PARTIAL_CONTENT && content_range is Some {
        match range_start(content_range->0@) {
            Some(served) if served != position => Some(
                Failure::Mismatch(RangeMismatch { requested: position, served }),
            ),
            _ => None,
        }
    } else {
        None
    }
}

/// Validates the response to a range request: `206` always, `200` only for a range starting at
/// `0`, and the start of the `Content-Range` must match the requested offset.
pub fn check_range_response(status: u16, content_range: &Option<Vec<u8>>, position: u64) -> (r: Result<
    (),
    Failure,
>)
    ensures
        r == match response_failure(status, *content_range, position) {
            None => Ok::<(), Failure>(()),
            Some(failure) => Err(failure),
        },
{
    if status != PARTIAL_CONTENT && !(status == OK_STATUS && position == 0) {
        return Err(Failure::Status(RangeStatus { status, position }));
    }
    if status == PARTIAL_CONTENT {
        if let Some(value) = content_range {
            if let Some(served) = content_range_start(value.as_slice()) {
                if served != position {
                    return Err(
                        Failure::Mismatch(RangeMismatch { requested: position, served }),
                    );
                }
            }
        }
    }
    Ok(())
}

/// Where the reader stands with its connection.
#[derive(Copy, Clone, Debug, PartialEq, Eq)]
pub enum Phase {
    /// The range at the current offset is being requested, after this delay.
    Opening { delay_ms: u64 },
    /// The body of a response is being read.
    Streaming,
    /// Attempts are exhausted, or the failure was final; until the next seek.
    Failed,
}

/// What came of the last action.
#[derive(Clone, Debug, PartialEq, Eq)]
pub enum ReadEvent {
    /// The caller wants bytes.
    Poll,
    /// The range request was answered with this status and, if any, this `Content-Range`.
    Responded { status: u16, content_range: Option<Vec<u8>> },
    /// The range request failed; carries the message and those of its causes.
    OpenFailed(Vec<String>),
    /// Reading the body gave `read` bytes, with room for `remaining` more.
    Body { read: u64, remaining: u64 },
    /// Reading the body failed; carries the message and those of its causes.
    BodyFailed(Vec<String>),
}

/// What to do next.
#[derive(Clone, Debug, PartialEq, Eq)]
pub enum ReadAction {
    /// Request the range at the current offset, after this delay.
    Open { delay_ms: u64 },
    /// Wait for the range request that is under way.
    AwaitOpen,
    /// Read from the body.
    ReadBody,
    /// Return what was read.
    Ready,
    /// Return this error.
    Fail(RangeError),
}

/// Seekable HTTP range reader; each seek and each resume asks for a range anew.
#[derive(Copy, Clone, Debug, PartialEq, Eq)]
pub struct Seekable {
    /// Total file size, `None` when it could not be found out.
    pub file_size: Option<u64>,
    /// Current byte offset; the next read starts here.
    pub position: u64,
    pub phase: Phase,
    /// Failures since the last byte was read.
    pub reopen_failures: u32,
}

impl Seekable {
    /// As long as the reader has not failed, there are attempts left.
    pub open spec fn wf(self) -> bool {
        self.reopen_failures <= MAX_REOPEN_ATTEMPTS + (if self.phase is Failed {
            1int
        } else {
            0int
        })
    }

    /// Whether the file has been read to its end.
    pub open spec fn spec_at_end(self) -> bool {
        self.file_size matches Some(size) && self.position >= size
    }

    /// Whether `event` can come of what the reader is doing.
    pub open spec fn expects(self, event: ReadEvent) -> bool {
        match event {
            ReadEvent::Poll => true,
            ReadEvent::Responded { status, .. } => self.phase is Opening && is_status(status),
            ReadEvent::OpenFailed(_) => self.phase is Opening,
            ReadEvent::Body { read, .. } => self.phase is Streaming && self.position + read
                <= u64::MAX,
            ReadEvent::BodyFailed(_) => self.phase is Streaming,
        }
    }

    /// The reader after another failure, and the error where that was one too many.
    pub open spec fn after_failure(self, failure: Failure) -> (Seekable, Option<ReopenExhausted>) {
        let failures = (self.reopen_failures + 1) as u32;
        if !failure.spec_retryable() || failures > MAX_REOPEN_ATTEMPTS {
            (
                Seekable { phase: Phase::Failed, reopen_failures: failures, ..self },
                Some(
                    ReopenExhausted {
                        attempts: failures,
                        position: self.position,
                        source: failure,
                    },
                ),
            )
        } else {
            let delay_ms = reopen_delay_ms(failures) as u64;
            (
                Seekable {
                    phase: Phase::Opening { delay_ms },
                    reopen_failures: failures,
                    ..self
                },
                None,
            )
        }
    }

    /// What follows another failure: a request for the range at the current offset, or the error.
    pub open spec fn failing(self, failure: Failure) -> (Seekable, ReadAction) {
        let (after, exhausted) = self.after_failure(failure);
        match exhausted {
            Some(e) => (after, ReadAction::Fail(RangeError::Exhausted(e))),
            None => (after, ReadAction::Open { delay_ms: after.phase->delay_ms }),
        }
    }

    /// What follows `event`.
    pub open spec fn after(self, event: ReadEvent) -> (Seekable, ReadAction) {
        match event {
            ReadEvent::Poll => if self.spec_at_end() {
                (self, ReadAction::Fail(RangeError::EndOfFile))
            } else {
                match self.phase {
                    Phase::Opening { .. } => (self, ReadAction::AwaitOpen),
                    Phase::Streaming => (self, ReadAction::ReadBody),
                    Phase::Failed => (
                        self,
                        ReadAction::Fail(RangeError::Closed(self.position)),
                    ),
                }
            },
            ReadEvent::Responded { status, content_range } => match response_failure(
                status,
                content_range,
                self.position,
            ) {
                Some(failure) => self.failing(failure),
                None => (Seekable { phase: Phase::Streaming, ..self }, ReadAction::ReadBody),
            },
            ReadEvent::OpenFailed(parts) => self.failing(Failure::Transport(parts)),
            ReadEvent::BodyFailed(parts) => self.failing(Failure::Transport(parts)),
            ReadEvent::Body { read, remaining } => if read > 0 {
                (
                    Seekable {
                        position: (self.position + read) as u64,
                        reopen_failures: 0,
                        ..self
                    },
                    ReadAction::Ready,
                )
            } else if remaining == 0 || self.file_size is None {
                (self, ReadAction::Ready)
            } else {
                self.failing(
                    Failure::ShortBody(
                        ShortBody { position: self.position, expected_end: self.file_size },
                    ),
                )
            },
        }
    }

    /// The reader after a seek that resolved to `target`.
    pub open spec fn sought_to(self, target: u64) -> Seekable {
        Seekable {
            position: match self.file_size {
                Some(size) if size < target => size,
                _ => target,
            },
            phase: Phase::Opening { delay_ms: 0 },
            reopen_failures: 0,
            ..self
        }
    }

    /// A reader at the front of a file of which a probe told the size, or not.
    pub open spec fn opening(probe: Result<u64, ProbeError>) -> Seekable {
        Seekable {
            file_size: match probe {
                Ok(size) => Some(size),
                Err(_) => None,
            },
            position: 0,
            phase: Phase::Opening { delay_ms: 0 },
            reopen_failures: 0,
        }
    }

    /// The size that the response to a probe tells.
    pub open spec fn probed_size(status: u16, content_range: Option<Vec<u8>>) -> Result<
        u64,
        ProbeError,
    > {
        if status != PARTIAL_CONTENT {
            Err(ProbeError::Status(status))
        } else {
            match content_range {
                Some(value) => match range_total(value@) {
                    Some(size) => Ok(size),
                    None => Err(ProbeError::NoSize),
                },
                None => Err(ProbeError::NoSize),
            }
        }
    }

    /// Takes the outcome of the size probe, and schedules the first request, at offset `0`.
    pub fn new(probe: Result<u64, ProbeError>) -> (r: Seekable)
        ensures
            r == Seekable::opening(probe),
            r.wf(),
    {
        let file_size: Option<u64> = match probe {
            Ok(size) => Some(size),
            Err(_) => None,
        };
        Seekable {
            file_size,
            position: 0,
            phase: Phase::Opening { delay_ms: 0 },
            reopen_failures: 0,
        }
    }

    /// Returns the total size that the response to a `bytes=0-0` range probe reports.
    pub fn fetch_file_size(status: u16, content_range: &Option<Vec<u8>>) -> (r: Result<u64, ProbeError>)
        ensures
            r == Seekable::probed_size(status, *content_range),
    {
        if status != PARTIAL_CONTENT {
            return Err(ProbeError::Status(status));
        }
        match content_range {
            Some(value) => match content_range_total(value.as_slice()) {
                Some(size) => Ok(size),
                None => Err(ProbeError::NoSize),
            },
            None => Err(ProbeError::NoSize),
        }
    }

    /// The value of the `Range` header for a request at the current offset.
    pub fn open_range(&self) -> (r: String)
        ensures
            r@ == range_text(self.position, self.file_size),
    {
        let mut out: String = "bytes=".to_owned();
        push_decimal(&mut out, self.position);
        out.append("-");
        if let Some(size) = self.file_size {
            push_decimal(&mut out, size.saturating_sub(1));
        }
        out
    }

    /// Whether the file has been read to its end.
    pub fn at_end(&self) -> (r: bool)
        ensures
            r == self.spec_at_end(),
    {
        match self.file_size {
            Some(size) => self.position >= size,
            None => false,
        }
    }

    /// Records a failure, and either schedules a request at the current offset or gives up.
    fn reopen_or_fail(&mut self, failure: Failure) -> (r: ReadAction)
        requires
            old(self).wf(),
            !(old(self).phase is Failed),
            failure.wf(),
        ensures
            (*final(self), r) == old(self).failing(failure),
            final(self).wf(),
    {
        self.reopen_failures = self.reopen_failures + 1;
        if !is_retryable(&failure) || self.reopen_failures > MAX_REOPEN_ATTEMPTS {
            self.phase = Phase::Failed;
            return ReadAction::Fail(
                RangeError::Exhausted(
                    ReopenExhausted {
                        attempts: self.reopen_failures,
                        position: self.position,
                        source: failure,
                    },
                ),
            );
        }
        let delay_ms: u64 = reopen_delay(self.reopen_failures);
        self.phase = Phase::Opening { delay_ms };
        ReadAction::Open { delay_ms }
    }

    /// Counts bytes that were read; with them, earlier failures are overcome.
    fn note_progress(&mut self, read: u64)
        requires
            old(self).position + read <= u64::MAX,
        ensures
            *final(self) == (Seekable {
                position: (old(self).position + read) as u64,
                reopen_failures: 0,
                ..*old(self)
            }),
    {
        self.reopen_failures = 0;
        self.position = self.position + read;
    }

    /// Takes what came of the last action, and decides on the next one.
    pub fn poll_read(&mut self, event: ReadEvent) -> (r: ReadAction)
        requires
            old(self).wf(),
            old(self).expects(event),
        ensures
            (*final(self), r) == old(self).after(event),
            final(self).wf(),
            r is Open ==> final(self).phase is Opening,
            r is ReadBody ==> final(self).phase is Streaming,
    {
        match event {
            ReadEvent::Poll => {
                if self.at_end() {
                    return ReadAction::Fail(RangeError::EndOfFile);
                }
                match self.phase {
                    Phase::Opening { .. } => ReadAction::AwaitOpen,
                    Phase::Streaming => ReadAction::ReadBody,
                    Phase::Failed => ReadAction::Fail(RangeError::Closed(self.position)),
                }
            },
            ReadEvent::Responded { status, content_range } => match check_range_response(
                status,
                &content_range,
                self.position,
            ) {
                Ok(()) => {
                    self.phase = Phase::Streaming;
                    ReadAction::ReadBody
                },
                Err(failure) => self.reopen_or_fail(failure),
            },
            ReadEvent::OpenFailed(parts) => self.reopen_or_fail(Failure::Transport(parts)),
            ReadEvent::BodyFailed(parts) => self.reopen_or_fail(Failure::Transport(parts)),
            ReadEvent::Body { read, remaining } => {
                if read > 0 {
                    self.note_progress(read);
                    return ReadAction::Ready;
                }
                if remaining == 0 || self.file_size.is_none() {
                    return ReadAction::Ready;
                }
                // A clean end before the end of the range is the same as a cut body.
                self.reopen_or_fail(
                    Failure::ShortBody(
                        ShortBody { position: self.position, expected_end: self.file_size },
                    ),
                )
            },
        }
    }

    /// Moves to another offset, no further than the end of the file, and schedules a request
    /// there; a reader that had failed starts afresh.
    pub fn start_seek(&mut self, from: SeekFrom) -> (r: Result<(), SeekError>)
        requires
            can_seek(from, old(self).position, old(self).file_size),
        ensures
            match seek_target(from, old(self).position, old(self).file_size) {
                Ok(target) => r is Ok && *final(self) == old(self).sought_to(target)
                    && final(self).wf(),
                Err(e) => r == Err::<(), SeekError>(e) && *final(self) == *old(self),
            },
    {
        let target: u64 = match resolve_seek(from, self.position, self.file_size) {
            Ok(target) => target,
            Err(e) => {
                return Err(e);
            },
        };
        self.position = match self.file_size {
            Some(size) if size < target => size,
            _ => target,
        };
        self.reopen_failures = 0;
        self.phase = Phase::Opening { delay_ms: 0 };
        Ok(())
    }

    /// The offset that a seek has led to.
    pub fn poll_complete(&self) -> (r: u64)
        ensures
            r == self.position,
    {
        self.position
    }
}

impl Len for Seekable {
    open spec fn spec_len(&self) -> u64 {
        match self.file_size {
            Some(size) => size,
            None => 0,
        }
    }

    fn len(&self) -> (r: u64) {
        match self.file_size {
            Some(size) => size,
            None => 0,
        }
    }
}

} // verus!
