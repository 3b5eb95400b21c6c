//! Seekable reader over an S3 object; each seek fetches the rest of the object anew.
//!
//! [`S3SeekableReader`] decides; its caller performs what it decides on and reports back what
//! came of it.

use vstd::prelude::*;

use crate::node_reader::Len;
use crate::seek_from::{can_seek, resolve_seek, seek_target, SeekError, SeekFrom};
use crate::text::{ascii, decimal, law_decimal_parses, parsed_u64, push_decimal};

verus! {

/// Why an object cannot be opened.
#[derive(Clone, Debug, PartialEq, Eq)]
pub enum S3OpenError {
    /// The object could not be asked for its length; carries the message.
    Head(String),
    /// The answer does not tell a length.
    MissingLength,
}

impl S3OpenError {
    /// The error message.
    pub fn text(&self) -> (r: String)
        ensures
            r@ == match *self {
                S3OpenError::Head(message) => message@,
                S3OpenError::MissingLength => "S3 object missing length"@,
            },
    {
        match self {
            S3OpenError::Head(message) => message.clone(),
            S3OpenError::MissingLength => "S3 object missing length".to_owned(),
        }
    }
}

/// Where the reader stands with its fetch.
#[derive(Copy, Clone, Debug, PartialEq, Eq)]
pub enum S3Phase {
    /// Nothing is being fetched.
    Idle,
    /// The object is being fetched from the current offset on.
    Fetching,
    /// The body of a fetch is being read.
    Reading,
}

/// What came of the last action.
#[derive(Clone, Debug, PartialEq, Eq)]
pub enum S3Event {
    /// The caller wants bytes.
    Poll,
    /// The fetch gave a body.
    Fetched,
    /// The fetch failed; carries the message.
    FetchFailed(String),
    /// Reading the body gave this many bytes.
    Body(u64),
    /// Reading the body failed; carries the message.
    BodyFailed(String),
}

/// What to do next.
#[derive(Clone, Debug, PartialEq, Eq)]
pub enum S3Action {
    /// Fetch the object from the current offset on.
    Fetch,
    /// Wait for the fetch that is under way.
    AwaitFetch,
    /// Read from the body.
    ReadBody,
    /// Return what was read.
    Ready,
    /// Return this error.
    Fail(String),
}

/// The range that is fetched from `start` on: up to the last byte of the object, or that byte
/// alone where `start` lies behind it.
pub open spec fn s3_range_text(start: u64, len: u64) -> Seq<char> {
    let last: nat = if len > 0 {
        (len - 1) as nat
    } else {
        0
    };
    let first: nat = if start >= len {
        last
    } else {
        start as nat
    };
    "bytes="@ + decimal(first) + "-"@ + decimal(last)
}

/// What an object that tells its length, or not, is opened as.
pub open spec fn opened(head: Result<Option<i64>, String>) -> Result<S3SeekableReader, S3OpenError> {
    match head {
        Err(e) => Err(S3OpenError::Head(e)),
        Ok(None) => Err(S3OpenError::MissingLength),
        Ok(Some(len)) => Ok(
            S3SeekableReader {
                len: if len >= 0 {
                    len as u64
                } else {
                    (len + 0x1_0000_0000_0000_0000) as u64
                },
                position: 0,
                phase: S3Phase::Fetching,
            },
        ),
    }
}

/// A seekable reader over an object of known length.
#[derive(Copy, Clone, Debug, PartialEq, Eq)]
pub struct S3SeekableReader {
    pub len: u64,
    /// Current byte offset; the next read starts here.
    pub position: u64,
    pub phase: S3Phase,
}

impl S3SeekableReader {
    /// Whether `event` can come of what the reader is doing.
    pub open spec fn expects(self, event: S3Event) -> bool {
        match event {
            S3Event::Poll => true,
            S3Event::Fetched => self.phase is Fetching,
            S3Event::FetchFailed(_) => self.phase is Fetching,
            S3Event::Body(_) => self.phase is Reading,
            S3Event::BodyFailed(_) => self.phase is Reading,
        }
    }

    /// What follows `event`.
    pub open spec fn after(self, event: S3Event) -> (S3SeekableReader, S3Action) {
        match event {
            S3Event::Poll => if self.position >= self.len {
                (self, S3Action::Ready)
            } else {
                match self.phase {
                    S3Phase::Idle => (
                        S3SeekableReader { phase: S3Phase::Fetching, ..self },
                        S3Action::Fetch,
                    ),
                    S3Phase::Fetching => (self, S3Action::AwaitFetch),
                    S3Phase::Reading => (self, S3Action::ReadBody),
                }
            },
            S3Event::Fetched => (
                S3SeekableReader { phase: S3Phase::Reading, ..self },
                S3Action::ReadBody,
            ),
            S3Event::FetchFailed(e) => (
                S3SeekableReader { phase: S3Phase::Idle, ..self },
                S3Action::Fail(e),
            ),
            S3Event::Body(read) => (
                S3SeekableReader {
                    position: if self.position + read > u64::MAX {
                        u64::MAX
                    } else {
                        (self.position + read) as u64
                    },
                    ..self
                },
                S3Action::Ready,
            ),
            S3Event::BodyFailed(e) => (self, S3Action::Fail(e)),
        }
    }

    /// The reader after a seek that resolved to `target`.
    pub open spec fn sought_to(self, target: u64) -> S3SeekableReader {
        S3SeekableReader {
            position: if target <= self.len {
                target
            } else {
                self.len
            },
            phase: S3Phase::Fetching,
            ..self
        }
    }

    /// Takes what the object says of its length, and schedules the first fetch, at offset `0`. A
    /// length is taken by its bits, as it comes signed.
    pub fn new(head: Result<Option<i64>, String>) -> (r: Result<S3SeekableReader, S3OpenError>)
        ensures
            r == opened(head),
    {
        let signed: i64 = match head {
            Err(e) => {
                return Err(S3OpenError::Head(e));
            },
            Ok(None) => {
                return Err(S3OpenError::MissingLength);
            },
            Ok(Some(len)) => len,
        };
        let len: u64 = if signed >= 0 {
            signed as u64
        } else {
            u64::MAX - (-(signed + 1)) as u64
        };
        Ok(S3SeekableReader { len, position: 0, phase: S3Phase::Fetching })
    }

    /// The value of the `Range` header for a fetch at the current offset.
    pub fn schedule_fetch(&self) -> (r: String)
        ensures
            r@ == s3_range_text(self.position, self.len),
    {
        let end: u64 = self.len.saturating_sub(1);
        let mut out: String = "bytes=".to_owned();
        if self.position >= self.len {
            push_decimal(&mut out, end);
        } else {
            push_decimal(&mut out, self.position);
        }
        out.append("-");
        push_decimal(&mut out, end);
        out
    }

    /// Takes what came of the last action, and decides on the next one.
    pub fn poll_read(&mut self, event: S3Event) -> (r: S3Action)
        requires
            old(self).expects(event),
        ensures
            (*final(self), r) == old(self).after(event),
            r is Fetch ==> final(self).phase is Fetching,
            r is ReadBody ==> final(self).phase is Reading,
    {
        match event {
            S3Event::Poll => {
                if self.position >= self.len {
                    return S3Action::Ready;
                }
                match self.phase {
                    S3Phase::Idle => {
                        self.phase = S3Phase::Fetching;
                        S3Action::Fetch
                    },
                    S3Phase::Fetching => S3Action::AwaitFetch,
                    S3Phase::Reading => S3Action::ReadBody,
                }
            },
            S3Event::Fetched => {
                self.phase = S3Phase::Reading;
                S3Action::ReadBody
            },
            S3Event::FetchFailed(e) => {
                self.phase = S3Phase::Idle;
                S3Action::Fail(e)
            },
            S3Event::Body(read) => {
                self.position = self.position.saturating_add(read);
                S3Action::Ready
            },
            S3Event::BodyFailed(e) => S3Action::Fail(e),
        }
    }

    /// Moves to another offset, no further than the end of the object, and schedules a fetch
    /// there.
    pub fn start_seek(&mut self, from: SeekFrom) -> (r: Result<(), SeekError>)
        requires
            can_seek(from, old(self).position, Some(old(self).len)),
        ensures
            match seek_target(from, old(self).position, Some(old(self).len)) {
                Ok(target) => r is Ok && *final(self) == old(self).sought_to(target),
                Err(e) => r == Err::<(), SeekError>(e) && *final(self) == *old(self),
            },
    {
        let target: u64 = match resolve_seek(from, self.position, Some(self.len)) {
            Ok(target) => target,
            Err(e) => {
                return Err(e);
            },
        };
        self.position = if target <= self.len {
            target
        } else {
            self.len
        };
        self.phase = S3Phase::Fetching;
        Ok(())
    }

    /// The offset that a seek has led to.
    pub fn poll_complete(&self) -> (r: u64)
        ensures
            r == self.position,
    {
        self.position
    }
}

impl Len for S3SeekableReader {
    open spec fn spec_len(&self) -> u64 {
        self.len
    }

    fn len(&self) -> (r: u64) {
        self.len
    }
}

/// What happens to a reader during a session.
pub enum S3Input {
    Event(S3Event),
    Seek(SeekFrom),
}

/// A reader, and what it has delivered since it was last moved.
pub struct S3Session {
    pub reader: S3SeekableReader,
    /// Where the reader was last moved to.
    pub start: int,
    /// Where in the object the body that is being read stands.
    pub body: int,
    /// The bytes delivered since.
    pub out: Seq<u8>,
}

impl S3Session {
    /// A session that starts with `reader`.
    pub open spec fn opening(reader: S3SeekableReader) -> S3Session {
        S3Session { reader, start: reader.position as int, body: 0, out: Seq::empty() }
    }

    /// Whether `input` can come next, where `object` is served.
    pub open spec fn admits(self, object: Seq<u8>, input: S3Input) -> bool {
        match input {
            S3Input::Seek(from) => can_seek(from, self.reader.position, Some(self.reader.len)),
            S3Input::Event(event) => self.reader.expects(event) && (event matches S3Event::Body(read)
                ==> self.body + read <= object.len()),
        }
    }

    /// The session after `input`, where `object` is served from wherever it is fetched.
    pub open spec fn after(self, object: Seq<u8>, input: S3Input) -> S3Session {
        match input {
            S3Input::Seek(from) => match seek_target(
                from,
                self.reader.position,
                Some(self.reader.len),
            ) {
                Ok(target) => S3Session::opening(self.reader.sought_to(target)),
                Err(_) => self,
            },
            S3Input::Event(event) => {
                let reader = self.reader.after(event).0;
                match event {
                    S3Event::Fetched => S3Session {
                        reader,
                        body: self.reader.position as int,
                        ..self
                    },
                    S3Event::Body(read) => S3Session {
                        reader,
                        body: self.body + read,
                        out: self.out + object.subrange(self.body, self.body + read),
                        ..self
                    },
                    _ => S3Session { reader, ..self },
                }
            },
        }
    }

    /// The session after all of `inputs`.
    pub open spec fn after_all(self, object: Seq<u8>, inputs: Seq<S3Input>) -> S3Session
        decreases inputs.len(),
    {
        if inputs.len() == 0 {
            self
        } else {
            self.after_all(object, inputs.drop_last()).after(object, inputs.last())
        }
    }

    /// Whether each of `inputs` can come in its turn.
    pub open spec fn admits_all(self, object: Seq<u8>, inputs: Seq<S3Input>) -> bool
        decreases inputs.len(),
    {
        inputs.len() > 0 ==> self.admits_all(object, inputs.drop_last()) && self.after_all(
            object,
            inputs.drop_last(),
        ).admits(object, inputs.last())
    }

    /// Whether what was delivered is the part of the object from where the reader was last moved
    /// to where it stands now.
    pub open spec fn faithful(self, object: Seq<u8>) -> bool {
        &&& self.start + self.out.len() == self.reader.position
        &&& forall|i: int|
            0 <= i < self.out.len() ==> #[trigger] self.out[i] == object[self.start + i]
    }
}

proof fn lemma_faithful_step(object: Seq<u8>, s: S3Session, input: S3Input)
    requires
        object.len() <= u64::MAX,
        s.reader.phase is Reading ==> s.body == s.reader.position,
        s.body >= 0,
        s.faithful(object),
        s.admits(object, input),
    ensures
        s.after(object, input).reader.phase is Reading ==> s.after(object, input).body == s.after(
            object,
            input,
        ).reader.position,
        s.after(object, input).body >= 0,
        s.after(object, input).faithful(object),
{
    if let S3Input::Event(S3Event::Body(read)) = input {
        let part = object.subrange(s.body, s.body + read);
        let out = s.out + part;
        assert forall|i: int| 0 <= i < out.len() implies #[trigger] out[i] == object[s.start + i] by {
            if i < s.out.len() {
                assert(out[i] == s.out[i]);
            } else {
                assert(out[i] == part[i - s.out.len()]);
            }
        }
    }
}

proof fn lemma_delivers(object: Seq<u8>, reader: S3SeekableReader, inputs: Seq<S3Input>)
    requires
        object.len() <= u64::MAX,
        !(reader.phase is Reading),
        S3Session::opening(reader).admits_all(object, inputs),
    ensures
        ({
            let after = S3Session::opening(reader).after_all(object, inputs);
            &&& after.faithful(object)
            &&& after.reader.phase is Reading ==> after.body == after.reader.position
            &&& after.body >= 0
        }),
    decreases inputs.len(),
{
    if inputs.len() > 0 {
        lemma_delivers(object, reader, inputs.drop_last());
        lemma_faithful_step(
            object,
            S3Session::opening(reader).after_all(object, inputs.drop_last()),
            inputs.last(),
        );
    }
}

/// However often fetches fail and the reader is moved, the bytes that it delivers are those of
/// the object, in order, without gap or repetition.
pub proof fn law_delivers_the_object(object: Seq<u8>, reader: S3SeekableReader, inputs: Seq<S3Input>)
    requires
        object.len() <= u64::MAX,
        !(reader.phase is Reading),
        S3Session::opening(reader).admits_all(object, inputs),
    ensures
        S3Session::opening(reader).after_all(object, inputs).faithful(object),
{
    lemma_delivers(object, reader, inputs);
}

/// After a fetch has failed, the next read fetches anew, at the same offset.
pub proof fn law_fetches_again(reader: S3SeekableReader, e: String)
    requires
        reader.expects(S3Event::FetchFailed(e)),
        reader.position < reader.len,
    ensures
        reader.after(S3Event::FetchFailed(e)).0.after(S3Event::Poll) == (reader, S3Action::Fetch),
{
}

/// A fetch asks for the object from exactly the current offset to its last byte; behind the end,
/// for the last byte alone.
pub proof fn law_fetches_from_current_offset(position: u64, len: u64)
    ensures
        ({
            let text = s3_range_text(position, len);
            let last: u64 = if len > 0 {
                (len - 1) as u64
            } else {
                0
            };
            let first = if position < len {
                position
            } else {
                last
            };
            let dash = 6 + decimal(first as nat).len() as int;
            &&& text.take(6) == "bytes="@
            &&& parsed_u64(ascii(text.subrange(6, dash))) == Some(first)
            &&& text[dash] == '-'
            &&& parsed_u64(ascii(text.skip(dash + 1))) == Some(last)
        }),
{
    reveal_strlit("bytes=");
    reveal_strlit("-");
    let text = s3_range_text(position, len);
    let last: u64 = if len > 0 {
        (len - 1) as u64
    } else {
        0
    };
    let first = if position < len {
        position
    } else {
        last
    };
    let dash = 6 + decimal(first as nat).len() as int;
    law_decimal_parses(first);
    law_decimal_parses(last);
    assert(text.take(6) =~= "bytes="@);
    assert(text.subrange(6, dash) =~= decimal(first as nat));
    assert(text.skip(dash + 1) =~= decimal(last as nat));
}

/// Asking for bytes leads to whatever is under way, and starts a fetch where nothing is; at the end
/// there is nothing to wait for.
pub proof fn law_poll(reader: S3SeekableReader)
    ensures
        reader.position >= reader.len ==> reader.after(S3Event::Poll) == (reader, S3Action::Ready),
        reader.position < reader.len && reader.phase is Fetching ==> reader.after(S3Event::Poll) == (
            reader,
            S3Action::AwaitFetch,
        ),
        reader.position < reader.len && reader.phase is Reading ==> reader.after(S3Event::Poll) == (
            reader,
            S3Action::ReadBody,
        ),
        reader.position < reader.len && reader.phase is Idle ==> reader.after(S3Event::Poll) == (
            S3SeekableReader { len: reader.len, position: reader.position, phase: S3Phase::Fetching },
            S3Action::Fetch,
        ),
        reader.spec_len() == reader.len,
{
}

/// A fetch that gives a body is read from, bytes that were read are counted, and failures surface
/// with their message and move nothing.
pub proof fn law_outcomes(reader: S3SeekableReader, read: u64, message: String)
    ensures
        reader.after(S3Event::Fetched) == (
            S3SeekableReader { len: reader.len, position: reader.position, phase: S3Phase::Reading },
            S3Action::ReadBody,
        ),
        reader.after(S3Event::Body(read)).1 == S3Action::Ready,
        reader.after(S3Event::Body(read)).0.phase == reader.phase,
        reader.after(S3Event::Body(read)).0.len == reader.len,
        reader.position + read <= u64::MAX ==> reader.after(S3Event::Body(read)).0.position
            == reader.position + read,
        reader.position + read > u64::MAX ==> reader.after(S3Event::Body(read)).0.position == u64::MAX,
        reader.after(S3Event::FetchFailed(message)) == (
            S3SeekableReader { len: reader.len, position: reader.position, phase: S3Phase::Idle },
            S3Action::Fail(message),
        ),
        reader.after(S3Event::BodyFailed(message)) == (reader, S3Action::Fail(message)),
{
}

/// A move goes where it is told, stops at the end of the object, and fetches anew; whatever the
/// reader waits for may come.
pub proof fn law_moves(reader: S3SeekableReader, target: u64, read: u64, message: String)
    ensures
        reader.sought_to(target).position == if target < reader.len {
            target
        } else {
            reader.len
        },
        reader.sought_to(target).phase is Fetching,
        reader.sought_to(target).len == reader.len,
        reader.expects(S3Event::Poll),
        reader.phase is Fetching ==> reader.expects(S3Event::Fetched) && reader.expects(
            S3Event::FetchFailed(message),
        ),
        reader.phase is Reading ==> reader.expects(S3Event::Body(read)) && reader.expects(
            S3Event::BodyFailed(message),
        ),
{
}

/// An object is opened at its front, with the length that it tells.
pub proof fn law_opens(len: i64, e: String)
    ensures
        opened(Ok(Some(len))) is Ok,
        opened(Ok(Some(len)))->Ok_0.position == 0,
        opened(Ok(Some(len)))->Ok_0.phase is Fetching,
        len >= 0 ==> opened(Ok(Some(len)))->Ok_0.len == len,
        len < 0 ==> opened(Ok(Some(len)))->Ok_0.len - 0x1_0000_0000_0000_0000 == len,
        opened(Ok(None)) == Err::<S3SeekableReader, S3OpenError>(S3OpenError::MissingLength),
        opened(Err(e)) == Err::<S3SeekableReader, S3OpenError>(S3OpenError::Head(e)),
{
}

} // verus!
