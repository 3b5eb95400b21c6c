//! What can go wrong while a range is read; each error keeps its cause, so that messages show
//! the whole chain.

use vstd::prelude::*;

use crate::cursor::ErrorKind;
use crate::http_status::{is_server_error, is_status, status_line, status_text, TOO_MANY_REQUESTS};
use crate::text::{ascii, decimal, law_decimal_parses, parsed_u64, push_decimal};

verus! {

/// The views of some strings.
pub open spec fn texts(parts: Seq<String>) -> Seq<Seq<char>> {
    Seq::new(parts.len(), |i: int| parts[i]@)
}

/// `parts`, joined with ` -> `.
pub open spec fn chain_text(parts: Seq<Seq<char>>) -> Seq<char>
    decreases parts.len(),
{
    if parts.len() == 0 {
        Seq::empty()
    } else if parts.len() == 1 {
        parts[0]
    } else {
        chain_text(parts.drop_last()) + " -> "@ + parts.last()
    }
}

/// Joins the message of an error and those of all its causes with ` -> `.
pub fn error_chain(parts: &Vec<String>) -> (r: String)
    ensures
        r@ == chain_text(texts(parts@)),
{
    let mut out: String = String::new();
    let mut i: usize = 0;
    let ghost all = texts(parts@);
    while i < parts.len()
        invariant
            i <= parts.len(),
            all == texts(parts@),
            out@ == chain_text(all.take(i as int)),
        decreases parts.len() - i,
    {
        if i > 0 {
            out.append(" -> ");
        }
        out.append(parts[i].as_str());
        proof {
            let next = all.take(i + 1);
            assert(next.drop_last() =~= all.take(i as int));
            assert(next.last() == parts@[i as int]@);
            if i == 0 {
                assert(out@ =~= next[0]);
            }
        }
        i = i + 1;
    }
    assert(all.take(i as int) =~= all);
    out
}

/// A range request that was answered with an unacceptable status.
#[derive(Copy, Clone, Debug, PartialEq, Eq)]
pub struct RangeStatus {
    pub status: u16,
    pub position: u64,
}

impl RangeStatus {
    /// Whether another attempt may fare better.
    pub open spec fn spec_retryable(self) -> bool {
        500 <= self.status <= 599 || self.status == TOO_MANY_REQUESTS
    }

    /// Whether another attempt may fare better: server errors and throttling pass.
    pub fn retryable(&self) -> (r: bool)
        requires
            is_status(self.status),
        ensures
            r == self.spec_retryable(),
    {
        is_server_error(self.status) || self.status == TOO_MANY_REQUESTS
    }

    /// The message.
    pub open spec fn text_view(self) -> Seq<char> {
        "range GET pos="@ + decimal(self.position as nat) + " returned "@ + status_line(self.status)
    }

    /// The error message.
    pub fn text(&self) -> (r: String)
        requires
            is_status(self.status),
        ensures
            r@ == self.text_view(),
    {
        let mut out: String = "range GET pos=".to_owned();
        push_decimal(&mut out, self.position);
        out.append(" returned ");
        out.append(status_text(self.status).as_str());
        out
    }
}

/// A range request that was answered with another range.
#[derive(Copy, Clone, Debug, PartialEq, Eq)]
pub struct RangeMismatch {
    pub requested: u64,
    pub served: u64,
}

impl RangeMismatch {
    /// The message.
    pub open spec fn text_view(self) -> Seq<char> {
        "range GET requested pos="@ + decimal(self.requested as nat)
            + " but Content-Range starts at "@ + decimal(self.served as nat)
    }

    /// The error message.
    pub fn text(&self) -> (r: String)
        ensures
            r@ == self.text_view(),
    {
        let mut out: String = "range GET requested pos=".to_owned();
        push_decimal(&mut out, self.requested);
        out.append(" but Content-Range starts at ");
        push_decimal(&mut out, self.served);
        out
    }
}

/// A body that ended before the range did.
#[derive(Copy, Clone, Debug, PartialEq, Eq)]
pub struct ShortBody {
    pub position: u64,
    pub expected_end: Option<u64>,
}

impl ShortBody {
    /// The message.
    pub open spec fn text_view(self) -> Seq<char> {
        let head = "body ended at pos="@ + decimal(self.position as nat) + " before range end "@;
        match self.expected_end {
            Some(end) => head + "Some("@ + decimal(end as nat) + ")"@,
            None => head + "None"@,
        }
    }

    /// The error message.
    pub fn text(&self) -> (r: String)
        ensures
            r@ == self.text_view(),
    {
        let mut out: String = "body ended at pos=".to_owned();
        push_decimal(&mut out, self.position);
        out.append(" before range end ");
        match self.expected_end {
            Some(end) => {
                out.append("Some(");
                push_decimal(&mut out, end);
                out.append(")");
            },
            None => {
                out.append("None");
            },
        }
        out
    }
}

/// Why a range could not be opened, or why its body broke off.
#[derive(Clone, Debug, PartialEq, Eq)]
pub enum Failure {
    Status(RangeStatus),
    Mismatch(RangeMismatch),
    ShortBody(ShortBody),
    /// The transport failed; carries its message and those of its causes.
    Transport(Vec<String>),
}

impl Failure {
    /// Whether a status that it carries is one.
    pub open spec fn wf(self) -> bool {
        self matches Failure::Status(s) ==> is_status(s.status)
    }

    /// Whether another attempt may fare better.
    pub open spec fn spec_retryable(self) -> bool {
        self matches Failure::Status(s) ==> s.spec_retryable()
    }

    /// Its message and those of its causes.
    pub open spec fn text_views(self) -> Seq<Seq<char>> {
        match self {
            Failure::Status(e) => seq![e.text_view()],
            Failure::Mismatch(e) => seq![e.text_view()],
            Failure::ShortBody(e) => seq![e.text_view()],
            Failure::Transport(parts) => texts(parts@),
        }
    }

    /// The message, followed by those of the causes.
    pub fn text(&self) -> (r: String)
        requires
            self.wf(),
        ensures
            r@ == chain_text(self.text_views()),
    {
        match self {
            Failure::Status(e) => e.text(),
            Failure::Mismatch(e) => e.text(),
            Failure::ShortBody(e) => e.text(),
            Failure::Transport(parts) => error_chain(parts),
        }
    }
}

/// Whether a failure is worth another attempt: only a final status is not.
pub fn is_retryable(failure: &Failure) -> (r: bool)
    requires
        failure.wf(),
    ensures
        r == failure.spec_retryable(),
{
    match failure {
        Failure::Status(s) => s.retryable(),
        _ => true,
    }
}

/// The end of the attempts to read on.
#[derive(Clone, Debug, PartialEq, Eq)]
pub struct ReopenExhausted {
    pub attempts: u32,
    pub position: u64,
    pub source: Failure,
}

impl ReopenExhausted {
    /// The message.
    pub open spec fn text_view(self) -> Seq<char> {
        "http range reopen gave up after "@ + decimal(self.attempts as nat)
            + " failure(s) at pos="@ + decimal(self.position as nat) + ": "@ + chain_text(
            self.source.text_views(),
        )
    }

    /// The error message.
    pub fn text(&self) -> (r: String)
        requires
            self.source.wf(),
        ensures
            r@ == self.text_view(),
    {
        let mut out: String = "http range reopen gave up after ".to_owned();
        push_decimal(&mut out, self.attempts as u64);
        out.append(" failure(s) at pos=");
        push_decimal(&mut out, self.position);
        out.append(": ");
        out.append(self.source.text().as_str());
        out
    }
}

/// What a reader of a range is told when there are no bytes.
#[derive(Clone, Debug, PartialEq, Eq)]
pub enum RangeError {
    /// The file has been read to its end.
    EndOfFile,
    /// The attempts to read on have come to an end.
    Exhausted(ReopenExhausted),
    /// They had come to an end before, at this offset.
    Closed(u64),
}

impl RangeError {
    /// The kind under which the error surfaces.
    pub open spec fn spec_kind(self) -> ErrorKind {
        match self {
            RangeError::EndOfFile => ErrorKind::UnexpectedEof,
            _ => ErrorKind::Other,
        }
    }

    /// The kind under which the error surfaces.
    pub fn kind(&self) -> (r: ErrorKind)
        ensures
            r == self.spec_kind(),
    {
        match self {
            RangeError::EndOfFile => ErrorKind::UnexpectedEof,
            _ => ErrorKind::Other,
        }
    }

    /// The message.
    pub open spec fn text_view(self) -> Seq<char> {
        match self {
            RangeError::EndOfFile => "EOF reached"@,
            RangeError::Exhausted(e) => e.text_view(),
            RangeError::Closed(position) => "http range stream closed after repeated failures at pos="@
                + decimal(position as nat) + "; seek to reopen"@,
        }
    }

    /// The error message.
    pub fn text(&self) -> (r: String)
        requires
            self matches RangeError::Exhausted(e) ==> e.source.wf(),
        ensures
            r@ == self.text_view(),
    {
        match self {
            RangeError::EndOfFile => "EOF reached".to_owned(),
            RangeError::Exhausted(e) => e.text(),
            RangeError::Closed(position) => {
                let mut out: String = "http range stream closed after repeated failures at pos=".to_owned();
                push_decimal(&mut out, *position);
                out.append("; seek to reopen");
                out
            },
        }
    }
}

/// Why the size of a file is not known.
#[derive(Clone, Debug, PartialEq, Eq)]
pub enum ProbeError {
    /// The transport failed; carries its message.
    Transport(String),
    /// The probe was answered with another status than `206`.
    Status(u16),
    /// The answer does not say how large the file is.
    NoSize,
}

impl ProbeError {
    /// The kind under which the error surfaces.
    pub open spec fn spec_kind(self) -> ErrorKind {
        if self is Status {
            ErrorKind::Unsupported
        } else {
            ErrorKind::Other
        }
    }

    /// The message.
    pub open spec fn text_view(self) -> Seq<char> {
        match self {
            ProbeError::Transport(message) => message@,
            ProbeError::Status(status) => "size probe status "@ + status_line(status),
            ProbeError::NoSize => "failed to determine file size"@,
        }
    }

    /// The kind under which the error surfaces.
    pub fn kind(&self) -> (r: ErrorKind)
        ensures
            r == self.spec_kind(),
    {
        match self {
            ProbeError::Status(_) => ErrorKind::Unsupported,
            _ => ErrorKind::Other,
        }
    }

    /// The error message.
    pub fn text(&self) -> (r: String)
        requires
            self matches ProbeError::Status(s) ==> is_status(*s),
        ensures
            r@ == self.text_view(),
    {
        match self {
            ProbeError::Transport(message) => message.clone(),
            ProbeError::Status(status) => {
                let mut out: String = "size probe status ".to_owned();
                out.append(status_text(*status).as_str());
                out
            },
            ProbeError::NoSize => "failed to determine file size".to_owned(),
        }
    }
}

/// A chain has its messages in order, with an arrow between any two, and at no end.
pub proof fn law_chain(a: Seq<Seq<char>>, b: Seq<Seq<char>>, message: Seq<char>)
    ensures
        chain_text(seq![message]) == message,
        a.len() > 0 && b.len() > 0 ==> chain_text(a + b) == chain_text(a) + " -> "@ + chain_text(b),
    decreases b.len(),
{
    if a.len() > 0 && b.len() > 0 {
        assert((a + b).drop_last() =~= a + b.drop_last());
        assert((a + b).last() == b.last());
        if b.len() == 1 {
            assert(a + b.drop_last() =~= a);
            assert(chain_text(b) == b[0]);
        } else {
            law_chain(a, b.drop_last(), message);
            assert(chain_text(a + b) =~= chain_text(a) + " -> "@ + chain_text(b));
        }
    }
}

/// A failure keeps its own message, and a transport failure those of all its causes.
pub proof fn law_failure_messages(failure: Failure, parts: Vec<String>)
    ensures
        texts(parts@).len() == parts@.len(),
        forall|i: int| 0 <= i < parts@.len() ==> #[trigger] texts(parts@)[i] == parts@[i]@,
        Failure::Transport(parts).text_views() == texts(parts@),
        failure matches Failure::Status(e) ==> chain_text(failure.text_views()) == e.text_view(),
        failure matches Failure::Mismatch(e) ==> chain_text(failure.text_views()) == e.text_view(),
        failure matches Failure::ShortBody(e) ==> chain_text(failure.text_views()) == e.text_view(),
{
}

/// The number that `text` holds behind `head` and before `tail`.
pub open spec fn number_between(text: Seq<char>, head: Seq<char>, tail: Seq<char>) -> Option<u64> {
    if head.len() + tail.len() <= text.len() && text.take(head.len() as int) == head && text.skip(
        text.len() - tail.len(),
    ) == tail {
        parsed_u64(ascii(text.subrange(head.len() as int, text.len() - tail.len())))
    } else {
        None
    }
}

pub proof fn lemma_number_between(head: Seq<char>, n: u64, tail: Seq<char>)
    ensures
        number_between(head + decimal(n as nat) + tail, head, tail) == Some(n),
{
    let text = head + decimal(n as nat) + tail;
    law_decimal_parses(n);
    assert(text.take(head.len() as int) =~= head);
    assert(text.skip(text.len() - tail.len()) =~= tail);
    assert(text.subrange(head.len() as int, text.len() - tail.len()) =~= decimal(n as nat));
}

/// The message of an unacceptable status tells the offset as it is, and the status.
pub proof fn law_status_message(e: RangeStatus)
    ensures
        number_between(e.text_view(), "range GET pos="@, " returned "@ + status_line(e.status)) == Some(
            e.position,
        ),
{
    let tail = " returned "@ + status_line(e.status);
    lemma_number_between("range GET pos="@, e.position, tail);
    assert(e.text_view() =~= "range GET pos="@ + decimal(e.position as nat) + tail);
}

/// The message of a mismatch tells both offsets as they are.
pub proof fn law_mismatch_message(e: RangeMismatch)
    ensures
        number_between(
            e.text_view(),
            "range GET requested pos="@,
            " but Content-Range starts at "@ + decimal(e.served as nat),
        ) == Some(e.requested),
        number_between(
            e.text_view(),
            "range GET requested pos="@ + decimal(e.requested as nat)
                + " but Content-Range starts at "@,
            Seq::empty(),
        ) == Some(e.served),
{
    let head = "range GET requested pos="@;
    let but = " but Content-Range starts at "@;
    let served = decimal(e.served as nat);
    let front = head + decimal(e.requested as nat) + but;
    lemma_number_between(head, e.requested, but + served);
    assert(e.text_view() =~= head + decimal(e.requested as nat) + (but + served));
    lemma_number_between(front, e.served, Seq::empty());
    assert(e.text_view() =~= front + served + Seq::<char>::empty());
}

/// The message of a body that ended early tells where it did, and where it should have, as they are.
pub proof fn law_short_body_message(e: ShortBody, end: u64)
    ensures
        e.expected_end is None ==> number_between(
            e.text_view(),
            "body ended at pos="@,
            " before range end "@ + "None"@,
        ) == Some(e.position),
        e.expected_end == Some(end) ==> number_between(
            e.text_view(),
            "body ended at pos="@,
            " before range end "@ + "Some("@ + decimal(end as nat) + ")"@,
        ) == Some(e.position) && number_between(
            e.text_view(),
            "body ended at pos="@ + decimal(e.position as nat) + " before range end "@ + "Some("@,
            ")"@,
        ) == Some(end),
{
    let head = "body ended at pos="@;
    let before = " before range end "@;
    let p = decimal(e.position as nat);
    if e.expected_end == Some(end) {
        let tail = before + "Some("@ + decimal(end as nat) + ")"@;
        lemma_number_between(head, e.position, tail);
        assert(e.text_view() =~= head + p + tail);
        lemma_number_between(head + p + before + "Some("@, end, ")"@);
    } else if e.expected_end is None {
        lemma_number_between(head, e.position, before + "None"@);
        assert(e.text_view() =~= head + p + (before + "None"@));
    }
}

/// The message of giving up tells the number of failures and the offset as they are.
pub proof fn law_exhausted_message(e: ReopenExhausted)
    ensures
        number_between(
            e.text_view(),
            "http range reopen gave up after "@,
            " failure(s) at pos="@ + decimal(e.position as nat) + ": "@ + chain_text(
                e.source.text_views(),
            ),
        ) == Some(e.attempts as u64),
        number_between(
            e.text_view(),
            "http range reopen gave up after "@ + decimal(e.attempts as nat) + " failure(s) at pos="@,
            ": "@ + chain_text(e.source.text_views()),
        ) == Some(e.position),
{
    let head = "http range reopen gave up after "@;
    let at = " failure(s) at pos="@;
    let chain = chain_text(e.source.text_views());
    let attempts = decimal(e.attempts as nat);
    let position = decimal(e.position as nat);
    let tail = at + position + ": "@ + chain;
    lemma_number_between(head, e.attempts as u64, tail);
    assert(e.text_view() =~= head + attempts + tail);
    lemma_number_between(head + attempts + at, e.position, ": "@ + chain);
    assert(e.text_view() =~= head + attempts + at + position + (": "@ + chain));
}

/// The messages that readers see: that of giving up, and afterwards the offset at which it happened,
/// as it is.
pub proof fn law_range_error_messages(e: ReopenExhausted, position: u64)
    ensures
        RangeError::Exhausted(e).text_view() == e.text_view(),
        number_between(
            RangeError::Closed(position).text_view(),
            "http range stream closed after repeated failures at pos="@,
            "; seek to reopen"@,
        ) == Some(position),
{
    lemma_number_between(
        "http range stream closed after repeated failures at pos="@,
        position,
        "; seek to reopen"@,
    );
}

/// Server errors and too many requests may pass, any other status is final, and so may whatever is
/// no status at all.
pub proof fn law_retryable(failure: Failure)
    ensures
        failure matches Failure::Status(e) ==> (failure.spec_retryable() <==> 500 <= e.status < 600
            || e.status == 429),
        !(failure is Status) ==> failure.spec_retryable() && failure.wf(),
        failure matches Failure::Status(e) ==> (failure.wf() <==> 100 <= e.status < 1000),
{
}

/// Only the end of the file surfaces as an end.
pub proof fn law_error_kinds(error: RangeError)
    ensures
        error.spec_kind() == ErrorKind::UnexpectedEof <==> error is EndOfFile,
        error.spec_kind() == ErrorKind::Other <==> !(error is EndOfFile),
{
}

/// A probe that fails in the transport passes the message on as it is; a status is told behind a
/// fixed text. Only a status means that sizes cannot be had.
pub proof fn law_probe_errors(e: ProbeError, message: String, status: u16)
    ensures
        ProbeError::Transport(message).text_view() == message@,
        ProbeError::Status(status).text_view().skip("size probe status "@.len() as int)
            == status_line(status),
        e.spec_kind() == ErrorKind::Unsupported <==> e is Status,
        e.spec_kind() == ErrorKind::Other <==> !(e is Status),
{
    assert(ProbeError::Status(status).text_view().skip("size probe status "@.len() as int)
        =~= status_line(status));
}

} // verus!
