//! A reader over bytes in memory.

use vstd::prelude::*;

use crate::uvarint::{decoded, encoded, law_decode_encode, law_decodes, law_encodes, law_refuses_to_decode, low_bits_sum, UvarintDecoder, UvarintError, UvarintStep};

verus! {

/// The kind of an I/O error, as far as readers tell them apart.
#[derive(Copy, Clone, Debug, PartialEq, Eq, Structural)]
pub enum ErrorKind {
    UnexpectedEof,
    InvalidData,
    InvalidInput,
    Unsupported,
    Other,
}

/// Why bytes could not be read.
#[derive(Copy, Clone, Debug, PartialEq, Eq, Structural)]
pub enum ReadError {
    /// The bytes ended early.
    UnexpectedEof,
    /// The bytes are no 64-bit LEB128 integer.
    Uvarint(UvarintError),
}

impl ReadError {
    /// The kind under which the error surfaces.
    pub open spec fn spec_kind(self) -> ErrorKind {
        match self {
            ReadError::UnexpectedEof => ErrorKind::UnexpectedEof,
            ReadError::Uvarint(_) => ErrorKind::InvalidData,
        }
    }

    /// The kind under which the error surfaces.
    pub fn kind(&self) -> (r: ErrorKind)
        ensures
            r == self.spec_kind(),
    {
        match self {
            ReadError::UnexpectedEof => ErrorKind::UnexpectedEof,
            ReadError::Uvarint(_) => ErrorKind::InvalidData,
        }
    }

    /// The message.
    pub open spec fn text_view(self) -> Seq<char> {
        match self {
            ReadError::UnexpectedEof => "early eof"@,
            ReadError::Uvarint(UvarintError::Overflow) => "uvarint overflow"@,
            ReadError::Uvarint(UvarintError::TooLong) => "uvarint too long"@,
        }
    }

    /// The error message.
    pub fn text(&self) -> (r: String)
        ensures
            r@ == self.text_view(),
    {
        match self {
            ReadError::UnexpectedEof => "early eof".to_owned(),
            ReadError::Uvarint(UvarintError::Overflow) => "uvarint overflow".to_owned(),
            ReadError::Uvarint(UvarintError::TooLong) => "uvarint too long".to_owned(),
        }
    }
}

/// Bytes and the offset of the next one to read, which may lie beyond their end.
#[derive(Clone, Debug)]
pub struct Cursor {
    data: Vec<u8>,
    position: u64,
}

/// What a [`Cursor`] stands for.
#[verifier::ext_equal]
pub struct CursorView {
    pub data: Seq<u8>,
    pub position: nat,
}

impl CursorView {
    /// The bytes that are left to read.
    pub open spec fn remaining(self) -> Seq<u8> {
        if self.position <= self.data.len() {
            self.data.skip(self.position as int)
        } else {
            Seq::empty()
        }
    }

    /// The same bytes, `n` further on.
    pub open spec fn advanced(self, n: nat) -> CursorView {
        CursorView { data: self.data, position: self.position + n }
    }

    /// The same bytes with nothing left to read.
    pub open spec fn exhausted(self) -> CursorView {
        self.advanced(self.remaining().len())
    }
}

impl View for Cursor {
    type V = CursorView;

    closed spec fn view(&self) -> CursorView {
        CursorView { data: self.data@, position: self.position as nat }
    }
}

/// What reading an integer at the front of `s` gives, and how many bytes it takes.
pub open spec fn uvarint_read(s: Seq<u8>) -> (Result<u64, ReadError>, nat) {
    match decoded(s) {
        None => (Err(ReadError::UnexpectedEof), s.len()),
        Some((Ok(v), n)) => (Ok(v), n),
        Some((Err(e), n)) => (Err(ReadError::Uvarint(e)), n),
    }
}

impl Cursor {
    /// A cursor at the front of `data`.
    pub fn new(data: Vec<u8>) -> (r: Cursor)
        ensures
            r@ == (CursorView { data: data@, position: 0 }),
    {
        Cursor { data, position: 0 }
    }

    /// The offset of the next byte.
    pub fn position(&self) -> (r: u64)
        ensures
            r == self@.position,
    {
        self.position
    }

    /// The next byte, if there is one.
    pub fn read_byte(&mut self) -> (r: Option<u8>)
        ensures
            match r {
                Some(b) => old(self)@.remaining().len() > 0 && b == old(self)@.remaining()[0]
                    && final(self)@ == old(self)@.advanced(1),
                None => old(self)@.remaining().len() == 0 && final(self)@ == old(self)@,
            },
    {
        let len: u64 = self.data.len() as u64;
        if self.position < len {
            let b: u8 = self.data[self.position as usize];
            self.position = self.position + 1;
            Some(b)
        } else {
            None
        }
    }

    /// Exactly the next `n` bytes; where fewer are left, all of them are taken.
    pub fn read_exact(&mut self, n: usize) -> (r: Result<Vec<u8>, ReadError>)
        ensures
            ({
                let s = old(self)@.remaining();
                match r {
                    Ok(bytes) => n <= s.len() && bytes@ == s.take(n as int) && final(self)@ == old(
                        self,
                    )@.advanced(n as nat),
                    Err(e) => n > s.len() && e == ReadError::UnexpectedEof && final(self)@ == old(
                        self,
                    )@.exhausted(),
                }
            }),
    {
        let len: u64 = self.data.len() as u64;
        if self.position > len {
            if n == 0 {
                return Ok(Vec::new());
            }
            return Err(ReadError::UnexpectedEof);
        }
        let start: usize = self.position as usize;
        if n > self.data.len() - start {
            self.position = len;
            return Err(ReadError::UnexpectedEof);
        }
        let end: usize = start + n;
        let bytes: Vec<u8> = vstd::slice::slice_to_vec(
            vstd::slice::slice_subrange(self.data.as_slice(), start, end),
        );
        assert(bytes@ =~= self@.remaining().take(n as int));
        self.position = end as u64;
        Ok(bytes)
    }

    /// All bytes that are left.
    pub fn read_to_end(&mut self) -> (r: Vec<u8>)
        ensures
            r@ == old(self)@.remaining(),
            final(self)@ == old(self)@.exhausted(),
    {
        let len: u64 = self.data.len() as u64;
        if self.position > len {
            return Vec::new();
        }
        let start: usize = self.position as usize;
        let bytes: Vec<u8> = vstd::slice::slice_to_vec(
            vstd::slice::slice_subrange(self.data.as_slice(), start, self.data.len()),
        );
        assert(bytes@ =~= self@.remaining());
        self.position = len;
        bytes
    }
}

/// Moving on by `n` bytes leaves what follows them.
pub proof fn lemma_advanced(c: CursorView, n: nat)
    requires
        n <= c.remaining().len(),
    ensures
        c.advanced(n).remaining() == c.remaining().skip(n as int),
{
    if c.position <= c.data.len() {
        assert(c.advanced(n).remaining() =~= c.remaining().skip(n as int));
    } else {
        assert(c.remaining().skip(n as int) =~= Seq::<u8>::empty());
    }
}

/// Reads an unsigned LEB128-encoded integer.
pub fn read_uvarint(reader: &mut Cursor) -> (r: Result<u64, ReadError>)
    ensures
        r == uvarint_read(old(reader)@.remaining()).0,
        final(reader)@ == old(reader)@.advanced(uvarint_read(old(reader)@.remaining()).1),
{
    let mut decoder: UvarintDecoder = UvarintDecoder::new();
    let ghost s = reader@.remaining();
    assert(s.take(0) =~= Seq::<u8>::empty());
    loop
        invariant
            decoder@ == s.take(decoder@.len() as int),
            decoder@.len() <= s.len(),
            s == old(reader)@.remaining(),
            reader@ == old(reader)@.advanced(decoder@.len()),
            decoder@.len() == 0 || decoded(decoder@) is None,
        decreases s.len() - decoder@.len(),
    {
        let ghost k = decoder@.len() as int;
        match reader.read_byte() {
            None => {
                proof {
                    assert(s.take(k) =~= s);
                    if s.len() == 0 {
                        assert(decoded(s) is None);
                    }
                }
                return Err(ReadError::UnexpectedEof);
            },
            Some(b) => {
                proof {
                    assert(s[k] == b);
                    assert(s.take(k).push(b) =~= s.take(k + 1));
                    assert(s =~= s.take(k + 1) + s.skip(k + 1));
                    if decoded(s.take(k + 1)) is Some {
                        crate::uvarint::law_decode_prefix(s.take(k + 1), s.skip(k + 1));
                    }
                }
                match decoder.push(b) {
                    UvarintStep::More => {},
                    UvarintStep::Done(v) => {
                        return Ok(v);
                    },
                    UvarintStep::Invalid(e) => {
                        return Err(ReadError::Uvarint(e));
                    },
                }
            },
        }
    }
}

/// A cursor behind `front` has exactly the rest before it, and moving on takes it along; beyond the
/// end there is nothing.
pub proof fn law_remaining(front: Seq<u8>, rest: Seq<u8>, n: nat, beyond: nat)
    requires
        n <= rest.len(),
    ensures
        ({
            let c = CursorView { data: front + rest, position: front.len() };
            &&& c.remaining() == rest
            &&& c.advanced(n) == (CursorView { data: front + rest, position: front.len() + n })
            &&& c.advanced(n).remaining() == rest.skip(n as int)
            &&& c.exhausted() == (CursorView {
                data: front + rest,
                position: (front.len() + rest.len()) as nat,
            })
        }),
        (CursorView { data: rest, position: rest.len() + beyond }).remaining() == Seq::<u8>::empty(),
        (CursorView { data: rest, position: rest.len() + beyond }).exhausted() == (CursorView {
            data: rest,
            position: rest.len() + beyond,
        }),
{
    let c = CursorView { data: front + rest, position: front.len() };
    assert(c.remaining() =~= rest);
    assert(c.advanced(n).remaining() =~= rest.skip(n as int));
    assert((CursorView { data: rest, position: rest.len() + beyond }).remaining() =~= Seq::<
        u8,
    >::empty());
}

/// An integer is read with the bytes that make it up and no others, padded or not.
pub proof fn law_reads_integer(front: Seq<u8>, last: u8, rest: Seq<u8>)
    requires
        front.len() <= 9,
        forall|i: int| 0 <= i < front.len() ==> #[trigger] front[i] >= 0x80,
        last < 0x80,
        front.len() == 9 ==> last <= 1,
    ensures
        uvarint_read(front.push(last) + rest) == (
            Ok::<u64, ReadError>(low_bits_sum(front.push(last)) as u64),
            (front.len() + 1) as nat,
        ),
        0 <= low_bits_sum(front.push(last)) <= u64::MAX,
{
    law_decodes(front, last, rest);
}

/// What is no integer is told from what is cut off: the former takes ten bytes, the latter all
/// there are.
pub proof fn law_reads_no_integer(front: Seq<u8>, tenth: u8, rest: Seq<u8>)
    requires
        forall|i: int| 0 <= i < front.len() ==> #[trigger] front[i] >= 0x80,
    ensures
        front.len() == 9 && 1 < tenth < 0x80 ==> uvarint_read(front.push(tenth) + rest) == (
            Err::<u64, ReadError>(ReadError::Uvarint(UvarintError::Overflow)),
            10nat,
        ),
        front.len() == 9 && tenth >= 0x80 ==> uvarint_read(front.push(tenth) + rest) == (
            Err::<u64, ReadError>(ReadError::Uvarint(UvarintError::TooLong)),
            10nat,
        ),
        front.len() <= 9 ==> uvarint_read(front) == (
            Err::<u64, ReadError>(ReadError::UnexpectedEof),
            front.len(),
        ),
{
    law_refuses_to_decode(front, tenth, rest);
}

/// Whether `bytes` are an integer, padded or not: seven bits per byte, the first byte least, with
/// the high bit set on every byte but the last.
pub open spec fn denotes(bytes: Seq<u8>, v: u64) -> bool {
    &&& 1 <= bytes.len() <= 10
    &&& forall|i: int| 0 <= i < bytes.len() - 1 ==> #[trigger] bytes[i] >= 0x80
    &&& bytes.last() < 0x80
    &&& bytes.len() == 10 ==> bytes.last() <= 1
    &&& low_bits_sum(bytes) == v
}

/// An integer is read off the front of whatever follows it.
pub proof fn law_reads_denoted(bytes: Seq<u8>, v: u64, rest: Seq<u8>)
    requires
        denotes(bytes, v),
    ensures
        uvarint_read(bytes + rest) == (Ok::<u64, ReadError>(v), bytes.len()),
{
    let front = bytes.drop_last();
    assert(front.push(bytes.last()) =~= bytes);
    law_reads_integer(front, bytes.last(), rest);
}

/// The shortest encoding is one.
pub proof fn law_encoding_denotes(v: u64)
    ensures
        denotes(encoded(v as nat), v),
{
    let e = encoded(v as nat);
    law_encodes(v as nat);
    law_decode_encode(v, Seq::empty());
    assert(e + Seq::<u8>::empty() =~= e);
    if e.len() == 10 && e.last() > 1 {
        let front = e.drop_last();
        assert(front.push(e.last()) + Seq::<u8>::empty() =~= e);
        law_refuses_to_decode(front, e.last(), Seq::empty());
    }
}

/// An early end surfaces as one, and nothing else does.
pub proof fn law_read_error_kinds(e: ReadError)
    ensures
        e.spec_kind() == ErrorKind::UnexpectedEof <==> e is UnexpectedEof,
        e.spec_kind() == ErrorKind::InvalidData <==> e is Uvarint,
{
}

} // verus!
