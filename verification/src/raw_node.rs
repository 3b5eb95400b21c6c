//! Raw nodes: the sections of a CAR archive, split into identifier and payload.

use vstd::prelude::*;

use crate::cid::{cid_bytes, cid_v0, cid_v1, multihash_bytes, new_cid_v0, new_cid_v1, wrap_multihash, Cid, CidView, MAX_DIGEST_LEN, SHA2_256};
use crate::cursor::{denotes, law_reads_denoted, lemma_advanced, read_uvarint, uvarint_read, Cursor, CursorView, ErrorKind, ReadError};
use crate::text::{ascii, decimal, law_decimal_parses, parsed_u64, push_decimal};
use crate::uvarint::{encoded, law_decode_encode};

verus! {

/// Why a node could not be read.
#[derive(Copy, Clone, Debug, PartialEq, Eq, Structural)]
pub enum NodeError {
    /// The bytes could not be read.
    Read(ReadError),
    /// The archive header announces more bytes than headers may have.
    HeaderTooLong,
    /// A section announces more bytes than sections may have.
    SectionTooLong,
    /// A digest announces more bytes than identifiers can hold.
    DigestTooLong {
        /// Where in the section the digest would start.
        position: u64,
    },
    /// A version 0 identifier that is not a SHA2-256 digest.
    InvalidCidV0Multihash,
    /// An identifier of a version other than 0 and 1.
    UnknownCidVersion,
    /// A payload that is no node of a known type.
    UnknownType,
}

impl NodeError {
    /// The kind of the I/O error under which this surfaces, `None` where it is no I/O error.
    pub open spec fn spec_kind(self) -> Option<ErrorKind> {
        match self {
            NodeError::Read(ReadError::UnexpectedEof) => Some(ErrorKind::UnexpectedEof),
            NodeError::Read(ReadError::Uvarint(_)) => Some(ErrorKind::InvalidData),
            NodeError::InvalidCidV0Multihash => None,
            _ => Some(ErrorKind::Other),
        }
    }

    /// The kind of the I/O error under which this surfaces, `None` where it is no I/O error.
    pub fn kind(&self) -> (r: Option<ErrorKind>)
        ensures
            r == self.spec_kind(),
    {
        match self {
            NodeError::Read(e) => Some(e.kind()),
            NodeError::InvalidCidV0Multihash => None,
            _ => Some(ErrorKind::Other),
        }
    }

    /// Whether this is the end of the stream.
    pub fn is_eof(&self) -> (r: bool)
        ensures
            r == (*self == NodeError::Read(ReadError::UnexpectedEof)),
    {
        match self {
            NodeError::Read(ReadError::UnexpectedEof) => true,
            _ => false,
        }
    }

    /// The message.
    pub open spec fn text_view(self) -> Seq<char> {
        match self {
            NodeError::Read(e) => e.text_view(),
            NodeError::HeaderTooLong => "Header length too long"@,
            NodeError::SectionTooLong => "Section size too long"@,
            NodeError::DigestTooLong { position } => "Digest length too long, position="@ + decimal(
                position as nat,
            ),
            NodeError::InvalidCidV0Multihash => "CIDv0 requires a Sha-256 multihash"@,
            NodeError::UnknownCidVersion => "Unknown CID version"@,
            NodeError::UnknownType => "Unknown type"@,
        }
    }

    /// The error message.
    pub fn text(&self) -> (r: String)
        ensures
            r@ == self.text_view(),
    {
        match self {
            NodeError::Read(e) => e.text(),
            NodeError::HeaderTooLong => "Header length too long".to_owned(),
            NodeError::SectionTooLong => "Section size too long".to_owned(),
            NodeError::DigestTooLong { position } => {
                let mut out: String = "Digest length too long, position=".to_owned();
                push_decimal(&mut out, *position);
                out
            },
            NodeError::InvalidCidV0Multihash => "CIDv0 requires a Sha-256 multihash".to_owned(),
            NodeError::UnknownCidVersion => "Unknown CID version".to_owned(),
            NodeError::UnknownType => "Unknown type".to_owned(),
        }
    }
}

/// A node's payload paired with its identifier.
#[derive(Clone, Debug, PartialEq, Eq, Hash)]
pub struct RawNode {
    /// Content identifier of the node.
    pub cid: Cid,
    /// CBOR-encoded bytes of the node.
    pub data: Vec<u8>,
}

/// What a [`RawNode`] stands for.
#[verifier::ext_equal]
pub struct RawNodeView {
    pub cid: CidView,
    pub data: Seq<u8>,
}

impl View for RawNode {
    type V = RawNodeView;

    open spec fn view(&self) -> RawNodeView {
        RawNodeView { cid: self.cid@, data: self.data@ }
    }
}

/// The integers in front of a digest.
pub struct SectionPrefix {
    pub cid_version: u64,
    pub multicodec: u64,
    pub hash_function: u64,
    pub digest_length: u64,
}

/// The view-level value of `r`, for comparing what was read with what was stated.
pub open spec fn node_result_view(r: Result<RawNode, NodeError>) -> Result<RawNodeView, NodeError> {
    match r {
        Ok(node) => Ok(node@),
        Err(e) => Err(e),
    }
}

/// Reads one integer, and hands it with the cursor behind it to `next`, or stops at an error.
pub open spec fn with_uvarint<T>(
    c: CursorView,
    next: spec_fn(u64, CursorView) -> (Result<T, NodeError>, CursorView),
) -> (Result<T, NodeError>, CursorView) {
    let (read, n) = uvarint_read(c.remaining());
    match read {
        Err(e) => (Err(NodeError::Read(e)), c.advanced(n)),
        Ok(v) => next(v, c.advanced(n)),
    }
}

/// The four integers in front of a digest, and the cursor behind them.
pub open spec fn section_prefix(c: CursorView) -> (Result<SectionPrefix, NodeError>, CursorView) {
    with_uvarint(
        c,
        |cid_version: u64, c: CursorView|
            with_uvarint(
                c,
                |multicodec: u64, c: CursorView|
                    with_uvarint(
                        c,
                        |hash_function: u64, c: CursorView|
                            with_uvarint(
                                c,
                                |digest_length: u64, c: CursorView|
                                    (
                                        Ok::<SectionPrefix, NodeError>(
                                            SectionPrefix {
                                                cid_version,
                                                multicodec,
                                                hash_function,
                                                digest_length,
                                            },
                                        ),
                                        c,
                                    ),
                            ),
                    ),
            ),
    )
}

/// The node that a prefix, a digest and a payload make up.
pub open spec fn assembled_node(prefix: SectionPrefix, digest: Seq<u8>, data: Seq<u8>) -> Result<
    RawNodeView,
    NodeError,
> {
    if prefix.cid_version == 0 {
        if prefix.hash_function == SHA2_256 && digest.len() == 32 {
            Ok(RawNodeView { cid: cid_v0(digest), data })
        } else {
            Err(NodeError::InvalidCidV0Multihash)
        }
    } else if prefix.cid_version == 1 {
        Ok(RawNodeView { cid: cid_v1(prefix.multicodec, prefix.hash_function, digest), data })
    } else {
        Err(NodeError::UnknownCidVersion)
    }
}

/// The node that a section holds: integers, digest, and the payload up to the end; and where
/// the cursor is left.
pub open spec fn section_node(c: CursorView) -> (Result<RawNodeView, NodeError>, CursorView) {
    match section_prefix(c) {
        (Err(e), after) => (Err(e), after),
        (Ok(prefix), after) => {
            let s = after.remaining();
            if prefix.digest_length > MAX_DIGEST_LEN {
                (Err(NodeError::DigestTooLong { position: after.position as u64 }), after)
            } else if prefix.digest_length > s.len() {
                (Err(NodeError::Read(ReadError::UnexpectedEof)), after.exhausted())
            } else {
                let n = prefix.digest_length as int;
                (assembled_node(prefix, s.take(n), s.skip(n)), after.exhausted())
            }
        },
    }
}

fn read_field(cursor: &mut Cursor) -> (r: Result<u64, NodeError>)
    ensures
        ({
            let (read, n) = uvarint_read(old(cursor)@.remaining());
            &&& final(cursor)@ == old(cursor)@.advanced(n)
            &&& match read {
                Ok(v) => r == Ok::<u64, NodeError>(v),
                Err(e) => r == Err::<u64, NodeError>(NodeError::Read(e)),
            }
        }),
{
    match read_uvarint(cursor) {
        Ok(v) => Ok(v),
        Err(e) => Err(NodeError::Read(e)),
    }
}

impl RawNode {
    /// Pairs an identifier with a payload.
    pub fn new(cid: Cid, data: Vec<u8>) -> (r: RawNode)
        ensures
            r.cid == cid,
            r.data == data,
    {
        RawNode { cid, data }
    }

    /// Reads a node from a section.
    pub fn from_cursor(cursor: &mut Cursor) -> (r: Result<RawNode, NodeError>)
        ensures
            node_result_view(r) == section_node(old(cursor)@).0,
            final(cursor)@ == section_node(old(cursor)@).1,
    {
        let cid_version: u64 = match read_field(cursor) {
            Ok(v) => v,
            Err(e) => {
                return Err(e);
            },
        };
        let multicodec: u64 = match read_field(cursor) {
            Ok(v) => v,
            Err(e) => {
                return Err(e);
            },
        };
        let hash_function: u64 = match read_field(cursor) {
            Ok(v) => v,
            Err(e) => {
                return Err(e);
            },
        };
        let digest_length: u64 = match read_field(cursor) {
            Ok(v) => v,
            Err(e) => {
                return Err(e);
            },
        };
        let ghost after = cursor@;
        if digest_length > MAX_DIGEST_LEN {
            return Err(NodeError::DigestTooLong { position: cursor.position() });
        }
        let digest: Vec<u8> = match cursor.read_exact(digest_length as usize) {
            Ok(bytes) => bytes,
            Err(e) => {
                return Err(NodeError::Read(e));
            },
        };
        let data: Vec<u8> = cursor.read_to_end();
        assert(data@ =~= after.remaining().skip(digest_length as int));
        assert(cursor@ == after.exhausted());
        let hash = wrap_multihash(hash_function, digest.as_slice());
        if cid_version == 0 {
            match new_cid_v0(&hash) {
                Some(cid) => Ok(RawNode::new(cid, data)),
                None => Err(NodeError::InvalidCidV0Multihash),
            }
        } else if cid_version == 1 {
            Ok(RawNode::new(new_cid_v1(multicodec, &hash), data))
        } else {
            Err(NodeError::UnknownCidVersion)
        }
    }
}

/// An integer at the front of the remaining bytes is read, and the rest remains.
proof fn lemma_read_encoded(c: CursorView, v: u64, rest: Seq<u8>)
    requires
        c.remaining() == encoded(v as nat) + rest,
    ensures
        uvarint_read(c.remaining()) == (Ok::<u64, ReadError>(v), encoded(v as nat).len()),
        c.advanced(encoded(v as nat).len()).remaining() == rest,
{
    law_decode_encode(v, rest);
    let n = encoded(v as nat).len();
    assert(c.remaining().skip(n as int) =~= rest);
    lemma_advanced(c, n);
}

/// A section with a digest of acceptable length is split at its fields, whatever they hold.
pub proof fn law_section_fields(c: CursorView, prefix: SectionPrefix, digest: Seq<u8>, data: Seq<u8>)
    requires
        prefix.digest_length == digest.len(),
        digest.len() <= MAX_DIGEST_LEN,
        c.remaining() == encoded(prefix.cid_version as nat) + encoded(prefix.multicodec as nat)
            + multihash_bytes(prefix.hash_function, digest) + data,
    ensures
        section_node(c) == (assembled_node(prefix, digest, data), c.exhausted()),
{
    let tail4 = digest + data;
    let tail3 = encoded(digest.len()) + tail4;
    let tail2 = encoded(prefix.hash_function as nat) + tail3;
    let tail1 = encoded(prefix.multicodec as nat) + tail2;
    assert(c.remaining() =~= encoded(prefix.cid_version as nat) + tail1);
    lemma_read_encoded(c, prefix.cid_version, tail1);
    let c1 = c.advanced(encoded(prefix.cid_version as nat).len());
    lemma_read_encoded(c1, prefix.multicodec, tail2);
    let c2 = c1.advanced(encoded(prefix.multicodec as nat).len());
    lemma_read_encoded(c2, prefix.hash_function, tail3);
    let c3 = c2.advanced(encoded(prefix.hash_function as nat).len());
    lemma_read_encoded(c3, prefix.digest_length, tail4);
    let c4 = c3.advanced(encoded(digest.len()).len());
    assert(section_prefix(c) == (Ok::<SectionPrefix, NodeError>(prefix), c4));
    assert(tail4.take(digest.len() as int) =~= digest);
    assert(tail4.skip(digest.len() as int) =~= data);
    assert(c.remaining().len() == c4.position - c.position + tail4.len());
}

/// A section made of the binary form of a version 1 identifier and a payload reads back as
/// exactly that identifier and that payload.
pub proof fn law_section_roundtrip(c: CursorView, codec: u64, code: u64, digest: Seq<u8>, data: Seq<u8>)
    requires
        digest.len() <= MAX_DIGEST_LEN,
        c.remaining() == cid_bytes(cid_v1(codec, code, digest)) + data,
    ensures
        section_node(c).0 == Ok::<RawNodeView, NodeError>(
            RawNodeView { cid: cid_v1(codec, code, digest), data },
        ),
        section_node(c).1 == c.exhausted(),
{
    let prefix = SectionPrefix {
        cid_version: 1,
        multicodec: codec,
        hash_function: code,
        digest_length: digest.len() as u64,
    };
    law_section_fields(c, prefix, digest, data);
}

/// The view of a node tells its identifier and all of its payload.
pub proof fn law_node_view(node: RawNode, e: NodeError)
    ensures
        node@ == (RawNodeView { cid: node.cid@, data: node.data@ }),
        node_result_view(Ok(node)) == Ok::<RawNodeView, NodeError>(
            RawNodeView { cid: node.cid@, data: node.data@ },
        ),
        node_result_view(Err(e)) == Err::<RawNodeView, NodeError>(e),
{
}

proof fn lemma_read_denoted(c: CursorView, bytes: Seq<u8>, v: u64, rest: Seq<u8>)
    requires
        denotes(bytes, v),
        c.remaining() == bytes + rest,
    ensures
        uvarint_read(c.remaining()) == (Ok::<u64, ReadError>(v), bytes.len()),
        c.advanced(bytes.len()).remaining() == rest,
        c.advanced(bytes.len()).position == c.position + bytes.len(),
{
    law_reads_denoted(bytes, v, rest);
    assert(c.remaining().skip(bytes.len() as int) =~= rest);
    lemma_advanced(c, bytes.len());
}

/// The four numbers in front of a digest, each padded or not.
pub struct PrefixBytes {
    pub version: Seq<u8>,
    pub codec: Seq<u8>,
    pub hash: Seq<u8>,
    pub length: Seq<u8>,
}

impl PrefixBytes {
    /// All the bytes.
    pub open spec fn all(self) -> Seq<u8> {
        self.version + self.codec + self.hash + self.length
    }

    /// Whether they denote these numbers.
    pub open spec fn denote(self, version: u64, codec: u64, hash: u64, length: u64) -> bool {
        &&& denotes(self.version, version)
        &&& denotes(self.codec, codec)
        &&& denotes(self.hash, hash)
        &&& denotes(self.length, length)
    }
}

proof fn lemma_prefix(
    c: CursorView,
    p: PrefixBytes,
    version: u64,
    codec: u64,
    hash: u64,
    length: u64,
    rest: Seq<u8>,
)
    requires
        p.denote(version, codec, hash, length),
        c.remaining() == p.all() + rest,
    ensures
        section_prefix(c) == (
            Ok::<SectionPrefix, NodeError>(
                SectionPrefix {
                    cid_version: version,
                    multicodec: codec,
                    hash_function: hash,
                    digest_length: length,
                },
            ),
            c.advanced(p.all().len()),
        ),
        c.advanced(p.all().len()).remaining() == rest,
{
    let tail3 = p.length + rest;
    let tail2 = p.hash + tail3;
    let tail1 = p.codec + tail2;
    assert(c.remaining() =~= p.version + tail1);
    lemma_read_denoted(c, p.version, version, tail1);
    let c1 = c.advanced(p.version.len());
    lemma_read_denoted(c1, p.codec, codec, tail2);
    let c2 = c1.advanced(p.codec.len());
    lemma_read_denoted(c2, p.hash, hash, tail3);
    let c3 = c2.advanced(p.hash.len());
    lemma_read_denoted(c3, p.length, length, rest);
    assert(c3.advanced(p.length.len()) =~= c.advanced(p.all().len()));
}

/// A section is four numbers, a digest as long as the last of them says, and a payload that is all
/// the rest. Version 1 takes any codec, hash function and digest; version 0 only SHA2-256 digests of
/// 32 bytes, and its codec is DAG-PB whatever is written; there is no other version.
pub proof fn law_section(
    c: CursorView,
    p: PrefixBytes,
    version: u64,
    codec: u64,
    hash: u64,
    digest: Seq<u8>,
    data: Seq<u8>,
)
    requires
        digest.len() <= 64,
        p.denote(version, codec, hash, digest.len() as u64),
        c.remaining() == p.all() + digest + data,
    ensures
        section_node(c).1.data == c.data,
        section_node(c).1.position == c.position + c.remaining().len(),
        version == 1 ==> section_node(c).0 == Ok::<RawNodeView, NodeError>(
            RawNodeView { cid: CidView { version: 1, codec, code: hash, digest }, data },
        ),
        version == 0 && hash == 0x12 && digest.len() == 32 ==> section_node(c).0 == Ok::<
            RawNodeView,
            NodeError,
        >(RawNodeView { cid: CidView { version: 0, codec: 0x70, code: 0x12, digest }, data }),
        version == 0 && !(hash == 0x12 && digest.len() == 32) ==> section_node(c).0 == Err::<
            RawNodeView,
            NodeError,
        >(NodeError::InvalidCidV0Multihash),
        version > 1 ==> section_node(c).0 == Err::<RawNodeView, NodeError>(
            NodeError::UnknownCidVersion,
        ),
{
    let rest = digest + data;
    assert(c.remaining() =~= p.all() + rest);
    lemma_prefix(c, p, version, codec, hash, digest.len() as u64, rest);
    assert(rest.take(digest.len() as int) =~= digest);
    assert(rest.skip(digest.len() as int) =~= data);
}

/// A digest of more than 64 bytes is refused where it would start; one that the section is too
/// short for is an early end.
pub proof fn law_section_digest(
    c: CursorView,
    p: PrefixBytes,
    version: u64,
    codec: u64,
    hash: u64,
    length: u64,
    rest: Seq<u8>,
)
    requires
        p.denote(version, codec, hash, length),
        c.remaining() == p.all() + rest,
    ensures
        length > 64 ==> section_node(c) == (
            Err::<RawNodeView, NodeError>(
                NodeError::DigestTooLong { position: (c.position + p.all().len()) as u64 },
            ),
            CursorView { data: c.data, position: c.position + p.all().len() },
        ),
        length <= 64 && length > rest.len() ==> section_node(c).0 == Err::<RawNodeView, NodeError>(
            NodeError::Read(ReadError::UnexpectedEof),
        ) && section_node(c).1.position == c.position + c.remaining().len(),
{
    lemma_prefix(c, p, version, codec, hash, length, rest);
}

/// A section whose numbers cannot be read is refused for the first of them that cannot.
pub proof fn law_section_numbers(
    c: CursorView,
    p: PrefixBytes,
    version: u64,
    codec: u64,
    hash: u64,
    rest: Seq<u8>,
    e: ReadError,
)
    requires
        denotes(p.version, version),
        denotes(p.codec, codec),
        denotes(p.hash, hash),
        uvarint_read(rest).0 == Err::<u64, ReadError>(e),
        c.remaining() == rest || c.remaining() == p.version + rest || c.remaining() == p.version
            + p.codec + rest || c.remaining() == p.version + p.codec + p.hash + rest,
    ensures
        section_node(c).0 == Err::<RawNodeView, NodeError>(NodeError::Read(e)),
{
    if c.remaining() != rest {
        if c.remaining() == p.version + rest {
            lemma_read_denoted(c, p.version, version, rest);
        } else if c.remaining() == p.version + p.codec + rest {
            assert(c.remaining() =~= p.version + (p.codec + rest));
            lemma_read_denoted(c, p.version, version, p.codec + rest);
            let c1 = c.advanced(p.version.len());
            lemma_read_denoted(c1, p.codec, codec, rest);
        } else {
            assert(c.remaining() =~= p.version + (p.codec + (p.hash + rest)));
            lemma_read_denoted(c, p.version, version, p.codec + (p.hash + rest));
            let c1 = c.advanced(p.version.len());
            lemma_read_denoted(c1, p.codec, codec, p.hash + rest);
            let c2 = c1.advanced(p.codec.len());
            lemma_read_denoted(c2, p.hash, hash, rest);
        }
    }
}

/// Only an early end of the bytes surfaces as the end of a stream; what is no I/O error is so
/// whatever it says.
pub proof fn law_node_error_kinds(e: NodeError)
    ensures
        e.spec_kind() == Some(ErrorKind::UnexpectedEof) <==> e == NodeError::Read(
            ReadError::UnexpectedEof,
        ),
        e.spec_kind() == Some(ErrorKind::InvalidData) <==> (e is Read && e->Read_0 is Uvarint),
        e.spec_kind() is None <==> e is InvalidCidV0Multihash,
        e.spec_kind() == Some(ErrorKind::Other) <==> !(e is Read) && !(e is InvalidCidV0Multihash),
{
}

/// The message of a digest that is too long tells where it would start, as it is.
pub proof fn law_digest_message(position: u64)
    ensures
        ({
            let text = NodeError::DigestTooLong { position }.text_view();
            let head = "Digest length too long, position="@;
            &&& text.take(head.len() as int) == head
            &&& parsed_u64(ascii(text.skip(head.len() as int))) == Some(position)
        }),
{
    let text = NodeError::DigestTooLong { position }.text_view();
    let head = "Digest length too long, position="@;
    law_decimal_parses(position);
    assert(text.take(head.len() as int) =~= head);
    assert(text.skip(head.len() as int) =~= decimal(position as nat));
}

} // verus!
