//! What a reader makes of the bytes of an archive.

use vstd::prelude::*;

use super::{block_bytes, block_read, blocks_bytes, counted, header_block, item_node, item_nodes, law_archive_in_order, law_block_roundtrip, next_read, nodes_read, section_read, NextView, NodeReader};
use crate::cid::{cid_bytes, cid_v1, CidView};
use crate::cursor::{denotes, law_encoding_denotes, law_reads_denoted, lemma_advanced, CursorView, ReadError};
use crate::raw_node::{law_section, law_section_digest, law_section_roundtrip, NodeError, PrefixBytes, RawNodeView};
use crate::uvarint::encoded;

verus! {

/// A section on its own holds the identifier and all of the payload that were put into it, however
/// long the payload is.
pub proof fn law_item_roundtrip(codec: u64, code: u64, digest: Seq<u8>, data: Seq<u8>)
    requires
        digest.len() <= 64,
    ensures
        item_node(cid_bytes(cid_v1(codec, code, digest)) + data) == Ok::<RawNodeView, NodeError>(
            RawNodeView { cid: CidView { version: 1, codec, code, digest }, data },
        ),
{
    let item = cid_bytes(cid_v1(codec, code, digest)) + data;
    let c = CursorView { data: item, position: 0 };
    assert(c.remaining() =~= item);
    law_section_roundtrip(c, codec, code, digest, data);
}

/// A section on its own is four numbers, a digest and a payload that is all the rest, or no node.
pub proof fn law_item(
    p: PrefixBytes,
    version: u64,
    codec: u64,
    hash: u64,
    digest: Seq<u8>,
    data: Seq<u8>,
)
    requires
        digest.len() <= 64,
        p.denote(version, codec, hash, digest.len() as u64),
    ensures
        version == 1 ==> item_node(p.all() + digest + data) == Ok::<RawNodeView, NodeError>(
            RawNodeView { cid: CidView { version: 1, codec, code: hash, digest }, data },
        ),
        version == 0 && hash == 0x12 && digest.len() == 32 ==> item_node(p.all() + digest + data)
            == Ok::<RawNodeView, NodeError>(
            RawNodeView { cid: CidView { version: 0, codec: 0x70, code: 0x12, digest }, data },
        ),
        version == 0 && !(hash == 0x12 && digest.len() == 32) ==> item_node(p.all() + digest + data)
            == Err::<RawNodeView, NodeError>(NodeError::InvalidCidV0Multihash),
        version > 1 ==> item_node(p.all() + digest + data) == Err::<RawNodeView, NodeError>(
            NodeError::UnknownCidVersion,
        ),
{
    let item = p.all() + digest + data;
    let c = CursorView { data: item, position: 0 };
    assert(c.remaining() =~= item);
    law_section(c, p, version, codec, hash, digest, data);
}

/// A section on its own with a digest that is too long, or cut off, is no node.
pub proof fn law_item_digest(
    p: PrefixBytes,
    version: u64,
    codec: u64,
    hash: u64,
    length: u64,
    rest: Seq<u8>,
)
    requires
        p.denote(version, codec, hash, length),
    ensures
        length > 64 ==> item_node(p.all() + rest) == Err::<RawNodeView, NodeError>(
            NodeError::DigestTooLong { position: p.all().len() as u64 },
        ),
        length <= 64 && length > rest.len() ==> item_node(p.all() + rest) == Err::<
            RawNodeView,
            NodeError,
        >(NodeError::Read(ReadError::UnexpectedEof)),
{
    let item = p.all() + rest;
    let c = CursorView { data: item, position: 0 };
    assert(c.remaining() =~= item);
    law_section_digest(c, p, version, codec, hash, length, rest);
}

/// A block is read whole, up to the limit and not beyond; where it is refused nothing of it is
/// taken but its length, and where the stream is too short all that is left.
pub proof fn law_block(
    limit: usize,
    too_long: NodeError,
    c: CursorView,
    length: Seq<u8>,
    size: u64,
    rest: Seq<u8>,
)
    requires
        denotes(length, size),
        c.remaining() == length + rest,
    ensures
        size <= limit && size <= rest.len() ==> block_read(limit, too_long, c) == (
            Ok::<Seq<u8>, NodeError>(rest.take(size as int)),
            CursorView { data: c.data, position: (c.position + length.len() + size) as nat },
        ) && block_read(limit, too_long, c).1.remaining() == rest.skip(size as int),
        size > limit ==> block_read(limit, too_long, c) == (
            Err::<Seq<u8>, NodeError>(too_long),
            CursorView { data: c.data, position: c.position + length.len() },
        ),
        size <= limit && size > rest.len() ==> block_read(limit, too_long, c) == (
            Err::<Seq<u8>, NodeError>(NodeError::Read(ReadError::UnexpectedEof)),
            CursorView { data: c.data, position: (c.position + length.len() + rest.len()) as nat },
        ),
{
    law_reads_denoted(length, size, rest);
    lemma_advanced(c, length.len());
    assert(c.remaining().skip(length.len() as int) =~= rest);
    if size <= rest.len() {
        lemma_advanced(c.advanced(length.len()), size as nat);
    }
}

/// Headers have at most 1024 bytes, sections at most as many as the reader was told, and each has
/// an error of its own.
pub proof fn law_limits(
    max_section_size: usize,
    c: CursorView,
    length: Seq<u8>,
    size: u64,
    rest: Seq<u8>,
)
    requires
        denotes(length, size),
        c.remaining() == length + rest,
        size <= rest.len(),
    ensures
        size <= 1024 ==> header_block(c).0 == Ok::<Seq<u8>, NodeError>(rest.take(size as int)),
        size > 1024 ==> header_block(c).0 == Err::<Seq<u8>, NodeError>(NodeError::HeaderTooLong),
        size <= max_section_size ==> section_read(max_section_size, c).0 == Ok::<Seq<u8>, NodeError>(
            rest.take(size as int),
        ),
        size > max_section_size ==> section_read(max_section_size, c).0 == Err::<Seq<u8>, NodeError>(
            NodeError::SectionTooLong,
        ),
{
    law_block(1024, NodeError::HeaderTooLong, c, length, size, rest);
    law_block(max_section_size, NodeError::SectionTooLong, c, length, size, rest);
}

/// A fresh reader in front of a header and a section gives the node of that section, with its
/// identifier and all of its payload, keeps the header, counts one item and the bytes of the section,
/// and leaves what follows.
pub proof fn law_first_node(
    max_section_size: usize,
    c: CursorView,
    header: Seq<u8>,
    codec: u64,
    code: u64,
    digest: Seq<u8>,
    data: Seq<u8>,
    rest: Seq<u8>,
    item_index: nat,
)
    requires
        header.len() <= 1024,
        digest.len() <= 64,
        (cid_bytes(cid_v1(codec, code, digest)) + data).len() <= max_section_size,
        c.remaining() == encoded(header.len()) + header + encoded(
            (cid_bytes(cid_v1(codec, code, digest)) + data).len(),
        ) + (cid_bytes(cid_v1(codec, code, digest)) + data) + rest,
    ensures
        ({
            let item = cid_bytes(cid_v1(codec, code, digest)) + data;
            let next = next_read(None, item_index, max_section_size, c);
            &&& next.result == Ok::<RawNodeView, NodeError>(
                RawNodeView { cid: CidView { version: 1, codec, code, digest }, data },
            )
            &&& next.bytes_read == item.len()
            &&& next.header == Some(header)
            &&& next.item_index == item_index + 1
            &&& next.stream.remaining() == rest
            &&& next.stream.data == c.data
        }),
{
    let item = cid_bytes(cid_v1(codec, code, digest)) + data;
    let tail = block_bytes(item) + rest;
    assert(c.remaining() =~= block_bytes(header) + tail);
    law_block_roundtrip(1024, NodeError::HeaderTooLong, c, header, tail);
    let c1 = header_block(c).1;
    law_block_roundtrip(max_section_size, NodeError::SectionTooLong, c1, item, rest);
    law_item_roundtrip(codec, code, digest, data);
}

/// A reader that has its header, of whatever length, takes the next section as the next node.
pub proof fn law_next_node(
    max_section_size: usize,
    c: CursorView,
    header: Seq<u8>,
    length: Seq<u8>,
    item: Seq<u8>,
    rest: Seq<u8>,
    item_index: nat,
)
    requires
        item.len() <= max_section_size,
        denotes(length, item.len() as u64),
        c.remaining() == length + item + rest,
    ensures
        ({
            let next = next_read(Some(header), item_index, max_section_size, c);
            &&& next.result == item_node(item)
            &&& next.bytes_read == item.len()
            &&& next.header == Some(header)
            &&& next.item_index == item_index + if item_node(item) is Ok {
                1nat
            } else {
                0nat
            }
            &&& next.stream.remaining() == rest
        }),
{
    assert(c.remaining() =~= length + (item + rest));
    law_block(
        max_section_size,
        NodeError::SectionTooLong,
        c,
        length,
        item.len() as u64,
        item + rest,
    );
    assert((item + rest).take(item.len() as int) =~= item);
    assert((item + rest).skip(item.len() as int) =~= rest);
}

/// What cannot be read counts for nothing: a header that fails is not kept, and a section that fails
/// is no item.
pub proof fn law_failed_read(
    max_section_size: usize,
    c: CursorView,
    header: Option<Seq<u8>>,
    item_index: nat,
    e: NodeError,
)
    ensures
        header is None && header_block(c).0 == Err::<Seq<u8>, NodeError>(e) ==> next_read(
            header,
            item_index,
            max_section_size,
            c,
        ) == (NextView {
            result: Err(e),
            bytes_read: 0,
            header: None,
            item_index,
            stream: header_block(c).1,
        }),
        header is Some && section_read(max_section_size, c).0 == Err::<Seq<u8>, NodeError>(e)
            ==> next_read(header, item_index, max_section_size, c) == (NextView {
            result: Err(e),
            bytes_read: 0,
            header,
            item_index,
            stream: section_read(max_section_size, c).1,
        }),
        counted(Err(e)) == 0,
{
}

/// The section of a version 1 node.
pub open spec fn node_bytes(node: RawNodeView) -> Seq<u8> {
    cid_bytes(cid_v1(node.cid.codec, node.cid.code, node.cid.digest)) + node.data
}

/// An archive of version 1 nodes is read back node by node, each with its identifier and its whole
/// payload, in order.
pub proof fn law_archive_roundtrip(
    max_section_size: usize,
    c: CursorView,
    header: Seq<u8>,
    nodes: Seq<RawNodeView>,
    rest: Seq<u8>,
)
    requires
        header.len() <= 1024,
        forall|i: int|
            0 <= i < nodes.len() ==> (#[trigger] nodes[i]).cid.version == 1 && nodes[i].cid.digest.len()
                <= 64 && node_bytes(nodes[i]).len() <= max_section_size,
        c.remaining() == block_bytes(header) + blocks_bytes(
            Seq::new(nodes.len(), |i: int| node_bytes(nodes[i])),
        ) + rest,
    ensures
        nodes_read(nodes.len(), None, 0, max_section_size, c).len() == nodes.len(),
        forall|i: int|
            0 <= i < nodes.len() ==> #[trigger] nodes_read(
                nodes.len(),
                None,
                0,
                max_section_size,
                c,
            )[i] == Ok::<RawNodeView, NodeError>(nodes[i]),
{
    let items = Seq::new(nodes.len(), |i: int| node_bytes(nodes[i]));
    assert forall|i: int| 0 <= i < items.len() implies (#[trigger] items[i]).len() <= max_section_size by {
        assert(nodes[i].cid.version == 1);
    }
    law_archive_in_order(max_section_size, c, header, items, rest);
    assert forall|i: int| 0 <= i < nodes.len() implies #[trigger] nodes_read(
        nodes.len(),
        None,
        0,
        max_section_size,
        c,
    )[i] == Ok::<RawNodeView, NodeError>(nodes[i]) by {
        let n = nodes[i];
        law_item_roundtrip(n.cid.codec, n.cid.code, n.cid.digest, n.data);
        assert(item_nodes(items)[i] == item_node(items[i]));
        assert(items[i] == node_bytes(n));
    }
}

/// A header counts as kept once it was read, and all of it is kept, even where it is empty.
pub proof fn law_header_is_kept<R>(reader: NodeReader<R>)
    ensures
        reader.header_read ==> reader.cached_header() == Some(reader.header@),
        !reader.header_read ==> reader.cached_header() is None,
{
}

/// A block is its length, as an integer, and then its bytes.
pub proof fn law_block_bytes(b: Seq<u8>)
    requires
        b.len() <= u64::MAX,
    ensures
        block_bytes(b).skip(block_bytes(b).len() - b.len()) == b,
        denotes(block_bytes(b).take(block_bytes(b).len() - b.len()), b.len() as u64),
{
    law_encoding_denotes(b.len() as u64);
    let n = encoded(b.len()).len() as int;
    assert(block_bytes(b).skip(n) =~= b);
    assert(block_bytes(b).take(n) =~= encoded(b.len()));
}

} // verus!
