//! Incremental reading of a CAR stream: the header, then one node per section.

use vstd::prelude::*;

use crate::cursor::{lemma_advanced, uvarint_read, Cursor, CursorView, ReadError};
use crate::raw_node::{node_result_view, section_node, with_uvarint, NodeError, RawNode, RawNodeView};
use crate::uvarint::{decoded, encoded, law_decode_encode, UvarintDecoder, UvarintStep};

pub mod laws;

verus! {

/// The longest header that is accepted.
pub const MAX_HEADER_LEN: usize = 1024;

/// Readers that can report their total length.
pub trait Len {
    /// The length that `len` reports.
    spec fn spec_len(&self) -> u64;

    /// Returns the total number of bytes available.
    fn len(&self) -> (r: u64)
        ensures
            r == self.spec_len(),
    ;

    /// Returns `true` when the length is zero.
    fn is_empty(&self) -> (r: bool)
        ensures
            r == (self.spec_len() == 0),
    {
        self.len() == 0
    }
}

/// A block as it stands in the stream: its length, bounded by `limit`, then its bytes; and where
/// the cursor is left.
pub open spec fn block_read(limit: usize, too_long: NodeError, c: CursorView) -> (
    Result<Seq<u8>, NodeError>,
    CursorView,
) {
    with_uvarint(
        c,
        |size: u64, c: CursorView|
            if size > limit {
                (Err(too_long), c)
            } else if size > c.remaining().len() {
                (Err(NodeError::Read(ReadError::UnexpectedEof)), c.exhausted())
            } else {
                (Ok(c.remaining().take(size as int)), c.advanced(size as nat))
            },
    )
}

/// How far the reading of a block has come.
#[derive(Copy, Clone)]
enum BlockPhase {
    Length(UvarintDecoder),
    Body(usize),
}

/// A block that is being read, in steps that each need a known number of bytes.
#[derive(Copy, Clone)]
pub struct BlockRead {
    limit: usize,
    too_long: NodeError,
    phase: BlockPhase,
}

/// How far a block has come.
pub enum BlockView {
    /// These bytes of the length have been taken.
    Length(Seq<u8>),
    /// The length is known, and the bytes are due.
    Body(nat),
}

/// What the bytes just supplied amount to.
#[derive(Copy, Clone, Debug, PartialEq, Eq, Structural)]
pub enum BlockStep {
    /// More bytes are wanted.
    More,
    /// The bytes just supplied are the block.
    Done,
    /// The block cannot be read.
    Failed(NodeError),
}

impl View for BlockRead {
    type V = BlockView;

    closed spec fn view(&self) -> BlockView {
        match self.phase {
            BlockPhase::Length(decoder) => BlockView::Length(decoder@),
            BlockPhase::Body(n) => BlockView::Body(n as nat),
        }
    }
}

impl BlockRead {
    /// The length that the block may not exceed.
    pub closed spec fn spec_limit(self) -> usize {
        self.limit
    }

    /// The error for a block that exceeds it.
    pub closed spec fn spec_too_long(self) -> NodeError {
        self.too_long
    }

    /// Starts on a block of at most `limit` bytes.
    pub fn new(limit: usize, too_long: NodeError) -> (r: BlockRead)
        ensures
            r@ == BlockView::Length(Seq::empty()),
            r.spec_limit() == limit,
            r.spec_too_long() == too_long,
    {
        BlockRead { limit, too_long, phase: BlockPhase::Length(UvarintDecoder::new()) }
    }

    /// The number of bytes that the next step needs.
    pub fn want(&self) -> (r: usize)
        ensures
            r == match self@ {
                BlockView::Length(_) => 1,
                BlockView::Body(n) => n,
            },
    {
        match self.phase {
            BlockPhase::Length(_) => 1,
            BlockPhase::Body(n) => n,
        }
    }

    /// Takes the bytes that were wanted.
    pub fn supply(&mut self, bytes: &[u8]) -> (r: BlockStep)
        requires
            bytes@.len() == match old(self)@ {
                BlockView::Length(_) => 1,
                BlockView::Body(n) => n,
            },
        ensures
            final(self).spec_limit() == old(self).spec_limit(),
            final(self).spec_too_long() == old(self).spec_too_long(),
            match old(self)@ {
                BlockView::Body(_) => r == BlockStep::Done && final(self)@ == old(self)@,
                BlockView::Length(seen) => match decoded(seen.push(bytes@[0])) {
                    None => r == BlockStep::More && final(self)@ == BlockView::Length(
                        seen.push(bytes@[0]),
                    ),
                    Some((Err(e), n)) => n == seen.len() + 1 && final(self)@ == old(self)@ && r == BlockStep::Failed(
                        NodeError::Read(ReadError::Uvarint(e)),
                    ),
                    Some((Ok(size), n)) => n == seen.len() + 1 && if size > old(
                        self,
                    ).spec_limit() {
                        r == BlockStep::Failed(old(self).spec_too_long()) && final(self)@ == old(
                            self,
                        )@
                    } else {
                        r == BlockStep::More && final(self)@ == BlockView::Body(size as nat)
                    },
                },
            },
    {
        match self.phase {
            BlockPhase::Body(_) => BlockStep::Done,
            BlockPhase::Length(decoder) => {
                let mut decoder: UvarintDecoder = decoder;
                match decoder.push(bytes[0]) {
                    UvarintStep::More => {
                        self.phase = BlockPhase::Length(decoder);
                        BlockStep::More
                    },
                    UvarintStep::Invalid(e) => BlockStep::Failed(
                        NodeError::Read(ReadError::Uvarint(e)),
                    ),
                    UvarintStep::Done(size) => {
                        if size > self.limit as u64 {
                            BlockStep::Failed(self.too_long)
                        } else {
                            self.phase = BlockPhase::Body(size as usize);
                            BlockStep::More
                        }
                    },
                }
            },
        }
    }
}

/// Reads a whole block from memory.
fn read_block(stream: &mut Cursor, start: BlockRead) -> (r: Result<Vec<u8>, NodeError>)
    requires
        start@ == BlockView::Length(Seq::empty()),
    ensures
        final(stream)@ == block_read(start.spec_limit(), start.spec_too_long(), old(stream)@).1,
        match r {
            Ok(bytes) => block_read(start.spec_limit(), start.spec_too_long(), old(stream)@).0
                == Ok::<Seq<u8>, NodeError>(bytes@),
            Err(e) => block_read(start.spec_limit(), start.spec_too_long(), old(stream)@).0 == Err::<
                Seq<u8>,
                NodeError,
            >(e),
        },
{
    let mut block: BlockRead = start;
    let ghost limit = start.spec_limit();
    let ghost too_long = start.spec_too_long();
    let ghost c = stream@;
    let ghost s = c.remaining();
    assert(s.take(0) =~= Seq::<u8>::empty());
    loop
        invariant
            block.spec_limit() == limit,
            block.spec_too_long() == too_long,
            limit == start.spec_limit(),
            too_long == start.spec_too_long(),
            c == old(stream)@,
            s == c.remaining(),
            match block@ {
                BlockView::Length(seen) => seen.len() <= s.len() && seen == s.take(
                    seen.len() as int,
                ) && stream@ == c.advanced(seen.len()) && (seen.len() == 0 || decoded(seen) is None),
                BlockView::Body(n) => n <= limit && uvarint_read(s).0 == Ok::<u64, ReadError>(n as u64)
                    && stream@ == c.advanced(uvarint_read(s).1) && uvarint_read(s).1 <= s.len(),
            },
        decreases
            match block@ {
                BlockView::Length(seen) => s.len() + 1 - seen.len(),
                BlockView::Body(_) => 0,
            },
    {
        let ghost before = stream@;
        let bytes: Vec<u8> = match stream.read_exact(block.want()) {
            Ok(bytes) => bytes,
            Err(e) => {
                proof {
                    if let BlockView::Length(seen) = block@ {
                        assert(seen =~= s);
                        if s.len() == 0 {
                            assert(decoded(s) is None);
                        }
                    }
                }
                return Err(NodeError::Read(e));
            },
        };
        proof {
            if let BlockView::Length(seen) = block@ {
                let k = seen.len() as int;
                assert(bytes@[0] == s[k]);
                assert(seen.push(bytes@[0]) =~= s.take(k + 1));
                assert(s =~= s.take(k + 1) + s.skip(k + 1));
                if decoded(s.take(k + 1)) is Some {
                    crate::uvarint::law_decode_prefix(s.take(k + 1), s.skip(k + 1));
                }
            }
        }
        match block.supply(bytes.as_slice()) {
            BlockStep::More => {},
            BlockStep::Done => {
                return Ok(bytes);
            },
            BlockStep::Failed(e) => {
                return Err(e);
            },
        }
    }
}

/// Incremental reader that produces raw nodes from a CAR stream.
pub struct NodeReader<R> {
    /// Underlying stream.
    pub reader: R,
    /// The header, once it has been read.
    pub header: Vec<u8>,
    /// Whether the header has been read.
    pub header_read: bool,
    /// Number of items that have been yielded so far.
    pub item_index: u64,
    /// The longest section that is accepted.
    pub max_section_size: usize,
    /// Whether the next seek already holds the seek-spacing permit.
    pub seek_permit_primed: bool,
}

/// The header as it stands at the front of a stream.
pub open spec fn header_block(c: CursorView) -> (Result<Seq<u8>, NodeError>, CursorView) {
    block_read(MAX_HEADER_LEN, NodeError::HeaderTooLong, c)
}

/// The next section as it stands in a stream.
pub open spec fn section_read(max_section_size: usize, c: CursorView) -> (
    Result<Seq<u8>, NodeError>,
    CursorView,
) {
    block_read(max_section_size, NodeError::SectionTooLong, c)
}

/// The node that a section of its own holds.
pub open spec fn item_node(item: Seq<u8>) -> Result<RawNodeView, NodeError> {
    section_node(CursorView { data: item, position: 0 }).0
}

/// What an outcome adds to the number of items.
pub open spec fn counted(result: Result<RawNodeView, NodeError>) -> nat {
    if result is Ok {
        1
    } else {
        0
    }
}

impl<R> NodeReader<R> {
    /// The header, where it has been read.
    pub open spec fn cached_header(self) -> Option<Seq<u8>> {
        if self.header_read {
            Some(self.header@)
        } else {
            None
        }
    }

    /// Wraps a stream that is positioned at the header of an archive whose sections have at most
    /// `max_section_size` bytes.
    pub fn new(reader: R, max_section_size: usize) -> (r: NodeReader<R>)
        ensures
            r.reader == reader,
            r.header@.len() == 0,
            !r.header_read,
            r.item_index == 0,
            r.max_section_size == max_section_size,
            !r.seek_permit_primed,
    {
        NodeReader {
            reader,
            header: Vec::new(),
            header_read: false,
            item_index: 0,
            max_section_size,
            seek_permit_primed: false,
        }
    }

    /// Whether the header still has to be read.
    pub fn needs_header(&self) -> (r: bool)
        ensures
            r == !self.header_read,
    {
        !self.header_read
    }

    /// Starts on the header.
    pub fn start_header(&self) -> (r: BlockRead)
        ensures
            r@ == BlockView::Length(Seq::empty()),
            r.spec_limit() == MAX_HEADER_LEN,
            r.spec_too_long() == NodeError::HeaderTooLong,
    {
        BlockRead::new(MAX_HEADER_LEN, NodeError::HeaderTooLong)
    }

    /// Keeps the header, and returns a copy.
    pub fn finish_header(&mut self, header: Vec<u8>) -> (r: Vec<u8>)
        ensures
            r@ == header@,
            *final(self) == (NodeReader { header, header_read: true, ..*old(self) }),
    {
        let copy: Vec<u8> = vstd::slice::slice_to_vec(header.as_slice());
        self.header = header;
        self.header_read = true;
        copy
    }

    /// Starts on the section of the next item.
    pub fn start_item(&self) -> (r: BlockRead)
        ensures
            r@ == BlockView::Length(Seq::empty()),
            r.spec_limit() == self.max_section_size,
            r.spec_too_long() == NodeError::SectionTooLong,
    {
        BlockRead::new(self.max_section_size, NodeError::SectionTooLong)
    }

    /// Turns the bytes of a section into its node, and counts it.
    pub fn finish_item(&mut self, item: Vec<u8>) -> (r: Result<RawNode, NodeError>)
        requires
            old(self).item_index < u64::MAX,
        ensures
            node_result_view(r) == item_node(item@),
            *final(self) == (NodeReader {
                item_index: (old(self).item_index + counted(item_node(item@))) as u64,
                ..*old(self)
            }),
    {
        let mut cursor: Cursor = Cursor::new(item);
        let node: Result<RawNode, NodeError> = RawNode::from_cursor(&mut cursor);
        if node.is_ok() {
            self.item_index = self.item_index + 1;
        }
        node
    }

    /// Returns the number of items that have been yielded so far.
    pub fn get_item_index(&self) -> (r: u64)
        ensures
            r == self.item_index,
    {
        self.item_index
    }

    /// Records that the seek-spacing permit for the next seek has been acquired.
    pub fn prime_seek_permit(&mut self)
        ensures
            *final(self) == (NodeReader { seek_permit_primed: true, ..*old(self) }),
    {
        self.seek_permit_primed = true;
    }

    /// Uses up the permit: whether a seek may go ahead without waiting for one.
    pub fn take_seek_permit(&mut self) -> (r: bool)
        ensures
            r == old(self).seek_permit_primed,
            *final(self) == (NodeReader { seek_permit_primed: false, ..*old(self) }),
    {
        let primed: bool = self.seek_permit_primed;
        self.seek_permit_primed = false;
        primed
    }
}

/// What `next` gives, and what it leaves behind.
#[verifier::ext_equal]
pub struct NextView {
    pub result: Result<RawNodeView, NodeError>,
    /// The section bytes that were read, 0 where no section could be read whole.
    pub bytes_read: nat,
    pub header: Option<Seq<u8>>,
    pub item_index: nat,
    pub stream: CursorView,
}

/// Reading the next node: the header first where it is still missing, then one section.
pub open spec fn next_read(
    header: Option<Seq<u8>>,
    item_index: nat,
    max_section_size: usize,
    c: CursorView,
) -> NextView {
    let (head, c1) = match header {
        None => header_block(c),
        Some(header) => (Ok(header), c),
    };
    match head {
        Err(e) => NextView { result: Err(e), bytes_read: 0, header, item_index, stream: c1 },
        Ok(head) => {
            let header = Some(head);
            let (section, stream) = section_read(max_section_size, c1);
            match section {
                Err(e) => NextView { result: Err(e), bytes_read: 0, header, item_index, stream },
                Ok(item) => NextView {
                    result: item_node(item),
                    bytes_read: item.len(),
                    header,
                    item_index: item_index + counted(item_node(item)),
                    stream,
                },
            }
        },
    }
}

/// A node, or why there is none, with the number of section bytes that were read for it.
pub struct NextNode {
    pub bytes_read: u64,
    pub result: Result<RawNode, NodeError>,
}

impl NodeReader<Cursor> {
    /// Returns the header, reading it from the stream on first use.
    pub fn read_raw_header(&mut self) -> (r: Result<Vec<u8>, NodeError>)
        ensures
            old(self).header_read ==> *final(self) == *old(self) && r is Ok && r->Ok_0@ == old(
                self,
            ).header@,
            !old(self).header_read ==> final(self).header_read == (r is Ok) && final(self).reader@
                == header_block(old(self).reader@).1 && match r {
                Ok(header) => header_block(old(self).reader@).0 == Ok::<Seq<u8>, NodeError>(header@)
                    && final(self).header@ == header@,
                Err(e) => header_block(old(self).reader@).0 == Err::<Seq<u8>, NodeError>(e)
                    && final(self).header@ == old(self).header@,
            },
            final(self).item_index == old(self).item_index,
            final(self).max_section_size == old(self).max_section_size,
            final(self).seek_permit_primed == old(self).seek_permit_primed,
    {
        if !self.needs_header() {
            return Ok(vstd::slice::slice_to_vec(self.header.as_slice()));
        }
        let block: BlockRead = self.start_header();
        match read_block(&mut self.reader, block) {
            Ok(header) => Ok(self.finish_header(header)),
            Err(e) => Err(e),
        }
    }

    /// Reads the next raw node from the stream.
    pub fn next(&mut self) -> (r: NextNode)
        requires
            old(self).item_index < u64::MAX,
        ensures
            ({
                let expected = next_read(
                    old(self).cached_header(),
                    old(self).item_index as nat,
                    old(self).max_section_size,
                    old(self).reader@,
                );
                &&& node_result_view(r.result) == expected.result
                &&& r.bytes_read == expected.bytes_read
                &&& final(self).cached_header() == expected.header
                &&& final(self).item_index == expected.item_index
                &&& final(self).reader@ == expected.stream
            }),
            !final(self).header_read ==> final(self).header@ == old(self).header@,
            final(self).max_section_size == old(self).max_section_size,
            final(self).seek_permit_primed == old(self).seek_permit_primed,
    {
        if self.needs_header() {
            if let Err(e) = self.read_raw_header() {
                return NextNode { bytes_read: 0, result: Err(e) };
            }
        }
        let block: BlockRead = self.start_item();
        match read_block(&mut self.reader, block) {
            Err(e) => NextNode { bytes_read: 0, result: Err(e) },
            Ok(item) => {
                let bytes_read: u64 = item.len() as u64;
                NextNode { bytes_read, result: self.finish_item(item) }
            },
        }
    }
}

/// A block with its length in front.
pub open spec fn block_bytes(b: Seq<u8>) -> Seq<u8> {
    encoded(b.len()) + b
}

/// The blocks of `items`, one after the other.
pub open spec fn blocks_bytes(items: Seq<Seq<u8>>) -> Seq<u8>
    decreases items.len(),
{
    if items.len() == 0 {
        Seq::empty()
    } else {
        block_bytes(items[0]) + blocks_bytes(items.skip(1))
    }
}

/// The outcomes of `n` calls of `next`, one after the other.
pub open spec fn nodes_read(
    n: nat,
    header: Option<Seq<u8>>,
    item_index: nat,
    max_section_size: usize,
    c: CursorView,
) -> Seq<Result<RawNodeView, NodeError>>
    decreases n,
{
    if n == 0 {
        Seq::empty()
    } else {
        let first = next_read(header, item_index, max_section_size, c);
        seq![first.result] + nodes_read(
            (n - 1) as nat,
            first.header,
            first.item_index,
            max_section_size,
            first.stream,
        )
    }
}

/// A block within the limit is read back as it was written, and what follows it remains.
pub proof fn law_block_roundtrip(limit: usize, too_long: NodeError, c: CursorView, b: Seq<u8>, rest: Seq<u8>)
    requires
        b.len() <= limit,
        c.remaining() == block_bytes(b) + rest,
    ensures
        block_read(limit, too_long, c).0 == Ok::<Seq<u8>, NodeError>(b),
        block_read(limit, too_long, c).1 == c.advanced(block_bytes(b).len()),
        block_read(limit, too_long, c).1.remaining() == rest,
{
    let n = encoded(b.len()).len();
    assert(c.remaining() =~= encoded(b.len()) + (b + rest));
    law_decode_encode(b.len() as u64, b + rest);
    let c1 = c.advanced(n);
    lemma_advanced(c, n);
    assert(c.remaining().skip(n as int) =~= b + rest);
    assert((b + rest).take(b.len() as int) =~= b);
    lemma_advanced(c1, b.len());
    assert((b + rest).skip(b.len() as int) =~= rest);
}

/// The nodes that the sections `items` hold.
pub open spec fn item_nodes(items: Seq<Seq<u8>>) -> Seq<Result<RawNodeView, NodeError>> {
    Seq::new(items.len(), |i: int| item_node(items[i]))
}

/// With the header there, one call takes one section off the front of the stream.
proof fn lemma_next_section(
    header: Option<Seq<u8>>,
    item_index: nat,
    max_section_size: usize,
    c: CursorView,
    item: Seq<u8>,
    rest: Seq<u8>,
)
    requires
        header is Some,
        item.len() <= max_section_size,
        c.remaining() == block_bytes(item) + rest,
    ensures
        ({
            let next = next_read(header, item_index, max_section_size, c);
            &&& next.result == item_node(item)
            &&& next.header == header
            &&& next.item_index == item_index + counted(item_node(item))
            &&& next.stream.remaining() == rest
        }),
{
    law_block_roundtrip(max_section_size, NodeError::SectionTooLong, c, item, rest);
}

/// Once the header is there, the sections of a stream come out as one node each, in order.
proof fn lemma_sections_in_order(
    header: Option<Seq<u8>>,
    item_index: nat,
    max_section_size: usize,
    c: CursorView,
    items: Seq<Seq<u8>>,
    rest: Seq<u8>,
)
    requires
        header is Some,
        forall|i: int| 0 <= i < items.len() ==> (#[trigger] items[i]).len() <= max_section_size,
        c.remaining() == blocks_bytes(items) + rest,
    ensures
        nodes_read(items.len(), header, item_index, max_section_size, c) == item_nodes(items),
    decreases items.len(),
{
    if items.len() > 0 {
        let others = items.skip(1);
        let tail = blocks_bytes(others) + rest;
        assert(c.remaining() =~= block_bytes(items[0]) + tail);
        lemma_next_section(header, item_index, max_section_size, c, items[0], tail);
        let stream = next_read(header, item_index, max_section_size, c).stream;
        assert forall|i: int| 0 <= i < others.len() implies (#[trigger] others[i]).len()
            <= max_section_size by {
            assert(others[i] == items[i + 1]);
        }
        lemma_sections_in_order(
            header,
            item_index + counted(item_node(items[0])),
            max_section_size,
            stream,
            others,
            rest,
        );
        lemma_item_nodes_step(items);
    } else {
        assert(item_nodes(items) =~= Seq::empty());
    }
}

proof fn lemma_item_nodes_step(items: Seq<Seq<u8>>)
    requires
        items.len() > 0,
    ensures
        item_nodes(items) == seq![item_node(items[0])] + item_nodes(items.skip(1)),
{
    assert(item_nodes(items) =~= seq![item_node(items[0])] + item_nodes(items.skip(1)));
}

/// An archive is read back in order: a fresh reader at its front yields the node of each section.
pub proof fn law_archive_in_order(
    max_section_size: usize,
    c: CursorView,
    header: Seq<u8>,
    items: Seq<Seq<u8>>,
    rest: Seq<u8>,
)
    requires
        header.len() <= MAX_HEADER_LEN,
        forall|i: int| 0 <= i < items.len() ==> (#[trigger] items[i]).len() <= max_section_size,
        c.remaining() == block_bytes(header) + blocks_bytes(items) + rest,
    ensures
        nodes_read(items.len(), None, 0, max_section_size, c) == item_nodes(items),
{
    if items.len() > 0 {
        let tail = blocks_bytes(items) + rest;
        assert(c.remaining() =~= block_bytes(header) + tail);
        law_block_roundtrip(MAX_HEADER_LEN, NodeError::HeaderTooLong, c, header, tail);
        let c1 = header_block(c).1;
        lemma_sections_in_order(Some(header), 0, max_section_size, c1, items, rest);
        assert(next_read(None, 0, max_section_size, c) == next_read(
            Some(header),
            0,
            max_section_size,
            c1,
        ));
    } else {
        assert(item_nodes(items) =~= Seq::empty());
    }
}

/// The number of items that a reader counts after `n` calls of `next`.
pub open spec fn index_after(
    n: nat,
    header: Option<Seq<u8>>,
    item_index: nat,
    max_section_size: usize,
    c: CursorView,
) -> nat
    decreases n,
{
    if n == 0 {
        item_index
    } else {
        let first = next_read(header, item_index, max_section_size, c);
        index_after((n - 1) as nat, first.header, first.item_index, max_section_size, first.stream)
    }
}

/// How many of the outcomes are nodes.
pub open spec fn yielded(results: Seq<Result<RawNodeView, NodeError>>) -> nat
    decreases results.len(),
{
    if results.len() == 0 {
        0
    } else {
        counted(results[0]) + yielded(results.skip(1))
    }
}

/// The number of items is the number of nodes that were yielded, whatever failed in between.
pub proof fn law_index_counts_nodes(
    n: nat,
    header: Option<Seq<u8>>,
    item_index: nat,
    max_section_size: usize,
    c: CursorView,
)
    ensures
        index_after(n, header, item_index, max_section_size, c) == item_index + yielded(
            nodes_read(n, header, item_index, max_section_size, c),
        ),
    decreases n,
{
    if n > 0 {
        let first = next_read(header, item_index, max_section_size, c);
        let results = nodes_read(n, header, item_index, max_section_size, c);
        let others = nodes_read(
            (n - 1) as nat,
            first.header,
            first.item_index,
            max_section_size,
            first.stream,
        );
        assert(results.skip(1) =~= others);
        law_index_counts_nodes(
            (n - 1) as nat,
            first.header,
            first.item_index,
            max_section_size,
            first.stream,
        );
    }
}

/// A reader at the end of its stream reports the end, and stays there.
pub proof fn law_end_of_stream(header: Option<Seq<u8>>, item_index: nat, max_section_size: usize, c: CursorView)
    requires
        c.remaining().len() == 0,
    ensures
        next_read(header, item_index, max_section_size, c).result == Err::<RawNodeView, NodeError>(
            NodeError::Read(ReadError::UnexpectedEof),
        ),
        next_read(header, item_index, max_section_size, c).stream == c,
{
    assert(decoded(c.remaining()) is None);
}

} // verus!
