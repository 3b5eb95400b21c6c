//! Parsed nodes, gathered until a block completes them.

use vstd::prelude::*;

use crate::cid::Cid;
use crate::cursor::ReadError;
use crate::node_reader::NodeReader;
use crate::raw_node::{NodeError, RawNode};

verus! {

/// A parsed node paired with its identifier.
#[derive(Clone, Debug, PartialEq, Eq)]
pub struct NodeWithCid<N> {
    pub cid: Cid,
    pub node: N,
}

impl RawNode {
    /// The node that the payload holds, given what its decoder made of it.
    pub fn parse<N, E>(decoded: Result<N, E>) -> (r: Result<N, NodeError>)
        ensures
            r == match decoded {
                Ok(node) => Ok::<N, NodeError>(node),
                Err(_) => Err(NodeError::UnknownType),
            },
    {
        match decoded {
            Ok(node) => Ok(node),
            Err(_) => Err(NodeError::UnknownType),
        }
    }
}

/// What another node does to those gathered so far.
#[derive(Copy, Clone, Debug, PartialEq, Eq)]
pub enum GatherStep {
    /// Read another node.
    More,
    /// The nodes are complete.
    Done,
    /// They cannot be completed.
    Failed(NodeError),
}

/// What there is instead of a node at the end of a stream.
pub open spec fn end_of_stream() -> NodeError {
    NodeError::Read(ReadError::UnexpectedEof)
}

/// The nodes after `next` has come, and what follows.
pub open spec fn gathered<N>(
    nodes: Seq<NodeWithCid<N>>,
    next: Result<NodeWithCid<N>, NodeError>,
    is_block: bool,
) -> (Seq<NodeWithCid<N>>, GatherStep) {
    match next {
        Ok(node) => (nodes.push(node), if is_block {
            GatherStep::Done
        } else {
            GatherStep::More
        }),
        Err(e) => (nodes, if e == end_of_stream() {
            GatherStep::Done
        } else {
            GatherStep::Failed(e)
        }),
    }
}

impl<R> NodeReader<R> {
    /// Pairs the identifier of a node with what a decoder made of its payload.
    pub fn next_parsed<N, E>(raw: RawNode, decoded: Result<N, E>) -> (r: Result<
        NodeWithCid<N>,
        NodeError,
    >)
        ensures
            r == match decoded {
                Ok(node) => Ok::<NodeWithCid<N>, NodeError>(NodeWithCid { cid: raw.cid, node }),
                Err(_) => Err(NodeError::UnknownType),
            },
    {
        match RawNode::parse(decoded) {
            Ok(node) => Ok(NodeWithCid { cid: raw.cid, node }),
            Err(e) => Err(e),
        }
    }

    /// Adds what `next_parsed` gave to the nodes read so far; a block completes them, and so does
    /// the end of the stream.
    pub fn read_until_block<N>(
        nodes: &mut Vec<NodeWithCid<N>>,
        next: Result<NodeWithCid<N>, NodeError>,
        is_block: bool,
    ) -> (r: GatherStep)
        ensures
            (final(nodes)@, r) == gathered(old(nodes)@, next, is_block),
    {
        match next {
            Ok(node) => {
                nodes.push(node);
                if is_block {
                    GatherStep::Done
                } else {
                    GatherStep::More
                }
            },
            Err(e) => {
                if e.is_eof() {
                    GatherStep::Done
                } else {
                    GatherStep::Failed(e)
                }
            },
        }
    }
}

/// What gathering comes to when `outcomes` arrive one after the other: the nodes, or the error
/// that ended it; nothing where more outcomes are needed.
pub open spec fn until_block<N>(
    nodes: Seq<NodeWithCid<N>>,
    outcomes: Seq<Result<NodeWithCid<N>, NodeError>>,
    is_block: spec_fn(N) -> bool,
) -> Option<Result<Seq<NodeWithCid<N>>, NodeError>>
    decreases outcomes.len(),
{
    if outcomes.len() == 0 {
        None
    } else {
        let block = outcomes[0] matches Ok(node) && is_block(node.node);
        let (nodes, step) = gathered(nodes, outcomes[0], block);
        match step {
            GatherStep::Done => Some(Ok(nodes)),
            GatherStep::Failed(e) => Some(Err(e)),
            GatherStep::More => until_block(nodes, outcomes.skip(1), is_block),
        }
    }
}

/// Gathering yields all the nodes up to and including the first block, in order.
pub proof fn law_gathers_up_to_block<N>(
    nodes: Seq<NodeWithCid<N>>,
    arrivals: Seq<NodeWithCid<N>>,
    block: NodeWithCid<N>,
    rest: Seq<Result<NodeWithCid<N>, NodeError>>,
    is_block: spec_fn(N) -> bool,
)
    requires
        is_block(block.node),
        forall|i: int| 0 <= i < arrivals.len() ==> !is_block((#[trigger] arrivals[i]).node),
    ensures
        until_block(
            nodes,
            outcomes(arrivals) + (seq![Ok::<NodeWithCid<N>, NodeError>(block)] + rest),
            is_block,
        ) == Some(Ok::<Seq<NodeWithCid<N>>, NodeError>((nodes + arrivals).push(block))),
{
    let tail = seq![Ok::<NodeWithCid<N>, NodeError>(block)] + rest;
    lemma_passes(nodes, arrivals, tail, is_block);
}

/// At the end of the stream gathering yields the nodes that came before it.
pub proof fn law_gathers_up_to_end<N>(
    nodes: Seq<NodeWithCid<N>>,
    arrivals: Seq<NodeWithCid<N>>,
    rest: Seq<Result<NodeWithCid<N>, NodeError>>,
    is_block: spec_fn(N) -> bool,
)
    requires
        forall|i: int| 0 <= i < arrivals.len() ==> !is_block((#[trigger] arrivals[i]).node),
    ensures
        until_block(
            nodes,
            outcomes(arrivals) + (seq![Err::<NodeWithCid<N>, NodeError>(end_of_stream())] + rest),
            is_block,
        ) == Some(Ok::<Seq<NodeWithCid<N>>, NodeError>(nodes + arrivals)),
{
    let tail = seq![Err::<NodeWithCid<N>, NodeError>(end_of_stream())] + rest;
    lemma_passes(nodes, arrivals, tail, is_block);
}

/// Any other error ends gathering, and is what it comes to.
pub proof fn law_gathering_fails<N>(
    nodes: Seq<NodeWithCid<N>>,
    arrivals: Seq<NodeWithCid<N>>,
    e: NodeError,
    rest: Seq<Result<NodeWithCid<N>, NodeError>>,
    is_block: spec_fn(N) -> bool,
)
    requires
        e != end_of_stream(),
        forall|i: int| 0 <= i < arrivals.len() ==> !is_block((#[trigger] arrivals[i]).node),
    ensures
        until_block(
            nodes,
            outcomes(arrivals) + (seq![Err::<NodeWithCid<N>, NodeError>(e)] + rest),
            is_block,
        ) == Some(Err::<Seq<NodeWithCid<N>>, NodeError>(e)),
{
    let tail = seq![Err::<NodeWithCid<N>, NodeError>(e)] + rest;
    lemma_passes(nodes, arrivals, tail, is_block);
}

/// Each node as an outcome.
pub open spec fn outcomes<N>(nodes: Seq<NodeWithCid<N>>) -> Seq<Result<NodeWithCid<N>, NodeError>> {
    Seq::new(nodes.len(), |i: int| Ok::<NodeWithCid<N>, NodeError>(nodes[i]))
}

/// Nodes that are no blocks are gathered, and gathering goes on.
proof fn lemma_passes<N>(
    nodes: Seq<NodeWithCid<N>>,
    arrivals: Seq<NodeWithCid<N>>,
    tail: Seq<Result<NodeWithCid<N>, NodeError>>,
    is_block: spec_fn(N) -> bool,
)
    requires
        forall|i: int| 0 <= i < arrivals.len() ==> !is_block((#[trigger] arrivals[i]).node),
    ensures
        until_block(nodes, outcomes(arrivals) + tail, is_block) == until_block(
            nodes + arrivals,
            tail,
            is_block,
        ),
    decreases arrivals.len(),
{
    if arrivals.len() == 0 {
        assert(outcomes(arrivals) + tail =~= tail);
        assert(nodes + arrivals =~= nodes);
    } else {
        let others = arrivals.skip(1);
        let all = outcomes(arrivals) + tail;
        assert(all[0] == Ok::<NodeWithCid<N>, NodeError>(arrivals[0]));
        assert(all.skip(1) =~= outcomes(others) + tail);
        assert(nodes.push(arrivals[0]) + others =~= nodes + arrivals);
        assert forall|i: int| 0 <= i < others.len() implies !is_block((#[trigger] others[i]).node) by {
            assert(others[i] == arrivals[i + 1]);
        }
        lemma_passes(nodes.push(arrivals[0]), others, tail, is_block);
    }
}

/// The end of a stream is an early end of its bytes, and no other error.
pub proof fn law_end_of_stream(e: NodeError)
    ensures
        e == end_of_stream() <==> e == NodeError::Read(ReadError::UnexpectedEof),
{
}

/// A node is added behind those gathered so far, whatever it is; a block, and the end of the stream,
/// complete them, and any other error is passed on.
pub proof fn law_gathers_one<N>(nodes: Seq<NodeWithCid<N>>, node: NodeWithCid<N>, e: NodeError, flag: bool)
    ensures
        gathered(nodes, Ok(node), true) == (nodes + seq![node], GatherStep::Done),
        gathered(nodes, Ok(node), false) == (nodes + seq![node], GatherStep::More),
        gathered(nodes, Err(NodeError::Read(ReadError::UnexpectedEof)), flag) == (
            nodes,
            GatherStep::Done,
        ),
        e != NodeError::Read(ReadError::UnexpectedEof) ==> gathered(nodes, Err(e), flag) == (
            nodes,
            GatherStep::Failed(e),
        ),
{
    assert(nodes + seq![node] =~= nodes.push(node));
}

} // verus!
