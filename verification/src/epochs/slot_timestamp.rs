//! The block time of a slot, as an RPC endpoint reports it.

use vstd::prelude::*;

use crate::text::{ascii, decimal, law_decimal_parses, parsed_u64, push_decimal};

verus! {

/// A `getBlock` request for `slot`, as JSON.
pub open spec fn request_text(slot: u64) -> Seq<char> {
    "{\"id\":1,\"jsonrpc\":\"2.0\",\"method\":\"getBlock\",\"params\":["@ + decimal(slot as nat)
        + ",{\"maxSupportedTransactionVersion\":0}]}"@
}

/// Composes the `getBlock` request for a slot.
pub fn slot_request(slot: u64) -> (r: String)
    ensures
        r@ == request_text(slot),
{
    let mut out: String = "{\"id\":1,\"jsonrpc\":\"2.0\",\"method\":\"getBlock\",\"params\":[".to_owned();
    push_decimal(&mut out, slot);
    out.append(",{\"maxSupportedTransactionVersion\":0}]}");
    out
}

/// Why there is no timestamp for a slot.
#[derive(Clone, Debug, PartialEq, Eq)]
pub enum SlotTimestampError {
    /// Network request failed while contacting the RPC endpoint; carries the message.
    Transport(String),
    /// JSON payload could not be decoded; carries the message.
    Decode(String),
    /// RPC returned an error object instead of a result; carries the object as it prints for
    /// debugging.
    Rpc(Option<String>),
    /// The RPC response did not hold a block time.
    NoBlockTime,
}

impl SlotTimestampError {
    /// The message.
    pub open spec fn text_view(self) -> Seq<char> {
        match self {
            SlotTimestampError::Transport(e) => "RPC transport error: "@ + e@,
            SlotTimestampError::Decode(e) => "RPC decode error: "@ + e@,
            SlotTimestampError::Rpc(Some(e)) => "RPC error: Some("@ + e@ + ")"@,
            SlotTimestampError::Rpc(None) => "RPC error: None"@,
            SlotTimestampError::NoBlockTime => "No blockTime found in getBlock result"@,
        }
    }

    /// The error message.
    pub fn text(&self) -> (r: String)
        ensures
            r@ == self.text_view(),
    {
        match self {
            SlotTimestampError::Transport(e) => {
                let mut out: String = "RPC transport error: ".to_owned();
                out.append(e.as_str());
                out
            },
            SlotTimestampError::Decode(e) => {
                let mut out: String = "RPC decode error: ".to_owned();
                out.append(e.as_str());
                out
            },
            SlotTimestampError::Rpc(Some(e)) => {
                let mut out: String = "RPC error: Some(".to_owned();
                out.append(e.as_str());
                out.append(")");
                out
            },
            SlotTimestampError::Rpc(None) => "RPC error: None".to_owned(),
            SlotTimestampError::NoBlockTime => "No blockTime found in getBlock result".to_owned(),
        }
    }
}

/// The part of a `getBlock` result that matters here.
#[derive(Copy, Clone, Debug, PartialEq, Eq)]
pub struct BlockResult {
    pub block_time: Option<u64>,
}

/// A response to `getBlock`.
#[derive(Clone, Debug, PartialEq, Eq)]
pub struct RpcResponse {
    pub result: Option<BlockResult>,
    /// The error object, as it prints for debugging.
    pub error: Option<String>,
}

/// What came of a `getBlock` request.
#[derive(Clone, Debug, PartialEq, Eq)]
pub enum RpcReply {
    /// The endpoint could not be reached, or its answer not be read; carries the message.
    Unreachable(String),
    /// The answer could not be decoded; carries the message.
    Undecodable(String),
    Decoded(RpcResponse),
}

/// The timestamp that an answer gives, or why it gives none.
pub open spec fn replied_timestamp(reply: RpcReply) -> Result<u64, SlotTimestampError> {
    match reply {
        RpcReply::Unreachable(e) => Err(SlotTimestampError::Transport(e)),
        RpcReply::Undecodable(e) => Err(SlotTimestampError::Decode(e)),
        RpcReply::Decoded(RpcResponse { error: Some(e), .. }) => Err(
            SlotTimestampError::Rpc(Some(e)),
        ),
        RpcReply::Decoded(RpcResponse { error: None, result }) => match result {
            Some(BlockResult { block_time: Some(t) }) => Ok(t),
            _ => Err(SlotTimestampError::NoBlockTime),
        },
    }
}

/// The true Unix timestamp of a slot, in seconds, from the answer of a validator.
pub fn get_slot_timestamp(reply: RpcReply) -> (r: Result<u64, SlotTimestampError>)
    ensures
        r == replied_timestamp(reply),
{
    let response: RpcResponse = match reply {
        RpcReply::Unreachable(e) => {
            return Err(SlotTimestampError::Transport(e));
        },
        RpcReply::Undecodable(e) => {
            return Err(SlotTimestampError::Decode(e));
        },
        RpcReply::Decoded(response) => response,
    };
    if response.error.is_some() {
        return Err(SlotTimestampError::Rpc(response.error));
    }
    match response.result {
        Some(result) => match result.block_time {
            Some(t) => Ok(t),
            None => Err(SlotTimestampError::NoBlockTime),
        },
        None => Err(SlotTimestampError::NoBlockTime),
    }
}

/// The request asks for the block of exactly the slot, whichever it is.
pub proof fn law_request_names_slot(slot: u64)
    ensures
        ({
            let head = "{\"id\":1,\"jsonrpc\":\"2.0\",\"method\":\"getBlock\",\"params\":["@;
            let tail = ",{\"maxSupportedTransactionVersion\":0}]}"@;
            let text = request_text(slot);
            &&& text.len() > head.len() + tail.len()
            &&& text.take(head.len() as int) == head
            &&& parsed_u64(ascii(text.subrange(head.len() as int, text.len() - tail.len()))) == Some(
                slot,
            )
            &&& text.skip(text.len() - tail.len()) == tail
        }),
{
    let head = "{\"id\":1,\"jsonrpc\":\"2.0\",\"method\":\"getBlock\",\"params\":["@;
    let tail = ",{\"maxSupportedTransactionVersion\":0}]}"@;
    let text = request_text(slot);
    law_decimal_parses(slot);
    assert(text.take(head.len() as int) =~= head);
    assert(text.subrange(head.len() as int, text.len() - tail.len()) =~= decimal(slot as nat));
    assert(text.skip(text.len() - tail.len()) =~= tail);
}

/// A timestamp is exactly the block time of an answer without an error; an error object counts
/// whatever stands beside it, and messages are passed on as they are.
pub proof fn law_timestamp(reply: RpcReply, time: u64, message: String)
    ensures
        replied_timestamp(reply) == Ok::<u64, SlotTimestampError>(time) <==> (reply matches RpcReply::Decoded(
            response,
        ) && response.error is None && response.result is Some && response.result->0.block_time
            == Some(time)),
        reply matches RpcReply::Decoded(response) ==> (response.error == Some(message)
            ==> replied_timestamp(reply) == Err::<u64, SlotTimestampError>(
            SlotTimestampError::Rpc(Some(message)),
        )),
        reply matches RpcReply::Decoded(response) ==> (response.error is None && (response.result is None
            || response.result->0.block_time is None) ==> replied_timestamp(reply) == Err::<
            u64,
            SlotTimestampError,
        >(SlotTimestampError::NoBlockTime)),
        replied_timestamp(RpcReply::Unreachable(message)) == Err::<u64, SlotTimestampError>(
            SlotTimestampError::Transport(message),
        ),
        replied_timestamp(RpcReply::Undecodable(message)) == Err::<u64, SlotTimestampError>(
            SlotTimestampError::Decode(message),
        ),
{
}

/// Messages keep the whole of what they were given.
pub proof fn law_timestamp_messages(e: String)
    ensures
        SlotTimestampError::Transport(e).text_view().skip("RPC transport error: "@.len() as int) == e@,
        SlotTimestampError::Decode(e).text_view().skip("RPC decode error: "@.len() as int) == e@,
        SlotTimestampError::Rpc(Some(e)).text_view().subrange(
            "RPC error: Some("@.len() as int,
            SlotTimestampError::Rpc(Some(e)).text_view().len() - ")"@.len(),
        ) == e@,
{
    assert(SlotTimestampError::Transport(e).text_view().skip("RPC transport error: "@.len() as int)
        =~= e@);
    assert(SlotTimestampError::Decode(e).text_view().skip("RPC decode error: "@.len() as int) =~= e@);
    let text = SlotTimestampError::Rpc(Some(e)).text_view();
    assert(text.subrange("RPC error: Some("@.len() as int, text.len() - ")"@.len()) =~= e@);
}

} // verus!
