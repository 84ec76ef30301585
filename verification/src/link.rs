//! The pumps that carry messages between the two ends, and how a helper dials.
use crate::access::Key;
use crate::io::{is_public_key, public_key_of};
use crate::protocol::HandshakePayload;
use vstd::prelude::*;

verus! {

/// What has come in from the other end.
#[derive(Debug, Clone, Copy, PartialEq, Eq, Structural)]
pub enum Incoming {
    /// A frame that is a message.
    Message,
    /// A frame that is no message.
    Garbled,
    /// The connection has broken.
    Broken,
    /// The other end has closed the connection.
    Ended,
}

/// What is done with what has come in.
#[derive(Debug, Clone, Copy, PartialEq, Eq, Structural)]
pub enum ReadStep {
    /// Hands the message on.
    Deliver,
    /// Waits for the next frame.
    Skip,
    /// Reads no more.
    Stop,
}

/// What a helper does with what has come in: what it does not understand, it skips.
pub fn helper_reads(incoming: Incoming) -> (r: ReadStep)
    ensures
        r == (match incoming {
            Incoming::Message => ReadStep::Deliver,
            Incoming::Garbled => ReadStep::Skip,
            Incoming::Broken | Incoming::Ended => ReadStep::Stop,
        }),
{
    match incoming {
        Incoming::Message => ReadStep::Deliver,
        Incoming::Garbled => ReadStep::Skip,
        Incoming::Broken | Incoming::Ended => ReadStep::Stop,
    }
}

/// What a victim does with what has come in: it drops a helper that it does not understand.
pub fn victim_reads(incoming: Incoming) -> (r: ReadStep)
    ensures
        r == (match incoming {
            Incoming::Message => ReadStep::Deliver,
            _ => ReadStep::Stop,
        }),
{
    match incoming {
        Incoming::Message => ReadStep::Deliver,
        _ => ReadStep::Stop,
    }
}

/// What there is to send to a helper.
#[derive(Debug, Clone, Copy, PartialEq, Eq, Structural)]
pub enum Outgoing {
    /// A message.
    Message,
    /// So many messages were lost, since the helper was too slow.
    Lagged(u64),
    /// The session is over.
    Closed,
}

/// What is done with what there is to send.
#[derive(Debug, Clone, Copy, PartialEq, Eq, Structural)]
pub enum WriteStep {
    /// Sends the message.
    Send,
    /// Drops the helper, which has lost so many messages.
    Fail(u64),
    /// Sends what is left, and closes the connection.
    Finish,
}

/// What a victim does with what there is to send: a helper that has lost a message would show another
/// screen from then on, so it is dropped.
pub fn victim_writes(outgoing: Outgoing) -> (r: WriteStep)
    ensures
        r == (match outgoing {
            Outgoing::Message => WriteStep::Send,
            Outgoing::Lagged(n) => WriteStep::Fail(n),
            Outgoing::Closed => WriteStep::Finish,
        }),
{
    match outgoing {
        Outgoing::Message => WriteStep::Send,
        Outgoing::Lagged(n) => WriteStep::Fail(n),
        Outgoing::Closed => WriteStep::Finish,
    }
}

/// Whether a helper goes on sending: it gives up when a message could neither be sent nor flushed. A
/// message that cannot be encoded is passed over.
pub fn helper_keeps_writing(encoded: bool, sent: bool, flushed: bool) -> (r: bool)
    ensures
        r == !(encoded && !sent && !flushed),
{
    !encoded || sent || flushed
}

/// Where a victim can be dialled.
pub struct DialTarget {
    pub key: Key,
    pub relay_url: Option<String>,
    pub direct_addresses: Vec<String>,
}

/// Where the victim can be dialled that has sent the handshake. What is no key cannot be dialled.
pub fn dial_target(payload: HandshakePayload) -> (r: Option<DialTarget>)
    ensures
        r is Some <==> is_public_key(payload.public_key@),
        r matches Some(target) ==> target.key@ == payload.public_key@ && target.relay_url
            == payload.relay_url && target.direct_addresses == payload.direct_addresses,
{
    match public_key_of(&payload.public_key) {
        Some(key) => Some(
            DialTarget {
                key,
                relay_url: payload.relay_url,
                direct_addresses: payload.direct_addresses,
            },
        ),
        None => None,
    }
}

} // verus!
