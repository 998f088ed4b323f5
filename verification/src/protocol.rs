//! The packet format shared by server and clients.
//!
//! Every packet is `[MAGIC_BYTE, message type byte]` followed by the
//! message's data.

use vstd::prelude::*;

verus! {

/// A player as the server numbers it.
pub type PlayerId = u8;

/// The byte that opens every packet.
pub const MAGIC_BYTE: u8 = 42;

/// How many players a game holds.
pub const MAX_PLAYERS: usize = 2;

/// The logical streams of the transport.
#[derive(Clone, Copy, Debug, PartialEq, Eq, Structural)]
pub enum StreamId {
    Heartbeat,
    Event,
}

impl StreamId {
    /// The stream's number on the wire.
    pub open spec fn spec_byte(self) -> u8 {
        match self {
            StreamId::Heartbeat => 0,
            StreamId::Event => 1,
        }
    }

    pub fn to_byte(self) -> (b: u8)
        ensures
            b == self.spec_byte(),
    {
        match self {
            StreamId::Heartbeat => 0,
            StreamId::Event => 1,
        }
    }
}

/// The kinds of message; the comment gives the data that follows the
/// two header bytes.
#[derive(Clone, Copy, Debug, PartialEq, Eq, Structural)]
pub enum MessageType {
    /// `[]`
    Heartbeat,
    /// `[]`
    JoinEvent,
    /// `[assigned_id]`
    AssignIdEvent,
    /// `[id]`
    ReadyEvent,
    /// `[word]`
    StartEvent,
    /// `[id, guess]`
    GuessEvent,
    /// `[id, num_guesses]`
    FinishEvent,
    /// `[id_winner]`
    EndEvent,
}

impl MessageType {
    /// The message type's byte on the wire.
    pub open spec fn spec_byte(self) -> u8 {
        match self {
            MessageType::Heartbeat => 0,
            MessageType::JoinEvent => 1,
            MessageType::AssignIdEvent => 2,
            MessageType::ReadyEvent => 3,
            MessageType::StartEvent => 4,
            MessageType::GuessEvent => 5,
            MessageType::FinishEvent => 6,
            MessageType::EndEvent => 7,
        }
    }

    /// The message type a byte names, if any.
    pub open spec fn spec_from_byte(b: u8) -> Option<MessageType> {
        if b == 0 {
            Some(MessageType::Heartbeat)
        } else if b == 1 {
            Some(MessageType::JoinEvent)
        } else if b == 2 {
            Some(MessageType::AssignIdEvent)
        } else if b == 3 {
            Some(MessageType::ReadyEvent)
        } else if b == 4 {
            Some(MessageType::StartEvent)
        } else if b == 5 {
            Some(MessageType::GuessEvent)
        } else if b == 6 {
            Some(MessageType::FinishEvent)
        } else if b == 7 {
            Some(MessageType::EndEvent)
        } else {
            None
        }
    }

    pub fn to_byte(self) -> (b: u8)
        ensures
            b == self.spec_byte(),
    {
        match self {
            MessageType::Heartbeat => 0,
            MessageType::JoinEvent => 1,
            MessageType::AssignIdEvent => 2,
            MessageType::ReadyEvent => 3,
            MessageType::StartEvent => 4,
            MessageType::GuessEvent => 5,
            MessageType::FinishEvent => 6,
            MessageType::EndEvent => 7,
        }
    }

    pub fn from_byte(b: u8) -> (t: Option<MessageType>)
        ensures
            t == MessageType::spec_from_byte(b),
    {
        if b == 0 {
            Some(MessageType::Heartbeat)
        } else if b == 1 {
            Some(MessageType::JoinEvent)
        } else if b == 2 {
            Some(MessageType::AssignIdEvent)
        } else if b == 3 {
            Some(MessageType::ReadyEvent)
        } else if b == 4 {
            Some(MessageType::StartEvent)
        } else if b == 5 {
            Some(MessageType::GuessEvent)
        } else if b == 6 {
            Some(MessageType::FinishEvent)
        } else if b == 7 {
            Some(MessageType::EndEvent)
        } else {
            None
        }
    }
}

/// A message type's byte names that message type again, and no other.
pub proof fn lemma_message_byte_roundtrip(t: MessageType, u: MessageType)
    ensures
        MessageType::spec_from_byte(t.spec_byte()) == Some(t),
        t.spec_byte() == u.spec_byte() ==> t == u,
{
}

/// The bytes of a packet of type `t` carrying `data`.
pub open spec fn framed(t: MessageType, data: Seq<u8>) -> Seq<u8> {
    seq![MAGIC_BYTE, t.spec_byte()] + data
}

/// Prepends the packet header to `data`.
pub fn frame_packet(message_type: MessageType, data: &[u8]) -> (packet: Vec<u8>)
    ensures
        packet@ == framed(message_type, data@),
{
    let mut packet: Vec<u8> = Vec::new();
    packet.push(MAGIC_BYTE);
    packet.push(message_type.to_byte());
    let n = data.len();
    for i in 0..n
        invariant
            n == data@.len(),
            packet@ == seq![MAGIC_BYTE, message_type.spec_byte()] + data@.take(i as int),
    {
        packet.push(data[i]);
        assert(data@.take(i + 1) == data@.take(i as int).push(data@[i as int]));
    }
    assert(data@.take(n as int) == data@);
    packet
}

/// The bytes of `payload` from position `start` on.
pub(crate) fn bytes_from(payload: &Vec<u8>, start: usize) -> (tail: Vec<u8>)
    requires
        start <= payload@.len(),
    ensures
        tail@ == payload@.skip(start as int),
{
    let mut tail: Vec<u8> = Vec::new();
    let n = payload.len();
    let mut i = start;
    while i < n
        invariant
            start <= i <= n,
            n == payload@.len(),
            tail@ == payload@.subrange(start as int, i as int),
        decreases n - i,
    {
        tail.push(payload[i]);
        assert(payload@.subrange(start as int, i + 1) =~= payload@.subrange(start as int, i as int).push(
            payload@[i as int],
        ));
        i = i + 1;
    }
    assert(payload@.subrange(start as int, n as int) =~= payload@.skip(start as int));
    tail
}

/// The header of a received packet: `None` where it does not open with the
/// magic byte, else the type byte and the data after it.
pub open spec fn parsed(packet: Seq<u8>) -> Option<(u8, Seq<u8>)>
    recommends
        packet.len() >= 2 || (packet.len() >= 1 && packet[0] != MAGIC_BYTE),
{
    if packet[0] != MAGIC_BYTE {
        None
    } else {
        Some((packet[1], packet.skip(2)))
    }
}

/// A framed packet parses back to its type and its data.
pub proof fn lemma_frame_parse_roundtrip(t: MessageType, data: Seq<u8>)
    ensures
        parsed(framed(t, data)) == Some((t.spec_byte(), data)),
        MessageType::spec_from_byte(parsed(framed(t, data)).unwrap().0) == Some(t),
{
    assert(framed(t, data).skip(2) =~= data);
}

/// The wire bytes of the message types and streams.
pub proof fn lemma_wire_bytes()
    ensures
        MessageType::Heartbeat.spec_byte() == 0,
        MessageType::JoinEvent.spec_byte() == 1,
        MessageType::AssignIdEvent.spec_byte() == 2,
        MessageType::ReadyEvent.spec_byte() == 3,
        MessageType::StartEvent.spec_byte() == 4,
        MessageType::GuessEvent.spec_byte() == 5,
        MessageType::FinishEvent.spec_byte() == 6,
        MessageType::EndEvent.spec_byte() == 7,
        forall|b: u8| b >= 8 ==> MessageType::spec_from_byte(b) is None,
        StreamId::Heartbeat.spec_byte() == 0,
        StreamId::Event.spec_byte() == 1,
{
}

/// A framed packet is the magic byte 42, the type's byte, then the data
/// byte for byte.
pub proof fn lemma_framed_bytes(t: MessageType, data: Seq<u8>)
    ensures
        framed(t, data).len() == data.len() + 2,
        framed(t, data)[0] == 42,
        framed(t, data)[1] == t.spec_byte(),
        forall|i: int| 0 <= i < data.len() ==> #[trigger] framed(t, data)[i + 2] == data[i],
{
}

} // verus!
