//! The registry of message kinds and their one-byte wire tags.
use vstd::prelude::*;

verus! {

/// What an envelope carries; its first byte names it.
#[derive(Debug, Clone, Copy, PartialEq, Eq, Structural)]
pub enum MessageKind {
    Handshake,
    GetBlockHeaders,
    BlockHeaders,
    GetBlockBodies,
    BlockBodies,
}

impl MessageKind {
    /// The wire tag of this kind.
    pub open spec fn tag(self) -> u8 {
        match self {
            MessageKind::Handshake => 0,
            MessageKind::GetBlockHeaders => 1,
            MessageKind::BlockHeaders => 2,
            MessageKind::GetBlockBodies => 3,
            MessageKind::BlockBodies => 4,
        }
    }

    /// Whether messages of this kind travel as requests.
    pub open spec fn is_request(self) -> bool {
        self is Handshake || self is GetBlockHeaders || self is GetBlockBodies
    }

    /// Whether messages of this kind travel as responses.
    pub open spec fn is_response(self) -> bool {
        self is Handshake || self is BlockHeaders || self is BlockBodies
    }

    pub fn as_byte(&self) -> (r: u8)
        ensures
            r == self.tag(),
    {
        match self {
            MessageKind::Handshake => 0,
            MessageKind::GetBlockHeaders => 1,
            MessageKind::BlockHeaders => 2,
            MessageKind::GetBlockBodies => 3,
            MessageKind::BlockBodies => 4,
        }
    }

    pub fn from_byte(b: u8) -> (r: Option<MessageKind>)
        ensures
            r == kind_of(b),
    {
        match b {
            0 => Some(MessageKind::Handshake),
            1 => Some(MessageKind::GetBlockHeaders),
            2 => Some(MessageKind::BlockHeaders),
            3 => Some(MessageKind::GetBlockBodies),
            4 => Some(MessageKind::BlockBodies),
            _ => None,
        }
    }
}

/// The kind a tag byte names, if any.
pub open spec fn kind_of(b: u8) -> Option<MessageKind> {
    if b == 0 {
        Some(MessageKind::Handshake)
    } else if b == 1 {
        Some(MessageKind::GetBlockHeaders)
    } else if b == 2 {
        Some(MessageKind::BlockHeaders)
    } else if b == 3 {
        Some(MessageKind::GetBlockBodies)
    } else if b == 4 {
        Some(MessageKind::BlockBodies)
    } else {
        None
    }
}

/// Exactly the five tags `0..=4` name a kind, each kind's own tag names it,
/// and no two kinds share a tag.
pub proof fn lemma_tag_registry(b: u8, k: MessageKind, j: MessageKind)
    ensures
        kind_of(b) is Some <==> b <= 4,
        kind_of(b) matches Some(m) ==> m.tag() == b,
        kind_of(k.tag()) == Some(k),
        k.tag() == j.tag() ==> k == j,
{
}

} // verus!
