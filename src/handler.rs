//! The request handler and the sync round state machine. Neither touches the
//! transport or the chain store: each returns what the caller is to do, and
//! the caller hands back what the chain store answered.
use crate::kind::{kind_of, MessageKind};
use crate::messages::{
    block_rows, decoded_block_bodies, decoded_block_headers, decoded_get_block_headers,
    decoded_handshake, encode_message, header_rows, Block, BlockBodies, BlockHeader, BlockHeaders,
    GetBlockBodies, GetBlockHeaders, Handshake, lemma_block_bodies_round_trip,
    lemma_block_headers_round_trip, lemma_get_block_bodies_round_trip,
    lemma_get_block_headers_round_trip, lemma_handshake_round_trip,
};
use crate::rlp_format::{
    decoded_rows, decoded_u64_list, join, payload_fits, rlp_u64, row_items, rows_fit, rows_rlp,
    u64_items, u64_list_rlp,
};
use vstd::prelude::*;
use vstd::slice::slice_subrange;

verus! {

/// Most headers asked for in one round.
pub const HEADER_BATCH_LIMIT: u64 = 100;

/// What to do with an inbound request.
#[derive(Debug)]
pub enum RequestAction {
    /// Send nothing.
    Drop,
    /// Send these bytes as the response.
    Reply(Vec<u8>),
    /// Answer with the local handshake, through `handshake_response`.
    AnswerHandshake,
    /// Answer with the blocks of this range, through `get_block_headers_response`.
    AnswerHeaders(GetBlockHeaders),
    /// Answer with the blocks of these indices, through `get_block_bodies_response`.
    AnswerBodies(GetBlockBodies),
}

/// The payload of an envelope: everything after the tag byte.
pub open spec fn payload_of(msg: Seq<u8>) -> Seq<u8> {
    msg.subrange(1, msg.len() as int)
}

/// The kind an envelope's tag names, if it has a tag and the tag names one.
pub open spec fn envelope_kind(msg: Seq<u8>) -> Option<MessageKind> {
    if msg.len() == 0 {
        None
    } else {
        kind_of(msg[0])
    }
}

/// An envelope built by `encode_message` reads back as its kind and payload.
pub proof fn lemma_envelope_round_trip(k: MessageKind, payload: Seq<u8>)
    ensures
        envelope_kind(seq![k.tag()] + payload) == Some(k),
        payload_of(seq![k.tag()] + payload) == payload,
{
    assert(payload_of(seq![k.tag()] + payload) =~= payload);
}

/// The envelope `encode_message` makes of `payload` for kind `k`.
pub open spec fn envelope(k: MessageKind, payload: Seq<u8>) -> Seq<u8> {
    seq![k.tag()] + payload
}

/// For every kind, an encoded value put in its envelope reads back as that
/// kind and decodes to exactly that value (lists within the list header limit).
pub proof fn lemma_every_kind_round_trips(
    h: Handshake,
    g: GetBlockHeaders,
    gb: GetBlockBodies,
    bh: BlockHeaders,
    bb: BlockBodies,
)
    requires
        gb.fits(),
        bh.fits(),
        bb.fits(),
    ensures
        envelope_kind(envelope(MessageKind::Handshake, h.wire())) == Some(MessageKind::Handshake),
        decoded_handshake(payload_of(envelope(MessageKind::Handshake, h.wire()))) == Some(h),
        envelope_kind(envelope(MessageKind::GetBlockHeaders, g.wire())) == Some(
            MessageKind::GetBlockHeaders,
        ),
        decoded_get_block_headers(payload_of(envelope(MessageKind::GetBlockHeaders, g.wire())))
            == Some(g),
        envelope_kind(envelope(MessageKind::GetBlockBodies, gb.wire())) == Some(
            MessageKind::GetBlockBodies,
        ),
        decoded_u64_list(payload_of(envelope(MessageKind::GetBlockBodies, gb.wire()))) == Some(
            gb.block_indexes@,
        ),
        envelope_kind(envelope(MessageKind::BlockHeaders, bh.wire())) == Some(
            MessageKind::BlockHeaders,
        ),
        decoded_block_headers(payload_of(envelope(MessageKind::BlockHeaders, bh.wire()))) == Some(
            bh.block_headers@,
        ),
        envelope_kind(envelope(MessageKind::BlockBodies, bb.wire())) == Some(
            MessageKind::BlockBodies,
        ),
        decoded_block_bodies(payload_of(envelope(MessageKind::BlockBodies, bb.wire()))) == Some(
            block_rows(bb.blocks@),
        ),
{
    lemma_envelope_round_trip(MessageKind::Handshake, h.wire());
    lemma_envelope_round_trip(MessageKind::GetBlockHeaders, g.wire());
    lemma_envelope_round_trip(MessageKind::GetBlockBodies, gb.wire());
    lemma_envelope_round_trip(MessageKind::BlockHeaders, bh.wire());
    lemma_envelope_round_trip(MessageKind::BlockBodies, bb.wire());
    lemma_handshake_round_trip(h);
    lemma_get_block_headers_round_trip(g);
    lemma_get_block_bodies_round_trip(gb);
    lemma_block_headers_round_trip(bh);
    lemma_block_bodies_round_trip(bb);
}

/// Whether `r` is the empty reply sent for a request that could not be decoded.
pub open spec fn is_empty_reply(r: RequestAction) -> bool {
    r matches RequestAction::Reply(e) && e@.len() == 0
}

fn split_envelope(msg: &[u8]) -> (r: Option<(MessageKind, &[u8])>)
    ensures
        envelope_kind(msg@) is None ==> r is None,
        envelope_kind(msg@) matches Some(k) ==> (r matches Some((k2, p)) && k2 == k && p@
            == payload_of(msg@)),
{
    if msg.len() == 0 {
        return None;
    }
    match MessageKind::from_byte(msg[0]) {
        Some(k) => Some((k, slice_subrange(msg, 1, msg.len()))),
        None => None,
    }
}

/// Decides how to answer an inbound request envelope.
pub fn handle_request_message(msg: &[u8]) -> (r: RequestAction)
    ensures
        envelope_kind(msg@) is None ==> r is Drop,
        envelope_kind(msg@) matches Some(k) && !k.is_request() ==> r is Drop,
        envelope_kind(msg@) == Some(MessageKind::Handshake) ==> (decoded_handshake(
            payload_of(msg@),
        ) is Some ==> r is AnswerHandshake),
        envelope_kind(msg@) == Some(MessageKind::Handshake) ==> (decoded_handshake(
            payload_of(msg@),
        ) is None ==> is_empty_reply(r)),
        envelope_kind(msg@) == Some(MessageKind::GetBlockHeaders) ==> (decoded_get_block_headers(
            payload_of(msg@),
        ) matches Some(g) ==> r == RequestAction::AnswerHeaders(g)),
        envelope_kind(msg@) == Some(MessageKind::GetBlockHeaders) ==> (decoded_get_block_headers(
            payload_of(msg@),
        ) is None ==> is_empty_reply(r)),
        envelope_kind(msg@) == Some(MessageKind::GetBlockBodies) ==> (decoded_u64_list(
            payload_of(msg@),
        ) matches Some(v) ==> (r matches RequestAction::AnswerBodies(g) && g.block_indexes@ == v)),
        envelope_kind(msg@) == Some(MessageKind::GetBlockBodies) ==> (decoded_u64_list(
            payload_of(msg@),
        ) is None ==> is_empty_reply(r)),
{
    let (kind, payload) = match split_envelope(msg) {
        Some(parts) => parts,
        None => {
            return RequestAction::Drop;
        },
    };
    match kind {
        MessageKind::Handshake => handle_handshake_request(payload),
        MessageKind::GetBlockHeaders => handle_get_block_headers_request(payload),
        MessageKind::GetBlockBodies => handle_get_block_bodies_request(payload),
        _ => RequestAction::Drop,
    }
}

/// A handshake request is answered with the local handshake.
pub fn handle_handshake_request(payload: &[u8]) -> (r: RequestAction)
    ensures
        decoded_handshake(payload@) is Some ==> r is AnswerHandshake,
        decoded_handshake(payload@) is None ==> is_empty_reply(r),
{
    match Handshake::decode(payload) {
        Ok(_) => RequestAction::AnswerHandshake,
        Err(_) => RequestAction::Reply(Vec::new()),
    }
}

/// A range query is answered with the headers of that range.
pub fn handle_get_block_headers_request(payload: &[u8]) -> (r: RequestAction)
    ensures
        decoded_get_block_headers(payload@) matches Some(g) ==> r == RequestAction::AnswerHeaders(
            g,
        ),
        decoded_get_block_headers(payload@) is None ==> is_empty_reply(r),
{
    match GetBlockHeaders::decode(payload) {
        Ok(g) => RequestAction::AnswerHeaders(g),
        Err(_) => RequestAction::Reply(Vec::new()),
    }
}

/// An index list is answered with the blocks of those indices.
pub fn handle_get_block_bodies_request(payload: &[u8]) -> (r: RequestAction)
    ensures
        decoded_u64_list(payload@) matches Some(v) ==> (r matches RequestAction::AnswerBodies(g)
            && g.block_indexes@ == v),
        decoded_u64_list(payload@) is None ==> is_empty_reply(r),
{
    match GetBlockBodies::decode(payload) {
        Ok(g) => RequestAction::AnswerBodies(g),
        Err(_) => RequestAction::Reply(Vec::new()),
    }
}

/// The handshake response envelope for the local chain's handshake.
pub fn handshake_response(local: &Handshake) -> (r: Vec<u8>)
    ensures
        r@ == seq![MessageKind::Handshake.tag()] + local.wire(),
{
    let payload = local.encode();
    encode_message(MessageKind::Handshake, payload.as_slice())
}

/// The headers of the first `limit` of `blocks`, in their order.
pub open spec fn headers_answer(query: GetBlockHeaders, blocks: Seq<Block>) -> Seq<BlockHeader> {
    let n = if blocks.len() < query.limit {
        blocks.len() as int
    } else {
        query.limit as int
    };
    blocks.subrange(0, n).map_values(|b: Block| b.header())
}

/// The headers response envelope for a range query, given the blocks the
/// chain store returned for it; `None` when the encoding does not fit.
pub fn get_block_headers_response(query: &GetBlockHeaders, blocks: &Vec<Block>) -> (r: Option<
    Vec<u8>,
>)
    ensures
        r is Some <==> rows_fit_headers(headers_answer(*query, blocks@)),
        r matches Some(e) ==> e@ == seq![MessageKind::BlockHeaders.tag()] + rows_rlp(
            header_rows(headers_answer(*query, blocks@)),
        ),
{
    let mut headers: Vec<BlockHeader> = Vec::new();
    let mut i: usize = 0;
    while i < blocks.len() && (i as u64) < query.limit
        invariant
            i <= blocks@.len(),
            i <= query.limit,
            headers@ == blocks@.subrange(0, i as int).map_values(|b: Block| b.header()),
        decreases blocks@.len() - i,
    {
        headers.push(blocks[i].to_block_header());
        i = i + 1;
        assert(headers@ =~= blocks@.subrange(0, i as int).map_values(|b: Block| b.header()));
    }
    assert(headers@ =~= headers_answer(*query, blocks@));
    let response = BlockHeaders { block_headers: headers };
    match response.encode() {
        Some(payload) => Some(encode_message(MessageKind::BlockHeaders, payload.as_slice())),
        None => None,
    }
}

/// Whether headers encode within the list header limits.
pub open spec fn rows_fit_headers(hs: Seq<BlockHeader>) -> bool {
    crate::rlp_format::rows_fit(header_rows(hs))
}

/// The bodies response envelope for the blocks the chain store returned;
/// `None` when the encoding does not fit.
pub fn get_block_bodies_response(blocks: Vec<Block>) -> (r: Option<Vec<u8>>)
    ensures
        r is Some <==> crate::rlp_format::rows_fit(block_rows(blocks@)),
        r matches Some(e) ==> e@ == seq![MessageKind::BlockBodies.tag()] + rows_rlp(
            block_rows(blocks@),
        ),
{
    let response = BlockBodies { blocks };
    match response.encode() {
        Some(payload) => Some(encode_message(MessageKind::BlockBodies, payload.as_slice())),
        None => None,
    }
}

/// Where a peer's sync round stands.
#[derive(Debug, Clone, Copy, PartialEq, Eq, Structural)]
pub enum SyncState {
    Idle,
    AwaitingHeaders,
    AwaitingBodies,
}

/// What to do after an inbound response.
#[derive(Debug)]
pub enum ResponseAction {
    /// Nothing.
    Ignore,
    /// Read the local height and pass it with this handshake to `handle_handshake_response`.
    CompareHeight(Handshake),
    /// Send this request envelope to the same peer.
    SendRequest(Vec<u8>),
    /// Import these blocks, in this order, through an `ImportRound`.
    Import(Vec<Block>),
}

/// The range query that starts a round from local height `local`.
pub open spec fn catch_up_query(local: u64) -> GetBlockHeaders {
    GetBlockHeaders { start_block_index: local, skip: 1, limit: 100 }
}

/// The indices of a sequence of headers, in order.
pub open spec fn header_indexes(hs: Seq<BlockHeader>) -> Seq<u64> {
    hs.map_values(|h: BlockHeader| h.index)
}

/// The index list of some headers is no longer than the rows they encode to.
pub proof fn lemma_index_items_within_rows(hs: Seq<BlockHeader>)
    ensures
        u64_items(header_indexes(hs)).len() <= row_items(header_rows(hs)).len(),
    decreases hs.len(),
{
    if hs.len() > 0 {
        let mi = header_indexes(hs).map_values(|x: u64| rlp_u64(x));
        let mr = header_rows(hs).map_values(|r: Seq<u64>| u64_list_rlp(r));
        assert(mi.drop_first() =~= header_indexes(hs.drop_first()).map_values(|x: u64| rlp_u64(x)));
        assert(mr.drop_first() =~= header_rows(hs.drop_first()).map_values(
            |r: Seq<u64>| u64_list_rlp(r),
        ));
        let row = hs[0].row();
        let mrow = row.map_values(|x: u64| rlp_u64(x));
        assert(mrow[0] == rlp_u64(hs[0].index));
        assert(u64_items(row) == mrow[0] + join(mrow.drop_first()));
        assert(u64_items(row).len() >= rlp_u64(hs[0].index).len());
        assert(u64_list_rlp(row).len() >= u64_items(row).len());
        assert(mr[0] == u64_list_rlp(row));
        assert(mi[0] == rlp_u64(hs[0].index));
        lemma_index_items_within_rows(hs.drop_first());
    }
}

/// The indices of decodable headers always fit one index-list request.
pub proof fn lemma_decoded_indexes_fit(b: Seq<u8>)
    requires
        decoded_block_headers(b) is Some,
    ensures
        payload_fits(u64_items(header_indexes(decoded_block_headers(b)->0))),
{
    let rows = decoded_rows(b)->0;
    let hs = decoded_block_headers(b)->0;
    assert(rows_rlp(rows) == b && rows_fit(rows));
    assert forall|k: int| 0 <= k < rows.len() implies #[trigger] header_rows(hs)[k] == rows[k] by {
        assert(rows[k].len() == 4);
        assert(header_rows(hs)[k] =~= rows[k]);
    }
    assert(header_rows(hs) =~= rows);
    lemma_index_items_within_rows(hs);
}

/// The envelope asking for the bodies of blocks with indices `v`.
pub open spec fn bodies_request(v: Seq<u64>) -> Seq<u8> {
    seq![MessageKind::GetBlockBodies.tag()] + u64_list_rlp(v)
}

/// Decides what follows a peer's handshake: a range query when the peer is
/// ahead, nothing otherwise.
pub fn handle_handshake_response(state: SyncState, local: &Handshake, peer: &Handshake) -> (r: (
    SyncState,
    Option<Vec<u8>>,
))
    ensures
        local.latest_block_index < peer.latest_block_index ==> (r.0 == SyncState::AwaitingHeaders
            && (r.1 matches Some(e) && e@ == seq![MessageKind::GetBlockHeaders.tag()]
            + catch_up_query(local.latest_block_index).wire())),
        local.latest_block_index >= peer.latest_block_index ==> r == (state, None::<Vec<u8>>),
{
    if local.latest_block_index < peer.latest_block_index {
        let query = GetBlockHeaders {
            start_block_index: local.latest_block_index,
            skip: 1,
            limit: HEADER_BATCH_LIMIT,
        };
        let payload = query.encode();
        (SyncState::AwaitingHeaders, Some(encode_message(MessageKind::GetBlockHeaders, payload.as_slice())))
    } else {
        (state, None)
    }
}

/// Headers received: ask the same peer for the bodies of exactly those indices.
pub fn handle_block_headers_response(payload: &[u8]) -> (r: (SyncState, ResponseAction))
    ensures
        decoded_block_headers(payload@) matches Some(hs) ==> (r.0 == SyncState::AwaitingBodies
            && (r.1 matches ResponseAction::SendRequest(e) && e@ == bodies_request(
            header_indexes(hs),
        ))),
        decoded_block_headers(payload@) is None ==> (r.0 == SyncState::Idle && r.1 is Ignore),
{
    match BlockHeaders::decode(payload) {
        Ok(headers) => {
            proof {
                lemma_decoded_indexes_fit(payload@);
            }
            let request = GetBlockBodies { block_indexes: headers.to_block_indexes() };
            match request.encode() {
                Some(p) => (
                    SyncState::AwaitingBodies,
                    ResponseAction::SendRequest(encode_message(MessageKind::GetBlockBodies, p.as_slice())),
                ),
                None => (SyncState::Idle, ResponseAction::Ignore),
            }
        },
        Err(_) => (SyncState::Idle, ResponseAction::Ignore),
    }
}

/// Bodies received: the round ends, with the blocks to import.
pub fn handle_block_bodies_response(payload: &[u8]) -> (r: (SyncState, ResponseAction))
    ensures
        r.0 == SyncState::Idle,
        decoded_block_bodies(payload@) matches Some(rows) ==> (r.1 matches ResponseAction::Import(
            bs,
        ) && block_rows(bs@) == rows),
        decoded_block_bodies(payload@) is None ==> r.1 is Ignore,
{
    match BlockBodies::decode(payload) {
        Ok(bodies) => (SyncState::Idle, ResponseAction::Import(bodies.blocks)),
        Err(_) => (SyncState::Idle, ResponseAction::Ignore),
    }
}

/// Advances a peer's round on an inbound response envelope. `solicited` says
/// whether the response answers the request this peer's round awaits.
pub fn handle_response_message(state: SyncState, solicited: bool, msg: &[u8]) -> (r: (
    SyncState,
    ResponseAction,
))
    ensures
        envelope_kind(msg@) is None ==> (r.0 == state && r.1 is Ignore),
        envelope_kind(msg@) matches Some(k) && !k.is_response() ==> (r.0 == state && r.1 is Ignore),
        envelope_kind(msg@) == Some(MessageKind::Handshake) ==> r.0 == state,
        envelope_kind(msg@) == Some(MessageKind::Handshake) ==> (decoded_handshake(
            payload_of(msg@),
        ) matches Some(h) ==> r.1 == ResponseAction::CompareHeight(h)),
        envelope_kind(msg@) == Some(MessageKind::Handshake) ==> (decoded_handshake(
            payload_of(msg@),
        ) is None ==> r.1 is Ignore),
        envelope_kind(msg@) == Some(MessageKind::BlockHeaders) && !(solicited && state
            == SyncState::AwaitingHeaders) ==> (r.0 == state && r.1 is Ignore),
        envelope_kind(msg@) == Some(MessageKind::BlockHeaders) && solicited && state
            == SyncState::AwaitingHeaders ==> (decoded_block_headers(payload_of(msg@)) matches Some(
            hs,
        ) ==> (r.0 == SyncState::AwaitingBodies && (r.1 matches ResponseAction::SendRequest(e)
            && e@ == bodies_request(header_indexes(hs))))),
        envelope_kind(msg@) == Some(MessageKind::BlockHeaders) && solicited && state
            == SyncState::AwaitingHeaders ==> (decoded_block_headers(payload_of(msg@)) is None ==> (
        r.0 == SyncState::Idle && r.1 is Ignore)),
        envelope_kind(msg@) == Some(MessageKind::BlockBodies) && !(solicited && state
            == SyncState::AwaitingBodies) ==> (r.0 == state && r.1 is Ignore),
        envelope_kind(msg@) == Some(MessageKind::BlockBodies) && solicited && state
            == SyncState::AwaitingBodies ==> r.0 == SyncState::Idle,
        envelope_kind(msg@) == Some(MessageKind::BlockBodies) && solicited && state
            == SyncState::AwaitingBodies ==> (decoded_block_bodies(payload_of(msg@)) matches Some(
            rows,
        ) ==> (r.1 matches ResponseAction::Import(bs) && block_rows(bs@) == rows)),
        envelope_kind(msg@) == Some(MessageKind::BlockBodies) && solicited && state
            == SyncState::AwaitingBodies ==> (decoded_block_bodies(payload_of(msg@)) is None
            ==> r.1 is Ignore),
{
    let (kind, payload) = match split_envelope(msg) {
        Some(parts) => parts,
        None => {
            return (state, ResponseAction::Ignore);
        },
    };
    match kind {
        MessageKind::Handshake => match Handshake::decode(payload) {
            Ok(h) => (state, ResponseAction::CompareHeight(h)),
            Err(_) => (state, ResponseAction::Ignore),
        },
        MessageKind::BlockHeaders => {
            if solicited && state == SyncState::AwaitingHeaders {
                handle_block_headers_response(payload)
            } else {
                (state, ResponseAction::Ignore)
            }
        },
        MessageKind::BlockBodies => {
            if solicited && state == SyncState::AwaitingBodies {
                handle_block_bodies_response(payload)
            } else {
                (state, ResponseAction::Ignore)
            }
        },
        _ => (state, ResponseAction::Ignore),
    }
}

} // verus!
