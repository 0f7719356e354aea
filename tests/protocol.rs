use peer_sync::handler::{
    get_block_bodies_response, get_block_headers_response, handle_handshake_response,
    handle_request_message, handle_response_message, handshake_response, RequestAction,
    ResponseAction, SyncState,
};
use peer_sync::import_round::{ImportRecord, ImportRound};
use peer_sync::kind::MessageKind;
use peer_sync::messages::{
    encode_message, Block, BlockBodies, BlockHeader, BlockHeaders, GetBlockBodies,
    GetBlockHeaders, Handshake,
};

fn block(index: u64, data: Vec<u64>) -> Block {
    Block { index, timestamp: 1000 + index, previous_hash: index * 7, hash: index * 7 + 1, data }
}

fn header(index: u64) -> BlockHeader {
    BlockHeader { index, timestamp: 1000 + index, previous_hash: index * 7, hash: index * 7 + 1 }
}

#[test]
fn tags_name_exactly_five_kinds() {
    let kinds = [
        MessageKind::Handshake,
        MessageKind::GetBlockHeaders,
        MessageKind::BlockHeaders,
        MessageKind::GetBlockBodies,
        MessageKind::BlockBodies,
    ];
    for (i, k) in kinds.iter().enumerate() {
        assert_eq!(k.as_byte(), i as u8);
        assert_eq!(MessageKind::from_byte(i as u8), Some(*k));
    }
    for b in 5u8..=255 {
        assert_eq!(MessageKind::from_byte(b), None);
    }
}

#[test]
fn handshake_encoding_is_exact() {
    assert_eq!(Handshake { latest_block_index: 5 }.encode(), vec![0xc1, 0x05]);
    assert_eq!(Handshake { latest_block_index: 0 }.encode(), vec![0xc1, 0x80]);
    assert_eq!(Handshake { latest_block_index: 1000 }.encode(), vec![0xc3, 0x82, 0x03, 0xe8]);
    assert_eq!(
        GetBlockHeaders { start_block_index: 10, skip: 1, limit: 100 }.encode(),
        vec![0xc3, 0x0a, 0x01, 0x64]
    );
}

#[test]
fn long_list_gets_a_length_of_length_header() {
    let g = GetBlockBodies { block_indexes: (0u64..60).map(|i| i + 1).collect() };
    let bytes = g.encode().unwrap();
    assert_eq!(bytes[0], 0xf8);
    assert_eq!(bytes[1], 60);
    assert_eq!(bytes.len(), 62);
    assert_eq!(GetBlockBodies::decode(&bytes).unwrap(), g);
}

#[test]
fn every_kind_round_trips() {
    for h in [0u64, 1, 127, 128, 255, 256, u64::MAX] {
        let hs = Handshake { latest_block_index: h };
        assert_eq!(Handshake::decode(&hs.encode()), Ok(hs));
    }
    let g = GetBlockHeaders { start_block_index: u64::MAX, skip: 0, limit: 7 };
    assert_eq!(GetBlockHeaders::decode(&g.encode()), Ok(g));
    let b = GetBlockBodies { block_indexes: vec![] };
    assert_eq!(GetBlockBodies::decode(&b.encode().unwrap()), Ok(b));
    let hs = BlockHeaders { block_headers: vec![header(5), header(6), header(300)] };
    assert_eq!(BlockHeaders::decode(&hs.encode().unwrap()), Ok(hs));
    let empty = BlockHeaders { block_headers: vec![] };
    assert_eq!(BlockHeaders::decode(&empty.encode().unwrap()), Ok(empty));
    let bodies = BlockBodies { blocks: vec![block(5, vec![]), block(6, (0..40).collect())] };
    assert_eq!(BlockBodies::decode(&bodies.encode().unwrap()), Ok(bodies));
}

#[test]
fn envelope_prefixes_the_tag() {
    assert_eq!(encode_message(MessageKind::BlockBodies, &[0xc0]), vec![4, 0xc0]);
    assert_eq!(
        handshake_response(&Handshake { latest_block_index: 9 }),
        vec![0, 0xc1, 0x09]
    );
}

#[test]
fn peer_ahead_starts_a_round() {
    let (state, out) = handle_handshake_response(
        SyncState::Idle,
        &Handshake { latest_block_index: 3 },
        &Handshake { latest_block_index: 10 },
    );
    assert_eq!(state, SyncState::AwaitingHeaders);
    let env = out.unwrap();
    assert_eq!(env, vec![1, 0xc3, 0x03, 0x01, 0x64]);
    assert_eq!(
        GetBlockHeaders::decode(&env[1..]),
        Ok(GetBlockHeaders { start_block_index: 3, skip: 1, limit: 100 })
    );
}

#[test]
fn peer_not_ahead_sends_nothing() {
    for (local, peer) in [(10u64, 3u64), (7, 7)] {
        let (state, out) = handle_handshake_response(
            SyncState::Idle,
            &Handshake { latest_block_index: local },
            &Handshake { latest_block_index: peer },
        );
        assert_eq!(state, SyncState::Idle);
        assert!(out.is_none());
    }
}

#[test]
fn handshake_response_asks_for_height_comparison() {
    let msg = handshake_response(&Handshake { latest_block_index: 42 });
    let (state, action) = handle_response_message(SyncState::Idle, false, &msg);
    assert_eq!(state, SyncState::Idle);
    match action {
        ResponseAction::CompareHeight(h) => assert_eq!(h.latest_block_index, 42),
        other => panic!("unexpected {:?}", other),
    }
}

#[test]
fn headers_lead_to_bodies_request_for_same_indices() {
    let hs = BlockHeaders { block_headers: vec![header(5), header(6), header(7)] };
    let msg = encode_message(MessageKind::BlockHeaders, &hs.encode().unwrap());
    let (state, action) = handle_response_message(SyncState::AwaitingHeaders, true, &msg);
    assert_eq!(state, SyncState::AwaitingBodies);
    match action {
        ResponseAction::SendRequest(env) => {
            assert_eq!(env, vec![3, 0xc3, 5, 6, 7]);
            let req = GetBlockBodies::decode(&env[1..]).unwrap();
            assert_eq!(req.block_indexes, vec![5, 6, 7]);
        }
        other => panic!("unexpected {:?}", other),
    }
}

#[test]
fn unsolicited_headers_and_bodies_are_ignored() {
    let hs = BlockHeaders { block_headers: vec![header(5)] };
    let msg = encode_message(MessageKind::BlockHeaders, &hs.encode().unwrap());
    let (state, action) = handle_response_message(SyncState::Idle, true, &msg);
    assert_eq!(state, SyncState::Idle);
    assert!(matches!(action, ResponseAction::Ignore));
    let (state, action) = handle_response_message(SyncState::AwaitingHeaders, false, &msg);
    assert_eq!(state, SyncState::AwaitingHeaders);
    assert!(matches!(action, ResponseAction::Ignore));
    let bodies = BlockBodies { blocks: vec![block(5, vec![1])] };
    let msg = encode_message(MessageKind::BlockBodies, &bodies.encode().unwrap());
    let (state, action) = handle_response_message(SyncState::AwaitingHeaders, true, &msg);
    assert_eq!(state, SyncState::AwaitingHeaders);
    assert!(matches!(action, ResponseAction::Ignore));
}

#[test]
fn bodies_end_the_round_with_blocks_to_import() {
    let blocks = vec![block(5, vec![1, 2]), block(6, vec![]), block(7, vec![9])];
    let msg = get_block_bodies_response(blocks.clone()).unwrap();
    assert_eq!(msg[0], 4);
    let (state, action) = handle_response_message(SyncState::AwaitingBodies, true, &msg);
    assert_eq!(state, SyncState::Idle);
    match action {
        ResponseAction::Import(bs) => assert_eq!(bs, blocks),
        other => panic!("unexpected {:?}", other),
    }
}

#[test]
fn failed_import_does_not_stop_the_batch() {
    let mut round = ImportRound::new(vec![block(5, vec![]), block(6, vec![]), block(7, vec![])]);
    let outcomes = [true, false, true];
    let mut attempted = Vec::new();
    let mut k = 0;
    while let Some(b) = round.next_block() {
        attempted.push(b.index);
        let ok = outcomes[k];
        k += 1;
        round.record(ok);
    }
    assert!(round.is_done());
    assert_eq!(attempted, vec![5, 6, 7]);
    assert_eq!(
        round.log(),
        &vec![
            ImportRecord { index: 5, imported: true },
            ImportRecord { index: 6, imported: false },
            ImportRecord { index: 7, imported: true },
        ]
    );
}

#[test]
fn unknown_tag_is_dropped() {
    let msg = vec![0xFF, 0xc1, 0x05];
    assert!(matches!(handle_request_message(&msg), RequestAction::Drop));
    let (state, action) = handle_response_message(SyncState::AwaitingBodies, true, &msg);
    assert_eq!(state, SyncState::AwaitingBodies);
    assert!(matches!(action, ResponseAction::Ignore));
    assert!(matches!(handle_request_message(&[]), RequestAction::Drop));
    let (state, action) = handle_response_message(SyncState::Idle, true, &[]);
    assert_eq!(state, SyncState::Idle);
    assert!(matches!(action, ResponseAction::Ignore));
}

#[test]
fn response_kinds_sent_as_requests_are_dropped() {
    assert!(matches!(handle_request_message(&[2, 0xc0]), RequestAction::Drop));
    assert!(matches!(handle_request_message(&[4, 0xc0]), RequestAction::Drop));
}

#[test]
fn truncated_request_gets_empty_reply() {
    for msg in [vec![0u8, 0xc3, 0x01], vec![1u8, 0xc3, 0x01, 0x02], vec![3u8, 0xc5, 0x01], vec![0u8]] {
        match handle_request_message(&msg) {
            RequestAction::Reply(bytes) => assert_eq!(bytes.len(), 0),
            other => panic!("unexpected {:?}", other),
        }
    }
}

#[test]
fn well_formed_requests_are_routed() {
    let msg = handshake_response(&Handshake { latest_block_index: 1 });
    assert!(matches!(handle_request_message(&msg), RequestAction::AnswerHandshake));
    let q = GetBlockHeaders { start_block_index: 2, skip: 1, limit: 3 };
    let msg = encode_message(MessageKind::GetBlockHeaders, &q.encode());
    match handle_request_message(&msg) {
        RequestAction::AnswerHeaders(g) => assert_eq!(g, q),
        other => panic!("unexpected {:?}", other),
    }
    let b = GetBlockBodies { block_indexes: vec![4, 9] };
    let msg = encode_message(MessageKind::GetBlockBodies, &b.encode().unwrap());
    match handle_request_message(&msg) {
        RequestAction::AnswerBodies(g) => assert_eq!(g, b),
        other => panic!("unexpected {:?}", other),
    }
}

#[test]
fn headers_answer_is_capped_at_limit() {
    let q = GetBlockHeaders { start_block_index: 5, skip: 1, limit: 2 };
    let blocks = vec![block(5, vec![1]), block(6, vec![2]), block(7, vec![3])];
    let msg = get_block_headers_response(&q, &blocks).unwrap();
    assert_eq!(msg[0], 2);
    let hs = BlockHeaders::decode(&msg[1..]).unwrap();
    assert_eq!(hs.block_headers, vec![header(5), header(6)]);
}

#[test]
fn decoding_rejects_wrong_field_count() {
    let two = GetBlockHeaders { start_block_index: 1, skip: 1, limit: 1 }.encode();
    assert!(Handshake::decode(&two).is_err());
    assert!(Handshake::decode(&[]).is_err());
    let short_block = BlockHeaders { block_headers: vec![header(1)] }.encode().unwrap();
    assert!(BlockBodies::decode(&short_block).is_ok());
    let bodies = BlockBodies { blocks: vec![block(1, vec![8])] }.encode().unwrap();
    assert!(BlockHeaders::decode(&bodies).is_err());
}

#[test]
fn malformed_request_payloads_get_empty_reply() {
    for msg in [
        vec![3u8, 0x05],
        vec![0u8, 0xc2, 0x05, 0x81],
        vec![0u8, 0xc1, 0x05, 0x00],
        vec![1u8],
        vec![0u8, 0xc1, 0x00],
    ] {
        match handle_request_message(&msg) {
            RequestAction::Reply(bytes) => assert_eq!(bytes.len(), 0),
            other => panic!("unexpected {:?} for {:?}", other, msg),
        }
    }
}

#[test]
fn malformed_responses_are_ignored() {
    let (state, action) = handle_response_message(SyncState::Idle, false, &[0, 0xc2, 0x05, 0x81]);
    assert_eq!(state, SyncState::Idle);
    assert!(matches!(action, ResponseAction::Ignore));
    let (state, action) = handle_response_message(SyncState::AwaitingHeaders, true, &[2, 0x05]);
    assert_eq!(state, SyncState::Idle);
    assert!(matches!(action, ResponseAction::Ignore));
    let (state, action) =
        handle_response_message(SyncState::AwaitingHeaders, true, &[2, 0xc2, 0xc1, 0x05]);
    assert_eq!(state, SyncState::Idle);
    assert!(matches!(action, ResponseAction::Ignore));
    let (state, action) = handle_response_message(SyncState::AwaitingBodies, true, &[4, 0xc1]);
    assert_eq!(state, SyncState::Idle);
    assert!(matches!(action, ResponseAction::Ignore));
}
