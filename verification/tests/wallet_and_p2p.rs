use deqs::p2p::{
    bootstrap_plan, speaks_protocol, EventAction, NetworkEventLoopState, PendingRpcRequests,
    RpcCodec, RpcFrameError, RpcProtocol, SwarmEventKind, MAX_REQUEST_SIZE, MAX_RESPONSE_SIZE,
};
use deqs::types::{Amount, KeyImage};
use deqs::vec_u64::{VecU64, VecU64Error};
use deqs::wallet::{MatchedTxOut, ScannedBlock, State, WalletEvent, SCAN_CHUNK_SIZE};

fn owned_output(block_index: u64, tag: u8, value: u64) -> MatchedTxOut {
    MatchedTxOut {
        block_index,
        tx_out_public_key: [tag; 32],
        amount: Amount { value, token_id: 0 },
        subaddress_index: 0,
        key_image: KeyImage([tag; 32]),
    }
}

#[test]
fn wallet_starts_at_the_configured_block() {
    let state = State::new(5);
    assert_eq!(state.next_block_index(), 5);
    assert!(state.matched_tx_outs().is_empty());
}

#[test]
fn scan_window_reaches_the_last_block_in_chunks() {
    let state = State::new(5);
    assert_eq!(state.scan_window(3), (5, 3));
    assert_eq!(state.scan_window(8), (5, 8));
    assert_eq!(state.scan_window(1_000_000), (5, 5 + SCAN_CHUNK_SIZE));
}

#[test]
fn received_then_spent_outputs_produce_events() {
    let mut state = State::new(0);
    let a = owned_output(0, 1, 100);
    let b = owned_output(0, 2, 200);
    let events = state.apply_scanned_block(&ScannedBlock {
        block_index: 0,
        matched_tx_outs: vec![a, b],
        key_images: vec![],
    });
    assert_eq!(
        events,
        vec![
            WalletEvent::ReceivedTxOut { matched_tx_out: a },
            WalletEvent::ReceivedTxOut { matched_tx_out: b },
        ]
    );
    assert_eq!(state.next_block_index(), 1);
    assert_eq!(state.matched_tx_outs().len(), 2);

    let block_key_images = vec![KeyImage([9; 32]), KeyImage([1; 32])];
    let ours = state.owned_key_images(&block_key_images);
    assert_eq!(ours, vec![KeyImage([1; 32])]);

    let events = state.apply_scanned_block(&ScannedBlock {
        block_index: 1,
        matched_tx_outs: vec![],
        key_images: ours,
    });
    assert_eq!(events, vec![WalletEvent::SpentTxOut { matched_tx_out: a }]);
    assert_eq!(state.matched_tx_outs(), &vec![b]);
    assert_eq!(state.next_block_index(), 2);
}

#[test]
fn scan_results_skip_missing_blocks() {
    let mut state = State::new(3);
    let a = owned_output(3, 1, 100);
    let results = vec![
        Some(ScannedBlock { block_index: 3, matched_tx_outs: vec![a], key_images: vec![] }),
        Some(ScannedBlock { block_index: 4, matched_tx_outs: vec![], key_images: vec![KeyImage([1; 32])] }),
        None,
    ];
    let events = state.apply_scan_results(&results);
    assert_eq!(
        events,
        vec![
            WalletEvent::ReceivedTxOut { matched_tx_out: a },
            WalletEvent::SpentTxOut { matched_tx_out: a },
        ]
    );
    assert_eq!(state.next_block_index(), 5);
    assert!(state.matched_tx_outs().is_empty());
}

#[test]
fn receiving_a_known_key_image_replaces_the_output() {
    let mut state = State::new(0);
    let first = owned_output(0, 1, 100);
    let again = owned_output(0, 1, 150);
    state.apply_scanned_block(&ScannedBlock {
        block_index: 0,
        matched_tx_outs: vec![first, again],
        key_images: vec![],
    });
    assert_eq!(state.matched_tx_outs(), &vec![again]);
}

#[test]
fn vec_u64_round_trips_through_its_bytes() {
    let v = VecU64::new(0x0102_0304_0506_0708);
    let bytes = v.to_sql();
    assert_eq!(bytes, vec![1, 2, 3, 4, 5, 6, 7, 8]);
    assert_eq!(VecU64::from_sql(&bytes).unwrap().get(), 0x0102_0304_0506_0708);
    assert_eq!(VecU64::from_sql(&vec![1, 2, 3]).unwrap_err(), VecU64Error::InvalidArrayLength);
}

#[test]
fn rpc_protocol_name_and_limits() {
    assert_eq!(RpcProtocol.protocol_name(), b"/mc/deqs/p2p/rpc");
    let codec: RpcCodec<u64, u64> = RpcCodec::default();
    assert_eq!(codec.max_request_size(), MAX_REQUEST_SIZE);
    assert_eq!(codec.max_response_size(), MAX_RESPONSE_SIZE);
    assert_eq!(MAX_REQUEST_SIZE, 1_000_000);
    assert_eq!(MAX_RESPONSE_SIZE, 500_000_000);
}

#[test]
fn empty_frames_are_unexpected_eof() {
    let codec: RpcCodec<u64, u64> = RpcCodec::new();
    assert_eq!(codec.accept_request_frame(vec![]).unwrap_err(), RpcFrameError::UnexpectedEof);
    assert_eq!(codec.accept_response_frame(vec![]).unwrap_err(), RpcFrameError::UnexpectedEof);
    assert_eq!(codec.accept_request_frame(vec![1, 2]).unwrap(), vec![1, 2]);
}

#[test]
fn pending_requests_are_answered_once() {
    let mut pending: PendingRpcRequests<&str> = PendingRpcRequests::new();
    assert_eq!(pending.insert(7, "first"), None);
    assert_eq!(pending.insert(7, "second"), Some("first"));
    assert_eq!(pending.remove(7), Some("second"));
    assert_eq!(pending.remove(7), None);
}

#[test]
fn swarm_events_become_actions() {
    let mut state: NetworkEventLoopState<u32> = NetworkEventLoopState::new();
    state.rpc_request_sent(3, 30);
    let kad = b"/ipfs/kad/1.0.0";

    assert!(matches!(
        state.handle_swarm_event(&SwarmEventKind::ConnectionEstablished { num_established: 1 }, kad),
        EventAction::NotifyConnectionEstablished
    ));
    assert!(matches!(
        state.handle_swarm_event(&SwarmEventKind::ConnectionEstablished { num_established: 2 }, kad),
        EventAction::Log
    ));
    assert!(matches!(
        state.handle_swarm_event(&SwarmEventKind::RpcResponseReceived { request_id: 3 }, kad),
        EventAction::CompleteRpcRequest(30)
    ));
    assert!(matches!(
        state.handle_swarm_event(&SwarmEventKind::RpcResponseReceived { request_id: 3 }, kad),
        EventAction::UnknownRpcRequest
    ));
    state.rpc_request_sent(4, 40);
    assert!(matches!(
        state.handle_swarm_event(&SwarmEventKind::RpcOutboundFailure { request_id: 4 }, kad),
        EventAction::FailRpcRequest(40)
    ));
    assert!(matches!(
        state.handle_swarm_event(&SwarmEventKind::GossipMessage, kad),
        EventAction::ForwardGossip
    ));
    assert!(matches!(
        state.handle_swarm_event(
            &SwarmEventKind::IdentifyReceived { protocols: vec![b"/ipfs/ping".to_vec(), kad.to_vec()] },
            kad
        ),
        EventAction::AddRoutingAddresses
    ));
    assert!(matches!(
        state.handle_swarm_event(
            &SwarmEventKind::IdentifyReceived { protocols: vec![b"/ipfs/ping".to_vec()] },
            kad
        ),
        EventAction::Log
    ));
    assert!(speaks_protocol(&vec![kad.to_vec()], kad));
}

#[test]
fn bootstrap_needs_peer_ids() {
    assert_eq!(bootstrap_plan(&vec![]), Ok(false));
    assert_eq!(bootstrap_plan(&vec![true, true]), Ok(true));
    assert_eq!(bootstrap_plan(&vec![true, false, false]), Err(1));
}

#[test]
fn restored_state_keeps_distinct_key_images_only() {
    let a = owned_output(0, 1, 100);
    let b = owned_output(0, 2, 200);
    let state = State::restore(9, vec![a, b]).unwrap();
    assert_eq!(state.next_block_index(), 9);
    assert_eq!(state.matched_tx_outs(), &vec![a, b]);
    assert!(State::restore(9, vec![a, owned_output(3, 1, 5)]).is_none());
}
