//! Tests of the transfer state machine: minting, the pause switch, the
//! outbound/inbound scenario, authorization of inbound messages, and
//! rollback.

use universal_nft::ledger::{ConnectedContracts, OriginLedger, TokenUnits};
use universal_nft::universal_nft::UniversalNFT;
use universal_nft::universal_nft_core::RevertContext;
use universal_nft::{ErrorCode, ProgramState, CHAIN_ID_SOLANA_DEVNET, CHAIN_ID_ZETACHAIN_TESTNET};

const OWNER: [u8; 32] = [0xAAu8; 32];
const MINTER: [u8; 32] = [0xBBu8; 32];
const MINT_ID: [u8; 32] = [0xCCu8; 32];

fn fresh_chain(next_token_id: u64) -> (ProgramState, OriginLedger, TokenUnits, ConnectedContracts) {
    let state = UniversalNFT::initialize(
        [1u8; 32],
        next_token_id,
        [2u8; 20],
        100_000,
        [3u8; 32],
        OWNER,
    );
    (state, OriginLedger::new(), TokenUnits::new(), ConnectedContracts::new())
}

fn widen(a: [u8; 20]) -> [u8; 32] {
    let mut r = [0u8; 32];
    r[12..32].copy_from_slice(&a);
    r
}

#[test]
fn initialize_sets_configuration() {
    let (state, _, _, _) = fresh_chain(7);
    assert_eq!(state.owner, OWNER);
    assert_eq!(state.gateway, [1u8; 32]);
    assert_eq!(state.universal_nft_contract, [2u8; 20]);
    assert_eq!(state.next_token_id, 7);
    assert!(!state.paused);
    assert_eq!(state.gas_limit, 100_000);
    assert_eq!(state.uniswap_router, [3u8; 32]);
}

#[test]
fn sequential_mints_issue_distinct_ids() {
    let (mut state, mut origins, mut units, _) = fresh_chain(0);
    let id1 = UniversalNFT::create_mint_and_nft(
        &mut state, &mut origins, &mut units, "u1".to_string(), 0, MINT_ID, MINTER, 10,
    )
    .unwrap();
    let id2 = UniversalNFT::create_mint_and_nft(
        &mut state, &mut origins, &mut units, "u2".to_string(), 1, MINT_ID, MINTER, 11,
    )
    .unwrap();
    assert_ne!(id1, id2);
    assert_eq!(id1, 0);
    assert_eq!(id2, 1);
    assert_eq!(state.next_token_id, 2);
    let rec = origins.get(0).unwrap();
    assert_eq!(rec.token_id, 0);
    assert_eq!(rec.origin_chain, CHAIN_ID_SOLANA_DEVNET);
    assert_eq!(rec.origin_token_id, 0);
    assert_eq!(rec.metadata_uri, "u1");
    assert_eq!(rec.mint, MINT_ID);
    assert_eq!(rec.created_at, 10);
    assert!(units.holder_matches(0, &MINTER));
}

#[test]
fn mint_at_counter_saturation_is_overflow() {
    let (mut state, mut origins, mut units, _) = fresh_chain(u64::MAX);
    let r = UniversalNFT::create_mint_and_nft(
        &mut state, &mut origins, &mut units, "u".to_string(), u64::MAX, MINT_ID, MINTER, 0,
    );
    assert_eq!(r, Err(ErrorCode::TokenIdOverflow));
    // no wraparound, nothing minted
    assert_eq!(state.next_token_id, u64::MAX);
    assert!(origins.get(u64::MAX).is_none());
    assert!(!units.has_unit(u64::MAX));
}

#[test]
fn mint_with_stale_counter_fails_and_changes_nothing() {
    let (mut state, mut origins, mut units, _) = fresh_chain(3);
    let r = UniversalNFT::create_mint_and_nft(
        &mut state, &mut origins, &mut units, "u".to_string(), 5, MINT_ID, MINTER, 0,
    );
    assert_eq!(r, Err(ErrorCode::NextTokenIdMismatch));
    assert_eq!(state.next_token_id, 3);
    assert!(origins.get(5).is_none());
    assert!(!units.has_unit(5));
}

#[test]
fn mint_over_received_record_fails() {
    // a receive materialized a record under id 0; a later local mint
    // that would reuse the id is refused
    let (mut state, mut origins, mut units, mut connected) = fresh_chain(0);
    let sender_contract = [0x77u8; 20];
    let zrc20 = [0x55u8; 20];
    UniversalNFT::set_connected_contract(
        &state, &mut connected, &OWNER, zrc20, sender_contract.to_vec(),
    )
    .unwrap();
    let payload = universal_nft::universal_nft_core::UniversalNFTCoreImpl::
        encode_cross_chain_message([0x10u8; 20], 0, "remote".to_string(), [0x20u8; 20]);
    UniversalNFT::receive_cross_chain_message(
        &state, &mut origins, &mut units, &connected, 0, payload, zrc20, sender_contract,
        MINT_ID, 99,
    )
    .unwrap();
    let r = UniversalNFT::create_mint_and_nft(
        &mut state, &mut origins, &mut units, "local".to_string(), 0, MINT_ID, MINTER, 0,
    );
    assert_eq!(r, Err(ErrorCode::TokenIdAlreadyExists));
    assert_eq!(state.next_token_id, 0);
    // the received record is untouched
    assert_eq!(origins.get(0).unwrap().metadata_uri, "remote");
}

#[test]
fn paused_program_rejects_all_protocol_entry_points() {
    let (mut state, mut origins, mut units, connected) = fresh_chain(0);
    UniversalNFT::pause(&mut state, &OWNER).unwrap();
    assert!(state.paused);
    let r = UniversalNFT::create_mint_and_nft(
        &mut state, &mut origins, &mut units, "u".to_string(), 0, MINT_ID, MINTER, 0,
    );
    assert_eq!(r, Err(ErrorCode::ProgramPaused));
    let r = UniversalNFT::transfer_cross_chain(
        &state, &origins, &mut units, 0, [1u8; 20], [2u8; 20], MINTER,
    );
    assert_eq!(r, Err(ErrorCode::ProgramPaused));
    let r = UniversalNFT::receive_cross_chain_message(
        &state, &mut origins, &mut units, &connected, 0, vec![], [0u8; 20], [0u8; 20], MINT_ID,
        0,
    );
    assert_eq!(r, Err(ErrorCode::ProgramPaused));
    // the owner can still lift the pause
    UniversalNFT::unpause(&mut state, &OWNER).unwrap();
    assert!(!state.paused);
}

#[test]
fn pause_and_unpause_require_the_owner() {
    let (mut state, _, _, _) = fresh_chain(0);
    let intruder = [0x01u8; 32];
    assert_eq!(UniversalNFT::pause(&mut state, &intruder), Err(ErrorCode::Unauthorized));
    assert!(!state.paused);
    UniversalNFT::pause(&mut state, &OWNER).unwrap();
    assert_eq!(UniversalNFT::unpause(&mut state, &intruder), Err(ErrorCode::Unauthorized));
    assert!(state.paused);
    UniversalNFT::unpause(&mut state, &OWNER).unwrap();
    assert!(!state.paused);
}

#[test]
fn transfer_requires_record_and_ownership() {
    let (mut state, mut origins, mut units, _) = fresh_chain(0);
    // no record at all
    let r = UniversalNFT::transfer_cross_chain(
        &state, &origins, &mut units, 9, [1u8; 20], [2u8; 20], MINTER,
    );
    assert_eq!(r, Err(ErrorCode::NFTOriginNotFound));
    // record exists, but the caller does not hold the unit
    UniversalNFT::create_mint_and_nft(
        &mut state, &mut origins, &mut units, "u".to_string(), 0, MINT_ID, MINTER, 0,
    )
    .unwrap();
    let stranger = [0x09u8; 32];
    let r = UniversalNFT::transfer_cross_chain(
        &state, &origins, &mut units, 0, [1u8; 20], [2u8; 20], stranger,
    );
    assert_eq!(r, Err(ErrorCode::InsufficientTokens));
    assert!(units.has_unit(0));
}

#[test]
fn outbound_then_inbound_transfer_scenario() {
    // mint token 0 with uri "ipfs://a" on chain A
    let (mut state_a, mut origins_a, mut units_a, _) = fresh_chain(0);
    let id = UniversalNFT::create_mint_and_nft(
        &mut state_a, &mut origins_a, &mut units_a, "ipfs://a".to_string(), 0, MINT_ID, MINTER,
        5,
    )
    .unwrap();
    assert_eq!(id, 0);
    // initiate the transfer to destination D, recipient R
    let destination = [0xD0u8; 20];
    let recipient = [0xE0u8; 20];
    let (dest, payload) = UniversalNFT::transfer_cross_chain(
        &state_a, &origins_a, &mut units_a, 0, recipient, destination, MINTER,
    )
    .unwrap();
    assert_eq!(dest, destination);
    // the ledger still holds the origin record, but the unit is burned
    assert!(origins_a.get(0).is_some());
    assert!(!units_a.has_unit(0));
    // the destination chain accepts the relayed bytes from the
    // registered counterpart and re-mints to R
    let (state_b, mut origins_b, mut units_b, mut connected_b) = fresh_chain(0);
    let counterpart = [0x71u8; 20];
    let zrc20 = [0x61u8; 20];
    UniversalNFT::set_connected_contract(
        &state_b, &mut connected_b, &OWNER, zrc20, counterpart.to_vec(),
    )
    .unwrap();
    UniversalNFT::receive_cross_chain_message(
        &state_b, &mut origins_b, &mut units_b, &connected_b, 0, payload, zrc20, counterpart,
        MINT_ID, 77,
    )
    .unwrap();
    let rec = origins_b.get(0).unwrap();
    assert_eq!(rec.token_id, 0);
    assert_eq!(rec.metadata_uri, "ipfs://a");
    assert_eq!(rec.origin_chain, CHAIN_ID_ZETACHAIN_TESTNET);
    assert_eq!(rec.origin_token_id, 0);
    assert_eq!(rec.created_at, 77);
    assert!(units_b.holder_matches(0, &widen(recipient)));
}

#[test]
fn receive_from_unregistered_sender_mints_nothing() {
    let (state, mut origins, mut units, connected) = fresh_chain(0);
    let payload = universal_nft::universal_nft_core::UniversalNFTCoreImpl::
        encode_cross_chain_message([0x10u8; 20], 0, "u".to_string(), [0x20u8; 20]);
    // nothing registered for this gas-token identity
    let r = UniversalNFT::receive_cross_chain_message(
        &state, &mut origins, &mut units, &connected, 0, payload, [0x55u8; 20], [0x77u8; 20],
        MINT_ID, 0,
    );
    assert_eq!(r, Err(ErrorCode::InvalidCrossChainMessage));
    assert!(origins.get(0).is_none());
    assert!(!units.has_unit(0));
}

#[test]
fn receive_with_mismatched_sender_mints_nothing() {
    let (state, mut origins, mut units, mut connected) = fresh_chain(0);
    let zrc20 = [0x55u8; 20];
    UniversalNFT::set_connected_contract(
        &state, &mut connected, &OWNER, zrc20, vec![0x77u8; 20],
    )
    .unwrap();
    let payload = universal_nft::universal_nft_core::UniversalNFTCoreImpl::
        encode_cross_chain_message([0x10u8; 20], 0, "u".to_string(), [0x20u8; 20]);
    let r = UniversalNFT::receive_cross_chain_message(
        &state, &mut origins, &mut units, &connected, 0, payload, zrc20, [0x78u8; 20], MINT_ID,
        0,
    );
    assert_eq!(r, Err(ErrorCode::InvalidCrossChainMessage));
    assert!(!units.has_unit(0));
}

#[test]
fn receive_with_wrong_token_id_mints_nothing() {
    let (state, mut origins, mut units, mut connected) = fresh_chain(0);
    let zrc20 = [0x55u8; 20];
    let counterpart = [0x77u8; 20];
    UniversalNFT::set_connected_contract(
        &state, &mut connected, &OWNER, zrc20, counterpart.to_vec(),
    )
    .unwrap();
    let payload = universal_nft::universal_nft_core::UniversalNFTCoreImpl::
        encode_cross_chain_message([0x10u8; 20], 3, "u".to_string(), [0x20u8; 20]);
    let r = UniversalNFT::receive_cross_chain_message(
        &state, &mut origins, &mut units, &connected, 4, payload, zrc20, counterpart, MINT_ID,
        0,
    );
    assert_eq!(r, Err(ErrorCode::InvalidCrossChainMessage));
    assert!(!units.has_unit(3));
    assert!(!units.has_unit(4));
}

#[test]
fn receive_keeps_existing_provenance() {
    // a record created locally keeps its origin fields when a receive
    // re-materializes the same token id after a round trip
    let (mut state, mut origins, mut units, mut connected) = fresh_chain(0);
    UniversalNFT::create_mint_and_nft(
        &mut state, &mut origins, &mut units, "before".to_string(), 0, MINT_ID, MINTER, 5,
    )
    .unwrap();
    UniversalNFT::transfer_cross_chain(
        &state, &origins, &mut units, 0, [1u8; 20], [2u8; 20], MINTER,
    )
    .unwrap();
    let zrc20 = [0x55u8; 20];
    let counterpart = [0x77u8; 20];
    UniversalNFT::set_connected_contract(
        &state, &mut connected, &OWNER, zrc20, counterpart.to_vec(),
    )
    .unwrap();
    let new_mint = [0xDDu8; 32];
    let recipient = [0x10u8; 20];
    let payload = universal_nft::universal_nft_core::UniversalNFTCoreImpl::
        encode_cross_chain_message(recipient, 0, "after".to_string(), [0x20u8; 20]);
    UniversalNFT::receive_cross_chain_message(
        &state, &mut origins, &mut units, &connected, 0, payload, zrc20, counterpart, new_mint,
        99,
    )
    .unwrap();
    let rec = origins.get(0).unwrap();
    // URI and mint were rewritten; provenance and creation time were not
    assert_eq!(rec.metadata_uri, "after");
    assert_eq!(rec.mint, new_mint);
    assert_eq!(rec.origin_chain, CHAIN_ID_SOLANA_DEVNET);
    assert_eq!(rec.origin_token_id, 0);
    assert_eq!(rec.created_at, 5);
    assert!(units.holder_matches(0, &widen(recipient)));
}

#[test]
fn revert_remints_to_sender_and_restores_uri() {
    let (mut state, mut origins, mut units, _) = fresh_chain(0);
    UniversalNFT::create_mint_and_nft(
        &mut state, &mut origins, &mut units, "ipfs://a".to_string(), 0, MINT_ID, MINTER, 5,
    )
    .unwrap();
    let (_, payload) = UniversalNFT::transfer_cross_chain(
        &state, &origins, &mut units, 0, [0xE0u8; 20], [0xD0u8; 20], MINTER,
    )
    .unwrap();
    assert!(!units.has_unit(0));
    UniversalNFT::on_revert(
        &mut origins,
        &mut units,
        RevertContext { asset: [0u8; 20], amount: 1, revert_message: payload },
    )
    .unwrap();
    // the outbound sender field is the zero address; the unit returns
    // to its widened form
    assert!(units.holder_matches(0, &[0u8; 32]));
    assert_eq!(origins.get(0).unwrap().metadata_uri, "ipfs://a");
}

#[test]
fn revert_with_short_payload_is_a_no_op() {
    let (mut state, mut origins, mut units, _) = fresh_chain(0);
    UniversalNFT::create_mint_and_nft(
        &mut state, &mut origins, &mut units, "u".to_string(), 0, MINT_ID, MINTER, 0,
    )
    .unwrap();
    let r = UniversalNFT::on_revert(
        &mut origins,
        &mut units,
        RevertContext { asset: [0u8; 20], amount: 0, revert_message: vec![1, 2, 3] },
    );
    assert_eq!(r, Ok(()));
    assert!(units.holder_matches(0, &MINTER));
}

#[test]
fn revert_for_unknown_token_is_a_no_op() {
    let (_, mut origins, mut units, _) = fresh_chain(0);
    let payload = universal_nft::universal_nft_core::UniversalNFTCoreImpl::
        encode_cross_chain_message([1u8; 20], 9, "u".to_string(), [2u8; 20]);
    let r = UniversalNFT::on_revert(
        &mut origins,
        &mut units,
        RevertContext { asset: [0u8; 20], amount: 0, revert_message: payload },
    );
    assert_eq!(r, Ok(()));
    assert!(origins.get(9).is_none());
    assert!(!units.has_unit(9));
}
