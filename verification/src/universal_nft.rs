//! The transfer state machine and the owner-gated configuration.
//!
//! Every operation is a single unit of work over explicit state: the
//! program configuration, the origin ledger, the live local units and
//! the connected-contract mapping. An operation either performs all of
//! its writes or returns an error with every store unchanged. The
//! gateway transport itself stays outside: an outbound transfer returns
//! the relay call to make, and the host discards the mutated state if
//! the relay fails, so a successful relay can never leave the burned
//! unit alive.

use vstd::prelude::*;

use crate::ledger::{ConnectedContracts, OriginLedger, TokenUnits};
use crate::universal_nft_core::{
    spec_decode, spec_encode, AbortContext, RevertContext, UniversalNFTCoreError,
    UniversalNFTCoreImpl,
};
use crate::words::{bytes32_eq, widen_addr, widen_addr20, zero_bytes};
use crate::{
    generate_token_id, ErrorCode, NFTOrigin, ProgramState, CHAIN_ID_SOLANA_DEVNET,
    CHAIN_ID_ZETACHAIN_TESTNET,
};

verus! {

/// A successful mint: the caller declared the current counter value as
/// its token id, and the counter moved past it by exactly one.
pub open spec fn mint_transition(pre: ProgramState, post: ProgramState, token_id: u64) -> bool {
    &&& !pre.paused
    &&& token_id == pre.next_token_id
    &&& token_id < u64::MAX
    &&& post.next_token_id == token_id + 1
}

/// An inbound message that the receive operation accepts: it decodes,
/// its claimed sender is the contract registered for the message's
/// gas-token identity, and it names the token id the caller expects.
pub open spec fn receive_accepted(
    m: Seq<u8>,
    connected: Map<Seq<u8>, Seq<u8>>,
    zrc20: Seq<u8>,
    claimed_sender: Seq<u8>,
    token_id: u64,
) -> bool {
    &&& spec_decode(m) is Ok
    &&& connected.contains_key(zrc20)
    &&& connected[zrc20] == claimed_sender
    &&& spec_decode(m)->Ok_0.2 == token_id
}

/// A revert or abort payload that a rollback can compensate: it decodes
/// and names a token that still has an origin record here.
pub open spec fn rollback_applies(m: Seq<u8>, origins: Map<u64, NFTOrigin>) -> bool {
    &&& spec_decode(m) is Ok
    &&& origins.contains_key(spec_decode(m)->Ok_0.2)
}

/// Two successful mints in sequence issue distinct token ids: a mint
/// moves the counter past the id it issued, so the next mint can only
/// issue a larger one.
pub proof fn lemma_sequential_mint_ids_distinct(
    s0: ProgramState,
    s1: ProgramState,
    s2: ProgramState,
    id1: u64,
    id2: u64,
)
    requires
        mint_transition(s0, s1, id1),
        mint_transition(s1, s2, id2),
    ensures
        id1 != id2,
{
}

/// The program: its entry points, over explicit state.
pub struct UniversalNFT;

impl UniversalNFT {
    /// Sets up the program configuration. The owner, like every other
    /// field, is a configuration input; the program starts unpaused.
    pub fn initialize(
        gateway: [u8; 32],
        next_token_id: u64,
        universal_nft_contract: [u8; 20],
        gas_limit: u64,
        uniswap_router: [u8; 32],
        owner: [u8; 32],
    ) -> (state: ProgramState)
        ensures
            state.owner == owner,
            state.gateway == gateway,
            state.universal_nft_contract == universal_nft_contract,
            state.next_token_id == next_token_id,
            state.paused == false,
            state.gas_limit == gas_limit,
            state.uniswap_router == uniswap_router,
    {
        ProgramState {
            owner,
            gateway,
            universal_nft_contract,
            next_token_id,
            paused: false,
            gas_limit,
            uniswap_router,
        }
    }

    /// Mints a new token locally: issues the next token id, records its
    /// origin on this chain, and mints one local unit to the minter.
    /// The caller pre-declares the id it expects (`token_id`); a stale
    /// declaration fails, so two racing mints can never both mint under
    /// the same id.
    pub fn create_mint_and_nft(
        state: &mut ProgramState,
        origins: &mut OriginLedger,
        units: &mut TokenUnits,
        uri: String,
        token_id: u64,
        mint: [u8; 32],
        minter: [u8; 32],
        now: i64,
    ) -> (r: Result<u64, ErrorCode>)
        requires
            old(origins).wf(),
            old(units).wf(),
        ensures
            final(origins).wf(),
            final(units).wf(),
            old(state).paused ==> r == Err::<u64, ErrorCode>(ErrorCode::ProgramPaused) && *final(state) == *old(state) && final(origins)@ == old(origins)@ && final(units)@ == old(units)@,
            !old(state).paused && token_id != old(state).next_token_id ==> r == Err::<
                u64,
                ErrorCode,
            >(ErrorCode::NextTokenIdMismatch) && *final(state) == *old(state) && final(origins)@
                == old(origins)@ && final(units)@ == old(units)@,
            !old(state).paused && token_id == old(state).next_token_id && token_id == u64::MAX
                ==> r == Err::<u64, ErrorCode>(ErrorCode::TokenIdOverflow) && *final(state) == *old(state) && final(origins)@ == old(origins)@ && final(units)@ == old(units)@,
            !old(state).paused && token_id == old(state).next_token_id && token_id < u64::MAX
                && old(origins)@.contains_key(token_id) ==> r == Err::<u64, ErrorCode>(
                ErrorCode::TokenIdAlreadyExists,
            ) && *final(state) == *old(state) && final(origins)@ == old(origins)@ && final(units)@
                == old(units)@,
            !old(state).paused && token_id == old(state).next_token_id && token_id < u64::MAX
                && !old(origins)@.contains_key(token_id) ==> r == Ok::<u64, ErrorCode>(token_id)
                && mint_transition(*old(state), *final(state), token_id) && *final(state) == (
            ProgramState { next_token_id: (token_id + 1) as u64, ..*old(state) }) && final(origins)@ == old(origins)@.insert(
                token_id,
                (NFTOrigin {
                    token_id,
                    origin_chain: CHAIN_ID_SOLANA_DEVNET,
                    origin_token_id: token_id,
                    metadata_uri: uri,
                    mint,
                    created_at: now,
                }),
            ) && final(units)@ == old(units)@.insert(token_id, minter@),
    {
        if state.paused {
            return Err(ErrorCode::ProgramPaused);
        }
        if token_id != state.next_token_id {
            return Err(ErrorCode::NextTokenIdMismatch);
        }
        let next = match token_id.checked_add(1) {
            None => {
                return Err(ErrorCode::TokenIdOverflow);
            },
            Some(n) => n,
        };
        let final_token_id = generate_token_id(&mint, token_id);
        let record = NFTOrigin {
            token_id: final_token_id,
            origin_chain: CHAIN_ID_SOLANA_DEVNET,
            origin_token_id: final_token_id,
            metadata_uri: uri,
            mint,
            created_at: now,
        };
        match origins.create(record) {
            Err(e) => Err(e),
            Ok(_) => {
                state.next_token_id = next;
                units.mint_unit(final_token_id, minter);
                Ok(final_token_id)
            },
        }
    }

    /// Starts an outbound transfer: burns the caller's local unit and
    /// returns the relay call to make, as the pair of the gas-token
    /// identity to route through and the encoded payload. The burn comes
    /// first so a successful relay can never leave the unit alive; if
    /// the relay fails, the host discards the mutated state.
    pub fn transfer_cross_chain(
        state: &ProgramState,
        origins: &OriginLedger,
        units: &mut TokenUnits,
        token_id: u64,
        receiver: [u8; 20],
        destination: [u8; 20],
        user: [u8; 32],
    ) -> (r: Result<([u8; 20], Vec<u8>), ErrorCode>)
        requires
            origins.wf(),
            old(units).wf(),
        ensures
            final(units).wf(),
            state.paused ==> r == Err::<([u8; 20], Vec<u8>), ErrorCode>(ErrorCode::ProgramPaused)
                && final(units)@ == old(units)@,
            !state.paused && !origins@.contains_key(token_id) ==> r == Err::<
                ([u8; 20], Vec<u8>),
                ErrorCode,
            >(ErrorCode::NFTOriginNotFound) && final(units)@ == old(units)@,
            !state.paused && origins@.contains_key(token_id) && !(old(units)@.contains_key(token_id)
                && old(units)@[token_id] == user@) ==> r == Err::<([u8; 20], Vec<u8>), ErrorCode>(
                ErrorCode::InsufficientTokens,
            ) && final(units)@ == old(units)@,
            !state.paused && origins@.contains_key(token_id) && old(units)@.contains_key(token_id)
                && old(units)@[token_id] == user@ ==> r is Ok && r->Ok_0.0 == destination
                && r->Ok_0.1@ == spec_encode(
                receiver@,
                token_id,
                origins@[token_id].metadata_uri@,
                zero_bytes(20),
            ) && final(units)@ == old(units)@.remove(token_id),
    {
        if state.paused {
            return Err(ErrorCode::ProgramPaused);
        }
        match origins.get(token_id) {
            None => Err(ErrorCode::NFTOriginNotFound),
            Some(rec) => {
                if !units.holder_matches(token_id, &user) {
                    return Err(ErrorCode::InsufficientTokens);
                }
                units.burn_unit(token_id);
                let uri = rec.metadata_uri.clone();
                // the outbound sender field is the zero address
                let sender = [0u8; 20];
                proof {
                    assert(sender@ =~= zero_bytes(20));
                }
                let payload = UniversalNFTCoreImpl::encode_cross_chain_message(
                    receiver,
                    token_id,
                    uri,
                    sender,
                );
                Ok((destination, payload))
            },
        }
    }

    /// Accepts an inbound message: decodes it, checks the claimed sender
    /// against the connected-contract mapping, records (or re-records)
    /// the token's origin, and mints one local unit to the decoded
    /// receiver. A message that does not decode, an unregistered or
    /// mismatched sender, and a token id other than the one the caller
    /// expects are all rejected the same way, with nothing minted.
    pub fn receive_cross_chain_message(
        state: &ProgramState,
        origins: &mut OriginLedger,
        units: &mut TokenUnits,
        connected: &ConnectedContracts,
        token_id: u64,
        message: Vec<u8>,
        zrc20: [u8; 20],
        claimed_sender: [u8; 20],
        mint: [u8; 32],
        now: i64,
    ) -> (r: Result<(), ErrorCode>)
        requires
            old(origins).wf(),
            old(units).wf(),
            connected.wf(),
        ensures
            final(origins).wf(),
            final(units).wf(),
            state.paused ==> r == Err::<(), ErrorCode>(ErrorCode::ProgramPaused) && final(origins)@
                == old(origins)@ && final(units)@ == old(units)@,
            !state.paused && !receive_accepted(
                message@,
                connected@,
                zrc20@,
                claimed_sender@,
                token_id,
            ) ==> r == Err::<(), ErrorCode>(ErrorCode::InvalidCrossChainMessage) && final(origins)@
                == old(origins)@ && final(units)@ == old(units)@,
            !state.paused && receive_accepted(
                message@,
                connected@,
                zrc20@,
                claimed_sender@,
                token_id,
            ) ==> ({
                let dec = spec_decode(message@)->Ok_0;
                &&& r is Ok
                &&& final(units)@ == old(units)@.insert(token_id, widen_addr(dec.1))
                &&& final(origins)@.contains_key(token_id)
                &&& final(origins)@[token_id].token_id == token_id
                &&& final(origins)@[token_id].metadata_uri@ == dec.3
                &&& final(origins)@[token_id].mint == mint
                &&& (old(origins)@.contains_key(token_id) ==> final(origins)@[token_id].origin_chain
                    == old(origins)@[token_id].origin_chain
                    && final(origins)@[token_id].origin_token_id
                    == old(origins)@[token_id].origin_token_id
                    && final(origins)@[token_id].created_at == old(origins)@[token_id].created_at)
                &&& (!old(origins)@.contains_key(token_id) ==> final(origins)@[token_id].origin_chain == CHAIN_ID_ZETACHAIN_TESTNET && final(origins)@[token_id].origin_token_id == token_id && final(origins)@[token_id].created_at
                    == now)
                &&& final(origins)@.remove(token_id) == old(origins)@.remove(token_id)
            }),
    {
        if state.paused {
            return Err(ErrorCode::ProgramPaused);
        }
        match UniversalNFTCoreImpl::decode_cross_chain_message(message.as_slice()) {
            Err(_) => Err(ErrorCode::InvalidCrossChainMessage),
            Ok((_destination, receiver, decoded_token_id, uri, _sender)) => {
                if !connected.is_authorized_sender(&zrc20, &claimed_sender) {
                    return Err(ErrorCode::InvalidCrossChainMessage);
                }
                if decoded_token_id != token_id {
                    return Err(ErrorCode::InvalidCrossChainMessage);
                }
                origins.upsert_from_receive(
                    token_id,
                    uri,
                    mint,
                    CHAIN_ID_ZETACHAIN_TESTNET,
                    token_id,
                    now,
                );
                let holder = widen_addr20(&receiver);
                units.mint_unit(token_id, holder);
                Ok(())
            },
        }
    }

    /// Compensates a transfer the gateway reports as reverted: re-mints
    /// the unit to the message's original sender and restores the URI on
    /// the token's record. A payload that is malformed, or that names a
    /// token with no record here, makes the rollback a no-op rather than
    /// a failure.
    pub fn on_revert(
        origins: &mut OriginLedger,
        units: &mut TokenUnits,
        context: RevertContext,
    ) -> (r: Result<(), ErrorCode>)
        requires
            old(origins).wf(),
            old(units).wf(),
        ensures
            final(origins).wf(),
            final(units).wf(),
            r is Ok,
            !rollback_applies(context.revert_message@, old(origins)@) ==> final(origins)@ == old(origins)@ && final(units)@ == old(units)@,
            rollback_applies(context.revert_message@, old(origins)@) ==> ({
                let dec = spec_decode(context.revert_message@)->Ok_0;
                &&& final(units)@ == old(units)@.insert(dec.2, widen_addr(dec.4))
                &&& final(origins)@.contains_key(dec.2)
                &&& final(origins)@[dec.2].metadata_uri@ == dec.3
                &&& final(origins)@[dec.2].mint == old(origins)@[dec.2].mint
                &&& final(origins)@[dec.2].origin_chain == old(origins)@[dec.2].origin_chain
                &&& final(origins)@[dec.2].origin_token_id == old(origins)@[dec.2].origin_token_id
                &&& final(origins)@[dec.2].created_at == old(origins)@[dec.2].created_at
                &&& final(origins)@.remove(dec.2) == old(origins)@.remove(dec.2)
            }),
    {
        Self::rollback(origins, units, &context.revert_message)
    }

    /// Compensates a transfer the gateway reports as aborted, the same
    /// way `on_revert` does.
    pub fn on_abort(
        origins: &mut OriginLedger,
        units: &mut TokenUnits,
        context: AbortContext,
    ) -> (r: Result<(), ErrorCode>)
        requires
            old(origins).wf(),
            old(units).wf(),
        ensures
            final(origins).wf(),
            final(units).wf(),
            r is Ok,
            !rollback_applies(context.revert_message@, old(origins)@) ==> final(origins)@ == old(origins)@ && final(units)@ == old(units)@,
            rollback_applies(context.revert_message@, old(origins)@) ==> ({
                let dec = spec_decode(context.revert_message@)->Ok_0;
                &&& final(units)@ == old(units)@.insert(dec.2, widen_addr(dec.4))
                &&& final(origins)@.contains_key(dec.2)
                &&& final(origins)@[dec.2].metadata_uri@ == dec.3
                &&& final(origins)@[dec.2].mint == old(origins)@[dec.2].mint
                &&& final(origins)@[dec.2].origin_chain == old(origins)@[dec.2].origin_chain
                &&& final(origins)@[dec.2].origin_token_id == old(origins)@[dec.2].origin_token_id
                &&& final(origins)@[dec.2].created_at == old(origins)@[dec.2].created_at
                &&& final(origins)@.remove(dec.2) == old(origins)@.remove(dec.2)
            }),
    {
        Self::rollback(origins, units, &context.revert_message)
    }

    /// The shared compensation step of `on_revert` and `on_abort`.
    fn rollback(origins: &mut OriginLedger, units: &mut TokenUnits, payload: &Vec<u8>) -> (r:
        Result<(), ErrorCode>)
        requires
            old(origins).wf(),
            old(units).wf(),
        ensures
            final(origins).wf(),
            final(units).wf(),
            r is Ok,
            !rollback_applies(payload@, old(origins)@) ==> final(origins)@ == old(origins)@ && final(units)@ == old(units)@,
            rollback_applies(payload@, old(origins)@) ==> ({
                let dec = spec_decode(payload@)->Ok_0;
                &&& final(units)@ == old(units)@.insert(dec.2, widen_addr(dec.4))
                &&& final(origins)@.contains_key(dec.2)
                &&& final(origins)@[dec.2].metadata_uri@ == dec.3
                &&& final(origins)@[dec.2].mint == old(origins)@[dec.2].mint
                &&& final(origins)@[dec.2].origin_chain == old(origins)@[dec.2].origin_chain
                &&& final(origins)@[dec.2].origin_token_id == old(origins)@[dec.2].origin_token_id
                &&& final(origins)@[dec.2].created_at == old(origins)@[dec.2].created_at
                &&& final(origins)@.remove(dec.2) == old(origins)@.remove(dec.2)
            }),
    {
        match UniversalNFTCoreImpl::decode_cross_chain_message(payload.as_slice()) {
            Err(_) => Ok(()),
            Ok((_destination, _receiver, token_id, uri, sender)) => {
                let has_record = match origins.get(token_id) {
                    Some(_) => true,
                    None => false,
                };
                if !has_record {
                    return Ok(());
                }
                origins.set_metadata_uri(token_id, uri);
                let holder = widen_addr20(&sender);
                units.mint_unit(token_id, holder);
                Ok(())
            },
        }
    }

    /// Points the program at a new gateway (owner only).
    pub fn set_gateway(state: &mut ProgramState, admin: &[u8; 32], gateway: [u8; 32]) -> (r: Result<
        (),
        ErrorCode,
    >)
        ensures
            admin@ == old(state).owner@ ==> r == Ok::<(), ErrorCode>(()) && *final(state) == (
            ProgramState { gateway, ..*old(state) }),
            admin@ != old(state).owner@ ==> r == Err::<(), ErrorCode>(ErrorCode::Unauthorized)
                && *final(state) == *old(state),
    {
        if bytes32_eq(admin, &state.owner) {
            state.gateway = gateway;
            Ok(())
        } else {
            Err(ErrorCode::Unauthorized)
        }
    }

    /// Sets the gas limit for outbound relays (owner only); zero is
    /// rejected.
    pub fn set_gas_limit(state: &mut ProgramState, admin: &[u8; 32], gas_limit: u64) -> (r: Result<
        (),
        UniversalNFTCoreError,
    >)
        ensures
            admin@ != old(state).owner@ ==> r == Err::<(), UniversalNFTCoreError>(
                UniversalNFTCoreError::Unauthorized,
            ) && *final(state) == *old(state),
            admin@ == old(state).owner@ && gas_limit == 0 ==> r == Err::<(), UniversalNFTCoreError>(
                UniversalNFTCoreError::InvalidGasLimit,
            ) && *final(state) == *old(state),
            admin@ == old(state).owner@ && gas_limit > 0 ==> r == Ok::<(), UniversalNFTCoreError>(())
                && *final(state) == (ProgramState { gas_limit, ..*old(state) }),
    {
        if !bytes32_eq(admin, &state.owner) {
            return Err(UniversalNFTCoreError::Unauthorized);
        }
        if gas_limit == 0 {
            return Err(UniversalNFTCoreError::InvalidGasLimit);
        }
        state.gas_limit = gas_limit;
        Ok(())
    }

    /// Registers the counterpart contract for a gas-token identity
    /// (owner only); an empty contract address is rejected.
    pub fn set_connected_contract(
        state: &ProgramState,
        connected: &mut ConnectedContracts,
        admin: &[u8; 32],
        zrc20: [u8; 20],
        contract_address: Vec<u8>,
    ) -> (r: Result<(), UniversalNFTCoreError>)
        requires
            old(connected).wf(),
        ensures
            final(connected).wf(),
            admin@ != state.owner@ ==> r == Err::<(), UniversalNFTCoreError>(
                UniversalNFTCoreError::Unauthorized,
            ) && final(connected)@ == old(connected)@,
            admin@ == state.owner@ && contract_address@.len() == 0 ==> r == Err::<
                (),
                UniversalNFTCoreError,
            >(UniversalNFTCoreError::InvalidDestination) && final(connected)@ == old(connected)@,
            admin@ == state.owner@ && contract_address@.len() > 0 ==> r == Ok::<
                (),
                UniversalNFTCoreError,
            >(()) && final(connected)@ == old(connected)@.insert(zrc20@, contract_address@),
    {
        if !bytes32_eq(admin, &state.owner) {
            return Err(UniversalNFTCoreError::Unauthorized);
        }
        if contract_address.len() == 0 {
            return Err(UniversalNFTCoreError::InvalidDestination);
        }
        connected.set_connected(zrc20, contract_address);
        Ok(())
    }

    /// Pauses every protocol-mutating entry point (owner only).
    pub fn pause(state: &mut ProgramState, admin: &[u8; 32]) -> (r: Result<(), ErrorCode>)
        ensures
            admin@ == old(state).owner@ ==> r == Ok::<(), ErrorCode>(()) && *final(state) == (
            ProgramState { paused: true, ..*old(state) }),
            admin@ != old(state).owner@ ==> r == Err::<(), ErrorCode>(ErrorCode::Unauthorized)
                && *final(state) == *old(state),
    {
        if bytes32_eq(admin, &state.owner) {
            state.paused = true;
            Ok(())
        } else {
            Err(ErrorCode::Unauthorized)
        }
    }

    /// Lifts the pause (owner only).
    pub fn unpause(state: &mut ProgramState, admin: &[u8; 32]) -> (r: Result<(), ErrorCode>)
        ensures
            admin@ == old(state).owner@ ==> r == Ok::<(), ErrorCode>(()) && *final(state) == (
            ProgramState { paused: false, ..*old(state) }),
            admin@ != old(state).owner@ ==> r == Err::<(), ErrorCode>(ErrorCode::Unauthorized)
                && *final(state) == *old(state),
    {
        if bytes32_eq(admin, &state.owner) {
            state.paused = false;
            Ok(())
        } else {
            Err(ErrorCode::Unauthorized)
        }
    }

    /// Points the program at its counterpart contract (owner only).
    pub fn set_universal_nft_contract(
        state: &mut ProgramState,
        admin: &[u8; 32],
        universal_nft_contract: [u8; 20],
    ) -> (r: Result<(), ErrorCode>)
        ensures
            admin@ == old(state).owner@ ==> r == Ok::<(), ErrorCode>(()) && *final(state) == (
            ProgramState { universal_nft_contract, ..*old(state) }),
            admin@ != old(state).owner@ ==> r == Err::<(), ErrorCode>(ErrorCode::Unauthorized)
                && *final(state) == *old(state),
    {
        if bytes32_eq(admin, &state.owner) {
            state.universal_nft_contract = universal_nft_contract;
            Ok(())
        } else {
            Err(ErrorCode::Unauthorized)
        }
    }

    /// Fills the fields a pre-upgrade state lacks: a zero gas limit
    /// marks the old layout and gets the defaults; a state already
    /// carrying a gas limit is left alone.
    pub fn migrate_program_state(state: &mut ProgramState) -> (r: Result<(), ErrorCode>)
        ensures
            r is Ok,
            old(state).gas_limit != 0 ==> *final(state) == *old(state),
            old(state).gas_limit == 0 ==> final(state).gas_limit == 1000000 && final(state).uniswap_router@ == zero_bytes(32) && final(state).owner == old(state).owner && final(state).gateway == old(state).gateway && final(state).universal_nft_contract == old(state).universal_nft_contract && final(state).next_token_id == old(state).next_token_id
                && final(state).paused == old(state).paused,
    {
        if state.gas_limit == 0 {
            state.gas_limit = 1000000;
            let router = [0u8; 32];
            proof {
                assert(router@ =~= zero_bytes(32));
            }
            state.uniswap_router = router;
        }
        Ok(())
    }
}

} // verus!
