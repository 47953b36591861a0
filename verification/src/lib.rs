//! Cross-chain NFT transfer protocol core.
//!
//! An NFT minted on one chain is moved to another by burning the local
//! fungible unit that represents it, encoding a self-describing message,
//! relaying the bytes through an external gateway, and minting an
//! equivalent unit where the message arrives. This crate holds the
//! verified protocol logic: the binary message codec, the per-token
//! origin ledger, the token-id policy, and the state machine that
//! orders mint, burn, relay, receive and rollback. The host environment
//! supplies storage, the gateway transport, and all-or-nothing
//! transaction semantics around each operation.
//!
//! Identities are plain byte arrays: a 32-byte local account address and
//! a 20-byte remote (EVM-style) address.

use vstd::prelude::*;

pub mod ledger;
pub mod universal_nft;
pub mod universal_nft_core;
pub mod words;

verus! {

pub const CHAIN_ID_SOLANA_DEVNET: u64 = 901;

pub const CHAIN_ID_ZETACHAIN_TESTNET: u64 = 7001;

pub const CHAIN_ID_ETHEREUM_SEPOLIA: u64 = 11155111;

pub const CHAIN_ID_BSC_TESTNET: u64 = 97;

pub const CHAIN_ID_POLYGON_AMOY: u64 = 80002;

pub const CHAIN_ID_ARBITRUM_SEPOLIA: u64 = 421614;

pub const CHAIN_ID_BITCOIN_TESTNET: u64 = 18332;

pub const CHAIN_ID_SOLANA: u64 = 0;

pub const ZETA_CHAIN_ID: u64 = 7001;

pub const ZETA_MAINNET_ID: u64 = 7000;

/// The human-readable name of a known chain id; unknown ids map to a
/// sentinel. Used for diagnostics only, never for control flow.
pub open spec fn spec_chain_name(chain_id: u64) -> Seq<char> {
    if chain_id == CHAIN_ID_SOLANA_DEVNET {
        "Solana Devnet"@
    } else if chain_id == CHAIN_ID_ZETACHAIN_TESTNET {
        "ZetaChain Testnet (Athens)"@
    } else if chain_id == CHAIN_ID_ETHEREUM_SEPOLIA {
        "Ethereum Sepolia Testnet"@
    } else if chain_id == CHAIN_ID_BSC_TESTNET {
        "BSC Testnet"@
    } else if chain_id == CHAIN_ID_POLYGON_AMOY {
        "Polygon Amoy Testnet"@
    } else if chain_id == CHAIN_ID_ARBITRUM_SEPOLIA {
        "Arbitrum Sepolia Testnet"@
    } else if chain_id == CHAIN_ID_BITCOIN_TESTNET {
        "Bitcoin Testnet"@
    } else if chain_id == CHAIN_ID_SOLANA {
        "Solana Mainnet"@
    } else {
        "Unknown Chain"@
    }
}

pub fn get_chain_name(chain_id: u64) -> (r: &'static str)
    ensures
        r@ == spec_chain_name(chain_id),
{
    if chain_id == CHAIN_ID_SOLANA_DEVNET {
        "Solana Devnet"
    } else if chain_id == CHAIN_ID_ZETACHAIN_TESTNET {
        "ZetaChain Testnet (Athens)"
    } else if chain_id == CHAIN_ID_ETHEREUM_SEPOLIA {
        "Ethereum Sepolia Testnet"
    } else if chain_id == CHAIN_ID_BSC_TESTNET {
        "BSC Testnet"
    } else if chain_id == CHAIN_ID_POLYGON_AMOY {
        "Polygon Amoy Testnet"
    } else if chain_id == CHAIN_ID_ARBITRUM_SEPOLIA {
        "Arbitrum Sepolia Testnet"
    } else if chain_id == CHAIN_ID_BITCOIN_TESTNET {
        "Bitcoin Testnet"
    } else if chain_id == CHAIN_ID_SOLANA {
        "Solana Mainnet"
    } else {
        "Unknown Chain"
    }
}

/// The fixed prefix of a per-token storage seed.
pub open spec fn nft_origin_tag() -> Seq<u8> {
    // the ASCII bytes of "nft_origin"
    seq![0x6eu8, 0x66, 0x74, 0x5f, 0x6f, 0x72, 0x69, 0x67, 0x69, 0x6e]
}

/// The storage seed of a token's origin record: a fixed tag followed by
/// the token id in little-endian bytes.
pub fn nft_origin_seed(token_id: u64) -> (seed: Vec<u8>)
    ensures
        seed@ == nft_origin_tag() + vstd::bytes::spec_u64_to_le_bytes(token_id),
{
    let mut seed: Vec<u8> = Vec::new();
    seed.push(0x6eu8);
    seed.push(0x66);
    seed.push(0x74);
    seed.push(0x5f);
    seed.push(0x6f);
    seed.push(0x72);
    seed.push(0x69);
    seed.push(0x67);
    seed.push(0x69);
    seed.push(0x6e);
    proof {
        assert(seed@ =~= nft_origin_tag());
    }
    let mut id_bytes = vstd::bytes::u64_to_le_bytes(token_id);
    seed.append(&mut id_bytes);
    seed
}

/// The sequential token-id policy: the next id is the counter itself.
/// The backing mint's identity takes no part in the derivation.
pub fn generate_token_id(mint: &[u8; 32], next_token_id: u64) -> (r: u64)
    ensures
        r == next_token_id,
{
    next_token_id
}

/// Process-wide program configuration and counters. `next_token_id`
/// never decreases: only a successful mint moves it, by exactly one.
#[derive(Clone, Copy)]
pub struct ProgramState {
    pub owner: [u8; 32],
    pub gateway: [u8; 32],
    pub universal_nft_contract: [u8; 20],
    pub next_token_id: u64,
    pub paused: bool,
    pub gas_limit: u64,
    pub uniswap_router: [u8; 32],
}

/// The provenance record of one token: where the asset was first
/// created, and the local mint that represents it now. `origin_chain`
/// and `origin_token_id` never change after the record is created.
#[derive(Clone)]
pub struct NFTOrigin {
    pub token_id: u64,
    pub origin_chain: u64,
    pub origin_token_id: u64,
    pub metadata_uri: String,
    pub mint: [u8; 32],
    pub created_at: i64,
}

/// Errors of the program's entry points.
#[derive(Clone, Copy, Debug, PartialEq, Eq, Structural)]
pub enum ErrorCode {
    ProgramPaused,
    Unauthorized,
    InvalidCrossChainMessage,
    NFTOriginNotFound,
    InsufficientTokens,
    TokenIdOverflow,
    NextTokenIdMismatch,
    TokenIdAlreadyExists,
}

} // verus!
