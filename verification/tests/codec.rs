//! Tests of the wire codec: exact layout, round trips at the padding
//! boundaries, truncated and garbage buffers, and UTF-8 handling.

use universal_nft::universal_nft_core::{UniversalNFTCoreError, UniversalNFTCoreImpl};

fn encode(receiver: [u8; 20], token_id: u64, uri: &str, sender: [u8; 20]) -> Vec<u8> {
    UniversalNFTCoreImpl::encode_cross_chain_message(receiver, token_id, uri.to_string(), sender)
}

#[test]
fn encode_exact_layout() {
    let receiver = [0x11u8; 20];
    let sender = [0x22u8; 20];
    let m = encode(receiver, 0x0102030405060708, "ipfs://a", sender);
    // five 32-byte header words, one length word, 8 URI bytes, 24 padding
    assert_eq!(m.len(), 224);
    // word 0: the zero destination address
    assert!(m[0..32].iter().all(|&b| b == 0));
    // word 1: 12 zero bytes, then the receiver
    assert!(m[32..44].iter().all(|&b| b == 0));
    assert_eq!(&m[44..64], &receiver[..]);
    // word 2: the token id, right-justified big-endian
    assert!(m[64..88].iter().all(|&b| b == 0));
    assert_eq!(&m[88..96], &[1, 2, 3, 4, 5, 6, 7, 8]);
    // word 3: the URI offset, fixed at 160
    assert!(m[96..127].iter().all(|&b| b == 0));
    assert_eq!(m[127], 160);
    // word 4: 12 zero bytes, then the sender
    assert!(m[128..140].iter().all(|&b| b == 0));
    assert_eq!(&m[140..160], &sender[..]);
    // the URI section: a 32-byte length, the bytes, zero padding
    assert!(m[160..191].iter().all(|&b| b == 0));
    assert_eq!(m[191], 8);
    assert_eq!(&m[192..200], b"ipfs://a");
    assert!(m[200..224].iter().all(|&b| b == 0));
}

#[test]
fn encode_empty_uri_has_no_padding() {
    let m = encode([0u8; 20], 0, "", [0u8; 20]);
    assert_eq!(m.len(), 192);
    assert_eq!(m[191], 0);
}

#[test]
fn round_trip_at_padding_boundaries() {
    // zero, sub-word, exact-word and multi-word URI lengths
    for n in [0usize, 1, 31, 32, 33, 500] {
        let uri: String = "a".repeat(n);
        let receiver = [0xABu8; 20];
        let sender = [0xCDu8; 20];
        let token_id = 0xDEADBEEFu64;
        let m = encode(receiver, token_id, &uri, sender);
        assert_eq!(m.len() % 32, 0, "length not word-aligned for n={}", n);
        let (dest, r, t, u, s) =
            UniversalNFTCoreImpl::decode_cross_chain_message(&m).expect("round trip failed");
        assert_eq!(dest, [0u8; 20]);
        assert_eq!(r, receiver);
        assert_eq!(t, token_id);
        assert_eq!(u, uri);
        assert_eq!(s, sender);
    }
}

#[test]
fn round_trip_non_ascii_uri() {
    let uri = "ipfs://caf\u{e9}-\u{2295}";
    let m = encode([7u8; 20], 42, uri, [9u8; 20]);
    let (_, _, t, u, _) = UniversalNFTCoreImpl::decode_cross_chain_message(&m).unwrap();
    assert_eq!(t, 42);
    assert_eq!(u, uri);
}

#[test]
fn decode_short_buffer_is_format_error() {
    for n in 0..160usize {
        let m = vec![0u8; n];
        assert_eq!(
            UniversalNFTCoreImpl::decode_cross_chain_message(&m),
            Err(UniversalNFTCoreError::InvalidMessageFormat),
            "length {}",
            n
        );
    }
}

#[test]
fn decode_never_panics_on_garbage() {
    // deterministic pseudo-random buffers of every length up to 200
    let mut seed: u64 = 0x5DEECE66D;
    for n in 0..=200usize {
        let mut m = vec![0u8; n];
        for b in m.iter_mut() {
            seed = seed.wrapping_mul(6364136223846793005).wrapping_add(1442695040888963407);
            *b = (seed >> 56) as u8;
        }
        // must return, never read out of bounds; any Ok is well-formed
        if let Ok((_, _, _, u, _)) = UniversalNFTCoreImpl::decode_cross_chain_message(&m) {
            assert!(u.len() <= n);
        }
    }
}

#[test]
fn decode_all_ones_is_format_error() {
    let m = vec![0xFFu8; 200];
    assert_eq!(
        UniversalNFTCoreImpl::decode_cross_chain_message(&m),
        Err(UniversalNFTCoreError::InvalidMessageFormat)
    );
}

#[test]
fn decode_truncated_message_is_format_error() {
    let full = encode([1u8; 20], 7, &"x".repeat(40), [2u8; 20]);
    // cutting anywhere inside the declared URI bytes loses data
    for cut in 160..232usize {
        let m = &full[..cut];
        assert_eq!(
            UniversalNFTCoreImpl::decode_cross_chain_message(m),
            Err(UniversalNFTCoreError::InvalidMessageFormat),
            "cut {}",
            cut
        );
    }
}

#[test]
fn decode_offset_past_end_is_format_error() {
    let mut m = vec![0u8; 192];
    // offset = 161: the length word would cross the end
    m[126] = 0;
    m[127] = 161;
    assert_eq!(
        UniversalNFTCoreImpl::decode_cross_chain_message(&m),
        Err(UniversalNFTCoreError::InvalidMessageFormat)
    );
}

#[test]
fn decode_huge_offset_word_is_format_error() {
    let mut m = vec![0u8; 192];
    // a nonzero byte in the high part of the offset word: 2^64 or more
    m[96] = 1;
    assert_eq!(
        UniversalNFTCoreImpl::decode_cross_chain_message(&m),
        Err(UniversalNFTCoreError::InvalidMessageFormat)
    );
}

#[test]
fn decode_uri_length_past_end_is_format_error() {
    let mut m = vec![0u8; 224];
    m[127] = 160;
    // declared URI length 33, but only 32 bytes follow the length word
    m[191] = 33;
    assert_eq!(
        UniversalNFTCoreImpl::decode_cross_chain_message(&m),
        Err(UniversalNFTCoreError::InvalidMessageFormat)
    );
}

#[test]
fn decode_huge_uri_length_word_is_format_error() {
    let mut m = vec![0u8; 224];
    m[127] = 160;
    // a nonzero byte in the high part of the length word
    m[160] = 0xFF;
    assert_eq!(
        UniversalNFTCoreImpl::decode_cross_chain_message(&m),
        Err(UniversalNFTCoreError::InvalidMessageFormat)
    );
}

#[test]
fn decode_invalid_utf8_is_uri_error() {
    let mut m = vec![0u8; 224];
    m[127] = 160;
    m[191] = 1;
    m[192] = 0xFF; // not valid UTF-8
    assert_eq!(
        UniversalNFTCoreImpl::decode_cross_chain_message(&m),
        Err(UniversalNFTCoreError::InvalidUriEncoding)
    );
}

#[test]
fn decode_tolerates_high_token_id_bytes() {
    // bytes above the low eight of the token-id word are not inspected
    let mut m = encode([1u8; 20], 5, "q", [2u8; 20]);
    m[64] = 0xFF;
    let (_, _, t, _, _) = UniversalNFTCoreImpl::decode_cross_chain_message(&m).unwrap();
    assert_eq!(t, 5);
}

#[test]
fn decode_reads_declared_offset() {
    // a message whose URI section sits past extra slack after the header
    let mut m = vec![0u8; 256];
    m[127] = 192; // offset
    m[11 + 12] = 0; // destination stays zero
    m[88..96].copy_from_slice(&9u64.to_be_bytes());
    m[192 + 31] = 2; // length 2 at offset 192
    m[224] = b'h';
    m[225] = b'i';
    let (_, _, t, u, _) = UniversalNFTCoreImpl::decode_cross_chain_message(&m).unwrap();
    assert_eq!(t, 9);
    assert_eq!(u, "hi");
}
