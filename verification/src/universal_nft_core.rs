//! The cross-chain message codec and its wire-level core types.
//!
//! The payload is big-endian and word-aligned on 32-byte words:
//!
//! - word 0: 12 zero bytes, then the 20-byte destination address;
//! - word 1: 12 zero bytes, then the 20-byte receiver address;
//! - word 2: the token id, right-justified in a 32-byte unsigned integer;
//! - word 3: the byte offset of the dynamic URI section (160 for this
//!   five-word header), as a 32-byte unsigned integer;
//! - word 4: 12 zero bytes, then the 20-byte sender address;
//! - at the offset: a 32-byte byte length, the raw UTF-8 bytes of the
//!   URI, and zero padding up to the next 32-byte boundary.
//!
//! Decoding is total: every input either decodes or yields a typed
//! error, and no read ever goes past the end of the buffer.

use vstd::prelude::*;

use crate::words::{
    be_bytes, be_val, lemma_be_bytes_len, lemma_be_val_append, lemma_be_val_bound,
    lemma_be_val_of_be_bytes, lemma_be_val_zero, lemma_pow256_values, lemma_word_val,
    push_be_bytes, push_bytes, push_zero_bytes, range_all_zero, read_be_u64, zero_bytes,
};
use vstd::array::ArrayAdditionalExecFns;
use vstd::string::StringSliceAdditionalSpecFns;
use vstd::utf8::{decode_utf8, encode_utf8, encode_utf8_decode_utf8, encode_utf8_valid_utf8,
    valid_utf8};

verus! {

/// Errors of the protocol core. Decoding reports `InvalidMessageFormat`
/// for any out-of-bounds or truncated layout and `InvalidUriEncoding`
/// for URI bytes that are not valid UTF-8.
#[derive(Clone, Copy, Debug, PartialEq, Eq, Structural)]
pub enum UniversalNFTCoreError {
    InvalidCrossChainMessage,
    UnauthorizedSender,
    Unauthorized,
    InvalidDestination,
    TransferFailed,
    InvalidGasLimit,
    InvalidAddress,
    InvalidUriEncoding,
    InvalidMessageFormat,
    InvalidAmount,
    GatewayCallFailed,
}

/// Context delivered by the gateway when a relayed transfer reverts on
/// the destination chain.
pub struct RevertContext {
    pub asset: [u8; 20],
    pub amount: u64,
    pub revert_message: Vec<u8>,
}

/// Context delivered by the gateway when a relayed transfer is aborted
/// before reaching the destination chain.
pub struct AbortContext {
    pub outgoing: [u8; 20],
    pub asset: [u8; 20],
    pub amount: u64,
    pub revert_message: Vec<u8>,
}

/// One entry of the connected-contract mapping: the 20-byte gas-token
/// identity of a chain, and the contract registered for it there.
#[derive(Clone)]
pub struct ConnectedContract {
    pub zrc20: [u8; 20],
    pub contract_address: Vec<u8>,
}

/// An address, padded left with zeros into a 32-byte word.
pub open spec fn addr_word(a: Seq<u8>) -> Seq<u8> {
    zero_bytes(12) + a
}

/// A u64, right-justified in a 32-byte big-endian word.
pub open spec fn u64_word(x: u64) -> Seq<u8> {
    zero_bytes(24) + be_bytes(x as nat, 8)
}

/// Zero padding that rounds a URI of n bytes up to a whole word.
pub open spec fn uri_padding(n: nat) -> nat {
    ((32 - n % 32) % 32) as nat
}

/// The encoded message for `(receiver, token_id, uri, sender)`. The
/// destination word of an outbound message is the zero address.
pub open spec fn spec_encode(
    receiver: Seq<u8>,
    token_id: u64,
    uri: Seq<char>,
    sender: Seq<u8>,
) -> Seq<u8> {
    let ub = encode_utf8(uri);
    addr_word(zero_bytes(20)) + addr_word(receiver) + u64_word(token_id) + u64_word(160)
        + addr_word(sender) + u64_word(ub.len() as u64) + ub + zero_bytes(uri_padding(ub.len()))
}

/// The decoded reading of a message: its five fields, or the error.
/// A buffer shorter than the five-word header, a URI offset or length
/// that would read past the end, and URI bytes that are not UTF-8 are
/// the only failures; trailing bytes and padding are not inspected.
pub open spec fn spec_decode(m: Seq<u8>) -> Result<
    (Seq<u8>, Seq<u8>, u64, Seq<char>, Seq<u8>),
    UniversalNFTCoreError,
> {
    if m.len() < 160 {
        Err(UniversalNFTCoreError::InvalidMessageFormat)
    } else {
        let off = be_val(m.subrange(96, 128)) as int;
        if off + 32 > m.len() {
            Err(UniversalNFTCoreError::InvalidMessageFormat)
        } else {
            let ulen = be_val(m.subrange(off, off + 32)) as int;
            if off + 32 + ulen > m.len() {
                Err(UniversalNFTCoreError::InvalidMessageFormat)
            } else {
                let ub = m.subrange(off + 32, off + 32 + ulen);
                if !valid_utf8(ub) {
                    Err(UniversalNFTCoreError::InvalidUriEncoding)
                } else {
                    Ok(
                        (
                            m.subrange(12, 32),
                            m.subrange(44, 64),
                            be_val(m.subrange(88, 96)) as u64,
                            decode_utf8(ub),
                            m.subrange(140, 160),
                        ),
                    )
                }
            }
        }
    }
}

/// Relies on String::from_utf8: it returns Ok exactly when the bytes
/// are a valid UTF-8 encoding, and the returned string is their
/// decoding.
#[verifier::external_body]
fn string_from_utf8(bytes: Vec<u8>) -> (r: Option<String>)
    ensures
        r is Some <==> valid_utf8(bytes@),
        r is Some ==> r->Some_0@ == decode_utf8(bytes@),
{
    String::from_utf8(bytes).ok()
}

/// Appends the 20 bytes of an address.
fn push_addr20(out: &mut Vec<u8>, a: &[u8; 20])
    ensures
        final(out)@ == old(out)@ + a@,
{
    let mut i: usize = 0;
    proof {
        assert(out@ =~= out@ + a@.take(0));
    }
    while i < 20
        invariant
            i <= 20,
            out@ == old(out)@ + a@.take(i as int),
        decreases 20 - i,
    {
        out.push(a[i]);
        proof {
            assert(old(out)@ + a@.take(i as int) + seq![a@[i as int]] =~= old(out)@ + a@.take(
                i + 1,
            ));
        }
        i = i + 1;
    }
    proof {
        assert(a@.take(20) =~= a@);
    }
}

/// Copies the 20 bytes at `at` into an address.
fn read_addr20(m: &[u8], at: usize) -> (a: [u8; 20])
    requires
        at + 20 <= m@.len(),
    ensures
        a@ == m@.subrange(at as int, at as int + 20),
{
    let mut a = [0u8; 20];
    let mlen: usize = m.len();
    let mut i: usize = 0;
    while i < 20
        invariant
            i <= 20,
            at + 20 <= m@.len(),
            mlen == m@.len(),
            a@.len() == 20,
            forall|j: int| 0 <= j < i ==> a@[j] == m@[at + j],
        decreases 20 - i,
    {
        a[i] = m[at + i];
        i = i + 1;
    }
    proof {
        assert(a@ =~= m@.subrange(at as int, at as int + 20));
    }
    a
}

/// The protocol core: the message codec.
pub struct UniversalNFTCoreImpl;

impl UniversalNFTCoreImpl {
    /// Encodes a cross-chain transfer message. The destination word is
    /// the zero address; the URI section starts at the fixed offset 160.
    pub fn encode_cross_chain_message(
        receiver: [u8; 20],
        token_id: u64,
        uri: String,
        sender: [u8; 20],
    ) -> (r: Vec<u8>)
        ensures
            r@ == spec_encode(receiver@, token_id, uri@, sender@),
            r@.len() % 32 == 0,
    {
        let ghost g_ub = encode_utf8(uri@);
        let mut out: Vec<u8> = Vec::new();
        // word 0: destination (zero for an outbound message)
        push_zero_bytes(&mut out, 32);
        proof {
            assert(zero_bytes(32) =~= addr_word(zero_bytes(20)));
            assert(Seq::<u8>::empty() + addr_word(zero_bytes(20)) =~= addr_word(zero_bytes(20)));
        }
        // word 1: receiver
        push_zero_bytes(&mut out, 12);
        push_addr20(&mut out, &receiver);
        proof {
            assert(addr_word(zero_bytes(20)) + zero_bytes(12) + receiver@ =~= addr_word(
                zero_bytes(20),
            ) + addr_word(receiver@));
        }
        // word 2: token id
        push_zero_bytes(&mut out, 24);
        push_be_bytes(&mut out, token_id, 8);
        proof {
            let p = addr_word(zero_bytes(20)) + addr_word(receiver@);
            assert(p + zero_bytes(24) + be_bytes(token_id as nat, 8) =~= p + u64_word(token_id));
        }
        // word 3: offset of the URI section
        push_zero_bytes(&mut out, 24);
        push_be_bytes(&mut out, 160, 8);
        proof {
            let p = addr_word(zero_bytes(20)) + addr_word(receiver@) + u64_word(token_id);
            assert(p + zero_bytes(24) + be_bytes(160 as nat, 8) =~= p + u64_word(160));
        }
        // word 4: sender
        push_zero_bytes(&mut out, 12);
        push_addr20(&mut out, &sender);
        proof {
            let p = addr_word(zero_bytes(20)) + addr_word(receiver@) + u64_word(token_id)
                + u64_word(160);
            assert(p + zero_bytes(12) + sender@ =~= p + addr_word(sender@));
        }
        // the URI section: length word, raw bytes, padding
        let ub: &[u8] = uri.as_str().as_bytes();
        let n: usize = ub.len();
        proof {
            assert(ub@ == g_ub);
        }
        push_zero_bytes(&mut out, 24);
        push_be_bytes(&mut out, n as u64, 8);
        proof {
            let p = addr_word(zero_bytes(20)) + addr_word(receiver@) + u64_word(token_id)
                + u64_word(160) + addr_word(sender@);
            assert((n as u64) as nat == g_ub.len());
            assert(p + zero_bytes(24) + be_bytes((n as u64) as nat, 8) =~= p + u64_word(
                g_ub.len() as u64,
            ));
        }
        push_bytes(&mut out, ub);
        let pad: usize = (32 - (n % 32)) % 32;
        push_zero_bytes(&mut out, pad);
        proof {
            assert(pad as nat == uri_padding(g_ub.len()));
            assert(out@ =~= spec_encode(receiver@, token_id, uri@, sender@));
            lemma_be_bytes_len(token_id as nat, 8);
            lemma_be_bytes_len(160 as nat, 8);
            lemma_be_bytes_len(g_ub.len(), 8);
            assert(out@.len() == 192 + g_ub.len() + uri_padding(g_ub.len()));
            assert((g_ub.len() + uri_padding(g_ub.len())) % 32 == 0) by (nonlinear_arith);
            assert(out@.len() % 32 == 0) by (nonlinear_arith)
                requires
                    out@.len() == 192 + g_ub.len() + uri_padding(g_ub.len()),
                    (g_ub.len() + uri_padding(g_ub.len())) % 32 == 0,
            ;
        }
        out
    }

    /// Decodes a message into `(destination, receiver, token_id, uri,
    /// sender)`. Total over all inputs: every read is bounds-checked
    /// first, and a malformed buffer yields a typed error, never a
    /// panic.
    pub fn decode_cross_chain_message(message: &[u8]) -> (r: Result<
        ([u8; 20], [u8; 20], u64, String, [u8; 20]),
        UniversalNFTCoreError,
    >)
        ensures
            (match (r, spec_decode(message@)) {
                (Ok(v), Ok(w)) => v.0@ == w.0 && v.1@ == w.1 && v.2 == w.2 && v.3@ == w.3
                    && v.4@ == w.4,
                (Err(e1), Err(e2)) => e1 == e2,
                _ => false,
            }),
    {
        let len: usize = message.len();
        if len < 160 {
            return Err(UniversalNFTCoreError::InvalidMessageFormat);
        }
        let ghost off_word = message@.subrange(96, 128);
        proof {
            assert(off_word.take(24) =~= message@.subrange(96, 120));
            assert(off_word.skip(24) =~= message@.subrange(120, 128));
            lemma_word_val(off_word);
        }
        if !range_all_zero(message, 96, 120) {
            // the declared offset is 2^64 or more: past the end of any buffer
            return Err(UniversalNFTCoreError::InvalidMessageFormat);
        }
        let off64: u64 = read_be_u64(message, 120);
        proof {
            assert(off64 == be_val(off_word));
        }
        if off64 > (len as u64) - 32 {
            return Err(UniversalNFTCoreError::InvalidMessageFormat);
        }
        let off: usize = off64 as usize;
        let ghost len_word = message@.subrange(off as int, off as int + 32);
        proof {
            assert(len_word.take(24) =~= message@.subrange(off as int, off as int + 24));
            assert(len_word.skip(24) =~= message@.subrange(off as int + 24, off as int + 32));
            lemma_word_val(len_word);
        }
        if !range_all_zero(message, off, off + 24) {
            // the declared URI length is 2^64 or more: past the end
            return Err(UniversalNFTCoreError::InvalidMessageFormat);
        }
        let ulen64: u64 = read_be_u64(message, off + 24);
        proof {
            assert(ulen64 == be_val(len_word));
        }
        if ulen64 > ((len - off) as u64) - 32 {
            return Err(UniversalNFTCoreError::InvalidMessageFormat);
        }
        let ulen: usize = ulen64 as usize;
        let start: usize = off + 32;
        let mut ub: Vec<u8> = Vec::new();
        let mut i: usize = 0;
        proof {
            assert(ub@ =~= message@.subrange(start as int, start as int));
        }
        while i < ulen
            invariant
                i <= ulen,
                start + ulen <= message@.len(),
                len == message@.len(),
                ub@ == message@.subrange(start as int, start as int + i),
            decreases ulen - i,
        {
            ub.push(message[start + i]);
            proof {
                assert(message@.subrange(start as int, start as int + i) + seq![
                    message@[start + i],
                ] =~= message@.subrange(start as int, start as int + i + 1));
            }
            i = i + 1;
        }
        let token_id: u64 = read_be_u64(message, 88);
        proof {
            lemma_be_val_bound(message@.subrange(88, 96));
            lemma_pow256_values();
        }
        let destination = read_addr20(message, 12);
        let receiver = read_addr20(message, 44);
        let sender = read_addr20(message, 140);
        match string_from_utf8(ub) {
            None => Err(UniversalNFTCoreError::InvalidUriEncoding),
            Some(uri) => Ok((destination, receiver, token_id, uri, sender)),
        }
    }
}

/// Decoding is total and fails only with a typed error: every buffer
/// either decodes or is rejected as malformed layout or as an invalid
/// URI encoding, and every buffer shorter than the five-word header is
/// rejected. (That no read goes past the buffer is part of the
/// decoder's verification itself: every index is proved in bounds.)
pub proof fn lemma_decode_total(m: Seq<u8>)
    ensures
        spec_decode(m) is Ok || spec_decode(m) == Err::<
            (Seq<u8>, Seq<u8>, u64, Seq<char>, Seq<u8>),
            UniversalNFTCoreError,
        >(UniversalNFTCoreError::InvalidMessageFormat) || spec_decode(m) == Err::<
            (Seq<u8>, Seq<u8>, u64, Seq<char>, Seq<u8>),
            UniversalNFTCoreError,
        >(UniversalNFTCoreError::InvalidUriEncoding),
        m.len() < 160 ==> spec_decode(m) == Err::<
            (Seq<u8>, Seq<u8>, u64, Seq<char>, Seq<u8>),
            UniversalNFTCoreError,
        >(UniversalNFTCoreError::InvalidMessageFormat),
{
}

/// The value of a u64 word is that u64.
proof fn lemma_u64_word_val(x: u64)
    ensures
        u64_word(x).len() == 32,
        be_val(u64_word(x)) == x,
{
    lemma_pow256_values();
    lemma_be_val_of_be_bytes(x as nat, 8);
    lemma_be_val_zero(zero_bytes(24));
    lemma_be_val_append(zero_bytes(24), be_bytes(x as nat, 8));
}

/// Round trip: decoding an encoded message recovers the receiver, the
/// token id, the URI and the sender exactly; the destination word of an
/// outbound message reads as the zero address. Holds for every receiver
/// and sender address, token id and URI whose UTF-8 encoding fits the
/// 64-bit length word.
pub proof fn lemma_encode_decode_round_trip(
    receiver: Seq<u8>,
    token_id: u64,
    uri: Seq<char>,
    sender: Seq<u8>,
)
    requires
        receiver.len() == 20,
        sender.len() == 20,
        encode_utf8(uri).len() < 0x1_0000_0000_0000_0000,
    ensures
        spec_decode(spec_encode(receiver, token_id, uri, sender)) == Ok::<
            (Seq<u8>, Seq<u8>, u64, Seq<char>, Seq<u8>),
            UniversalNFTCoreError,
        >((zero_bytes(20), receiver, token_id, uri, sender)),
{
    let m = spec_encode(receiver, token_id, uri, sender);
    let ub = encode_utf8(uri);
    let n = ub.len() as int;
    lemma_pow256_values();
    lemma_be_bytes_len(token_id as nat, 8);
    lemma_be_bytes_len(160, 8);
    lemma_be_bytes_len((ub.len() as u64) as nat, 8);
    assert(m.len() == 192 + n + uri_padding(ub.len()));
    // the offset word reads 160
    assert(m.subrange(96, 128) =~= u64_word(160));
    lemma_u64_word_val(160);
    assert(be_val(m.subrange(96, 128)) == 160);
    // the length word reads the URI byte length
    assert(m.subrange(160, 192) =~= u64_word(ub.len() as u64));
    lemma_u64_word_val(ub.len() as u64);
    assert((ub.len() as u64) as nat == ub.len());
    assert(be_val(m.subrange(160, 192)) == n);
    // the URI bytes sit at 192 and decode back to the characters
    assert(m.subrange(192, 192 + n) =~= ub);
    encode_utf8_valid_utf8(uri);
    encode_utf8_decode_utf8(uri);
    // the token id word reads the token id
    assert(m.subrange(88, 96) =~= be_bytes(token_id as nat, 8));
    lemma_be_val_of_be_bytes(token_id as nat, 8);
    // the three addresses
    assert(m.subrange(12, 32) =~= zero_bytes(20));
    assert(m.subrange(44, 64) =~= receiver);
    assert(m.subrange(140, 160) =~= sender);
}

} // verus!
