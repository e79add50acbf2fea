//! The envelope of a peer-to-peer message: a 24-byte header of network magic,
//! command name, payload length and payload checksum, then the payload.
use crate::fsm::DisconnectReason;
use vstd::prelude::*;

verus! {

/// Length of a message header.
pub const HEADER_LEN: usize = 24;

/// Largest payload accepted by default: 32 MiB.
pub const DEFAULT_MAX_PAYLOAD: u32 = 32 * 1024 * 1024;

/// A Bitcoin network.
#[derive(Clone, Copy, Debug, PartialEq, Eq, Structural)]
pub enum Network {
    Mainnet,
    Testnet,
    Signet,
    Regtest,
}

/// The four bytes at `off` of `b`, read little-endian.
pub open spec fn le_u32(b: Seq<u8>, off: int) -> int {
    b[off] + b[off + 1] * 256 + b[off + 2] * 65536 + b[off + 3] * 16777216
}

/// Magic of `n`, as its four wire bytes read little-endian.
pub open spec fn magic_spec(n: Network) -> u32 {
    match n {
        Network::Mainnet => 0xD9B4BEF9,
        Network::Testnet => 0x0709110B,
        Network::Signet => 0x40CF030A,
        Network::Regtest => 0xDAB5BFFA,
    }
}

impl Network {
    /// The network magic, as its four wire bytes read little-endian
    /// (mainnet F9 BE B4 D9, testnet 0B 11 09 07, signet 0A 03 CF 40,
    /// regtest FA BF B5 DA).
    pub fn magic(&self) -> (r: u32)
        ensures
            r == magic_spec(*self),
    {
        match self {
            Network::Mainnet => 0xD9B4BEF9,
            Network::Testnet => 0x0709110B,
            Network::Signet => 0x40CF030A,
            Network::Regtest => 0xDAB5BFFA,
        }
    }
}

/// A decoded message header.
#[derive(Clone, Debug)]
pub struct FrameHeader {
    /// The twelve command bytes, NUL padding included.
    pub command: Vec<u8>,
    /// Payload length.
    pub length: u32,
    /// First four bytes of the payload's double SHA-256, read little-endian.
    pub checksum: u32,
}

/// Why bytes do not start a message.
#[derive(Clone, Copy, Debug, PartialEq, Eq, Structural)]
pub enum FrameError {
    /// Fewer than `HEADER_LEN` bytes: wait for more.
    Incomplete,
    /// The magic is not that of our network.
    MagicMismatch,
    /// The payload is longer than we accept.
    PayloadTooLarge,
}

impl FrameError {
    /// How the peer is treated: malformed framing disconnects it with
    /// `DecodeError`; an incomplete header only waits for more bytes.
    pub fn disconnect_reason(&self) -> (r: Option<DisconnectReason>)
        ensures
            r == if *self == FrameError::Incomplete {
                None::<DisconnectReason>
            } else {
                Some(DisconnectReason::DecodeError)
            },
    {
        match self {
            FrameError::Incomplete => None,
            _ => Some(DisconnectReason::DecodeError),
        }
    }
}

/// The four bytes at `off` of `b`, read little-endian.
fn read_u32(b: &[u8], off: usize) -> (r: u32)
    requires
        off + 4 <= b@.len(),
    ensures
        r == le_u32(b@, off as int),
{
    b[off] as u32 + b[off + 1] as u32 * 256 + b[off + 2] as u32 * 65536 + b[off + 3] as u32
        * 16777216
}

/// Decode the header at the start of `bytes`, for a network of magic `magic`
/// and payloads of at most `max_payload` bytes.
pub fn decode_header(bytes: &[u8], magic: u32, max_payload: u32) -> (r: Result<
    FrameHeader,
    FrameError,
>)
    ensures
        bytes@.len() < HEADER_LEN ==> r == Err::<FrameHeader, FrameError>(FrameError::Incomplete),
        bytes@.len() >= HEADER_LEN && le_u32(bytes@, 0) != magic ==> r == Err::<
            FrameHeader,
            FrameError,
        >(FrameError::MagicMismatch),
        bytes@.len() >= HEADER_LEN && le_u32(bytes@, 0) == magic && le_u32(bytes@, 16)
            > max_payload ==> r == Err::<FrameHeader, FrameError>(FrameError::PayloadTooLarge),
        bytes@.len() >= HEADER_LEN && le_u32(bytes@, 0) == magic && le_u32(bytes@, 16)
            <= max_payload ==> r is Ok,
        r is Ok ==> r->Ok_0.command@ == bytes@.subrange(4, 16) && r->Ok_0.length == le_u32(
            bytes@,
            16,
        ) && r->Ok_0.checksum == le_u32(bytes@, 20),
{
    if bytes.len() < HEADER_LEN {
        return Err(FrameError::Incomplete);
    }
    if read_u32(bytes, 0) != magic {
        return Err(FrameError::MagicMismatch);
    }
    let length = read_u32(bytes, 16);
    if length > max_payload {
        return Err(FrameError::PayloadTooLarge);
    }
    let mut command: Vec<u8> = Vec::new();
    let mut i: usize = 4;
    while i < 16
        invariant
            4 <= i <= 16,
            16 <= bytes@.len(),
            command@ == bytes@.subrange(4, i as int),
        decreases 16 - i,
    {
        command.push(bytes[i]);
        i += 1;
        assert(command@ =~= bytes@.subrange(4, i as int));
    }
    Ok(FrameHeader { command, length, checksum: read_u32(bytes, 20) })
}

/// Whether `digest`, the double SHA-256 of the payload, agrees with the
/// header's checksum: its first four bytes, read little-endian, equal it.
pub fn checksum_matches(header: &FrameHeader, digest: &[u8]) -> (r: bool)
    ensures
        r == (digest@.len() >= 4 && le_u32(digest@, 0) == header.checksum),
{
    digest.len() >= 4 && read_u32(digest, 0) == header.checksum
}

} // verus!
