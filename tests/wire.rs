use nakamoto::fsm::DisconnectReason;
use nakamoto::wire::{
    checksum_matches, decode_header, FrameError, Network, DEFAULT_MAX_PAYLOAD, HEADER_LEN,
};

/// A `verack` on regtest: empty payload, whose checksum is 5D F6 E0 E2.
fn verack_regtest() -> Vec<u8> {
    let mut b = vec![0xFA, 0xBF, 0xB5, 0xDA];
    b.extend_from_slice(b"verack\0\0\0\0\0\0");
    b.extend_from_slice(&[0, 0, 0, 0]);
    b.extend_from_slice(&[0x5D, 0xF6, 0xE0, 0xE2]);
    b
}

#[test]
fn network_magics() {
    assert_eq!(Network::Mainnet.magic().to_le_bytes(), [0xF9, 0xBE, 0xB4, 0xD9]);
    assert_eq!(Network::Testnet.magic().to_le_bytes(), [0x0B, 0x11, 0x09, 0x07]);
    assert_eq!(Network::Signet.magic().to_le_bytes(), [0x0A, 0x03, 0xCF, 0x40]);
    assert_eq!(Network::Regtest.magic().to_le_bytes(), [0xFA, 0xBF, 0xB5, 0xDA]);
}

#[test]
fn wire_constants() {
    assert_eq!(HEADER_LEN, 24);
    assert_eq!(DEFAULT_MAX_PAYLOAD, 33_554_432);
}

#[test]
fn decodes_regtest_verack_header() {
    let b = verack_regtest();
    let h = decode_header(&b, Network::Regtest.magic(), DEFAULT_MAX_PAYLOAD).unwrap();
    assert_eq!(h.command, b"verack\0\0\0\0\0\0".to_vec());
    assert_eq!(h.length, 0);
    assert_eq!(h.checksum, 0xE2E0F65D);
    let digest = [0x5D, 0xF6, 0xE0, 0xE2, 0x11, 0x22];
    assert!(checksum_matches(&h, &digest));
    assert!(!checksum_matches(&h, &[0x5D, 0xF6, 0xE0, 0xE3]));
    assert!(!checksum_matches(&h, &[0x5D, 0xF6, 0xE0]));
}

#[test]
fn short_input_is_incomplete() {
    let b = verack_regtest();
    let e = decode_header(&b[..23], Network::Regtest.magic(), DEFAULT_MAX_PAYLOAD).unwrap_err();
    assert_eq!(e, FrameError::Incomplete);
    assert_eq!(e.disconnect_reason(), None);
}

#[test]
fn other_network_magic_is_refused() {
    let b = verack_regtest();
    let e = decode_header(&b, Network::Mainnet.magic(), DEFAULT_MAX_PAYLOAD).unwrap_err();
    assert_eq!(e, FrameError::MagicMismatch);
    assert_eq!(e.disconnect_reason(), Some(DisconnectReason::DecodeError));
}

#[test]
fn oversized_payload_is_refused() {
    let mut b = verack_regtest();
    b[16..20].copy_from_slice(&(DEFAULT_MAX_PAYLOAD + 1).to_le_bytes());
    let e = decode_header(&b, Network::Regtest.magic(), DEFAULT_MAX_PAYLOAD).unwrap_err();
    assert_eq!(e, FrameError::PayloadTooLarge);
    assert_eq!(e.disconnect_reason(), Some(DisconnectReason::DecodeError));
    b[16..20].copy_from_slice(&DEFAULT_MAX_PAYLOAD.to_le_bytes());
    let h = decode_header(&b, Network::Regtest.magic(), DEFAULT_MAX_PAYLOAD).unwrap();
    assert_eq!(h.length, DEFAULT_MAX_PAYLOAD);
}
