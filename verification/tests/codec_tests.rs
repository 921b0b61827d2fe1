use btc_indexer::header::BlockHeader;
use btc_indexer::pow::decode_bits;
use btc_indexer::controller::backoff_delay_ms;
use btc_indexer::{BitcoinNetworkType, Error};

fn mainnet_genesis() -> BlockHeader {
    BlockHeader {
        version: 1,
        prev_blockhash: vec![0u8; 32],
        merkle_root: vec![
            0x3b, 0xa3, 0xed, 0xfd, 0x7a, 0x7b, 0x12, 0xb2, 0x7a, 0xc7, 0x2c, 0x3e, 0x67, 0x76,
            0x8f, 0x61, 0x7f, 0xc8, 0x1b, 0xc3, 0x88, 0x8a, 0x51, 0x32, 0x3a, 0x9f, 0xb8, 0xaa,
            0x4b, 0x1e, 0x5e, 0x4a,
        ],
        time: 1231006505,
        bits: 0x1d00ffff,
        nonce: 2083236893,
    }
}

#[test]
fn genesis_header_hash_is_the_known_one() {
    let g = mainnet_genesis();
    let hash = g.header_hash();
    // the mainnet genesis hash, little-endian
    let expected: Vec<u8> = vec![
        0x6f, 0xe2, 0x8c, 0x0a, 0xb6, 0xf1, 0xb3, 0x72, 0xc1, 0xa6, 0xa2, 0x46, 0xae, 0x63, 0xf7,
        0x4f, 0x93, 0x1e, 0x83, 0x65, 0xe1, 0x5a, 0x08, 0x9c, 0x68, 0xd6, 0x19, 0x00, 0x00, 0x00,
        0x00, 0x00,
    ];
    assert_eq!(hash, expected);
}

#[test]
fn genesis_meets_its_proof_of_work() {
    let g = mainnet_genesis();
    assert!(g.check_pow());
}

#[test]
fn tampered_genesis_fails_proof_of_work() {
    let mut g = mainnet_genesis();
    g.nonce = g.nonce.wrapping_add(1);
    assert!(!g.check_pow());
}

#[test]
fn serialize_parse_round_trip() {
    let g = mainnet_genesis();
    let bytes = g.serialize();
    assert_eq!(bytes.len(), 80);
    let back = BlockHeader::parse(&bytes).expect("80 bytes must parse");
    assert_eq!(back.version, g.version);
    assert_eq!(back.prev_blockhash, g.prev_blockhash);
    assert_eq!(back.merkle_root, g.merkle_root);
    assert_eq!(back.time, g.time);
    assert_eq!(back.bits, g.bits);
    assert_eq!(back.nonce, g.nonce);
}

#[test]
fn parse_refuses_wrong_lengths() {
    assert!(BlockHeader::parse(&vec![0u8; 79]).is_none());
    assert!(BlockHeader::parse(&vec![0u8; 81]).is_none());
    assert!(BlockHeader::parse(&vec![]).is_none());
}

#[test]
fn compact_bits_decode() {
    // the mainnet genesis target: mantissa 0x00ffff shifted 26 bytes
    assert_eq!(decode_bits(0x1d00ffff), Some((0x00ffff, 0x1a)));
    // regtest's easy target
    assert_eq!(decode_bits(0x207fffff), Some((0x7fffff, 0x1d)));
    // zero mantissa is invalid
    assert_eq!(decode_bits(0x1d000000), None);
    // a sign bit is invalid
    assert_eq!(decode_bits(0x1d800000), None);
    // an exponent that overflows 256 bits is invalid
    assert_eq!(decode_bits(0x21_00ffff), None);
    // small exponents shift the mantissa right
    assert_eq!(decode_bits(0x01010000), Some((1, 0)));
    // ... and may shift it to nothing
    assert_eq!(decode_bits(0x01000100), None);
}

#[test]
fn backoff_doubles_and_clamps() {
    assert_eq!(backoff_delay_ms(0, 100, 10_000), 100);
    assert_eq!(backoff_delay_ms(1, 100, 10_000), 200);
    assert_eq!(backoff_delay_ms(3, 100, 10_000), 800);
    assert_eq!(backoff_delay_ms(7, 100, 10_000), 10_000);
    assert_eq!(backoff_delay_ms(60, 100, 10_000), 10_000);
    assert_eq!(backoff_delay_ms(5, 0, 10_000), 0);
}

#[test]
fn network_magic_values() {
    assert_eq!(BitcoinNetworkType::mainnet.magic(), 0xD9B4BEF9);
    assert_eq!(BitcoinNetworkType::testnet.magic(), 0x0709110B);
    assert_eq!(BitcoinNetworkType::regtest.magic(), 0xDAB5BFFA);
    assert!(BitcoinNetworkType::mainnet.check_magic(0xD9B4BEF9).is_ok());
    assert!(matches!(
        BitcoinNetworkType::mainnet.check_magic(0xDAB5BFFA),
        Err(Error::InvalidMagic)
    ));
}

#[test]
fn error_descriptions() {
    assert_eq!(Error::InvalidPoW.description(), "Invalid proof of work");
    assert_eq!(Error::NoncontiguousHeader.description(), "Non-contiguous header");
    assert_eq!(
        Error::BlockchainHeight.description(),
        "Value is beyond the end of the blockchain"
    );
    assert_eq!(Error::ConfigError(String::from("oops")).description(), "oops");
}
