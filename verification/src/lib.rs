//! Verified core of a Bitcoin SPV (header-chain) indexer.
//!
//! The library validates and stores a contiguous chain of Bitcoin block
//! headers (proof-of-work and linkage checked on every accepted batch),
//! decides reorgs by cumulative work, and drives the peer-session and
//! synchronization state machines as pure step functions. Socket and RPC
//! I/O live outside the library and hand it plain values.

use vstd::prelude::*;

pub mod bytes;
pub mod hash;
pub mod u256;
pub mod header;
pub mod pow;
pub mod store;
pub mod engine;
pub mod session;
pub mod controller;

verus! {

/// Network error raised while connecting to a peer, synchronizing headers,
/// or delivering blocks.
#[derive(Debug, Clone)]
pub enum Error {
    /// I/O error
    Io,
    /// Socket mutex was poisoned
    SocketMutexPoisoned,
    /// Not connected to peer
    SocketNotConnectedToPeer,
    /// Serialization error
    SerializationError,
    /// Invalid message to peer
    InvalidMessage,
    /// Invalid reply from peer
    InvalidReply,
    /// Invalid magic
    InvalidMagic,
    /// Unhandled message
    UnhandledMessage,
    /// Functionality not implemented
    NotImplemented,
    /// Connection is broken and ought to be re-established
    ConnectionBroken,
    /// Connection could not be (re-)established
    ConnectionError,
    /// General filesystem error
    FilesystemError,
    /// Hashing error
    HashError,
    /// Non-contiguous header
    NoncontiguousHeader,
    /// Missing header
    MissingHeader,
    /// Invalid target
    InvalidPoW,
    /// RPC error with bitcoin
    JSONRPCError,
    /// Thread pipeline error (i.e. a receiving thread died)
    PipelineError,
    /// Wrong number of bytes for constructing an address
    InvalidByteSequence,
    /// Configuration error
    ConfigError(String),
    /// Tried to synchronize to a point above the chain tip
    BlockchainHeight,
    /// Burn database error
    DBError,
    /// Invalid argument
    InvalidArgument,
}

/// What `description` returns for each error.
pub open spec fn description_spec(e: Error) -> Seq<char> {
    match e {
        Error::Io => "input/output error"@,
        Error::SocketMutexPoisoned => "socket mutex was poisoned"@,
        Error::SocketNotConnectedToPeer => "not connected to peer"@,
        Error::SerializationError => "serialization error"@,
        Error::InvalidMessage => "Invalid message to send"@,
        Error::InvalidReply => "invalid reply for given message"@,
        Error::InvalidMagic => "invalid network magic"@,
        Error::UnhandledMessage => "Unhandled message"@,
        Error::NotImplemented => "functionality not implemented"@,
        Error::ConnectionBroken => "connection to peer node is broken"@,
        Error::ConnectionError => "connection to peer could not be (re-)established"@,
        Error::FilesystemError => "filesystem error"@,
        Error::HashError => "hashing error"@,
        Error::NoncontiguousHeader => "Non-contiguous header"@,
        Error::MissingHeader => "Missing header"@,
        Error::InvalidPoW => "Invalid proof of work"@,
        Error::JSONRPCError => "JSON-RPC error with bitcoin"@,
        Error::PipelineError => "Pipeline broken"@,
        Error::InvalidByteSequence => "Invalid sequence of bytes"@,
        Error::ConfigError(s) => s@,
        Error::BlockchainHeight => "Value is beyond the end of the blockchain"@,
        Error::DBError => "Burn database error"@,
        Error::InvalidArgument => "Invalid argument"@,
    }
}

impl Error {
    /// A short, human-readable description of the error.
    pub fn description(&self) -> (r: &str)
        ensures
            r@ == description_spec(*self),
    {
        match self {
            Error::Io => "input/output error",
            Error::SocketMutexPoisoned => "socket mutex was poisoned",
            Error::SocketNotConnectedToPeer => "not connected to peer",
            Error::SerializationError => "serialization error",
            Error::InvalidMessage => "Invalid message to send",
            Error::InvalidReply => "invalid reply for given message",
            Error::InvalidMagic => "invalid network magic",
            Error::UnhandledMessage => "Unhandled message",
            Error::NotImplemented => "functionality not implemented",
            Error::ConnectionBroken => "connection to peer node is broken",
            Error::ConnectionError => "connection to peer could not be (re-)established",
            Error::FilesystemError => "filesystem error",
            Error::HashError => "hashing error",
            Error::NoncontiguousHeader => "Non-contiguous header",
            Error::MissingHeader => "Missing header",
            Error::InvalidPoW => "Invalid proof of work",
            Error::JSONRPCError => "JSON-RPC error with bitcoin",
            Error::PipelineError => "Pipeline broken",
            Error::InvalidByteSequence => "Invalid sequence of bytes",
            Error::ConfigError(s) => s.as_str(),
            Error::BlockchainHeight => "Value is beyond the end of the blockchain",
            Error::DBError => "Burn database error",
            Error::InvalidArgument => "Invalid argument",
        }
    }
}

/// Which Bitcoin network a peer belongs to; fixes the wire magic and the
/// expected genesis.
#[allow(non_camel_case_types)]
#[derive(Debug, Clone, Copy, PartialEq, Eq, Structural)]
pub enum BitcoinNetworkType {
    mainnet,
    testnet,
    regtest,
}

/// The four-byte message magic of each network, as a little-endian `u32`.
pub open spec fn magic_spec(net: BitcoinNetworkType) -> u32 {
    match net {
        BitcoinNetworkType::mainnet => 0xD9B4BEF9u32,
        BitcoinNetworkType::testnet => 0x0709110Bu32,
        BitcoinNetworkType::regtest => 0xDAB5BFFAu32,
    }
}

/// The easiest (numerically largest) target each network ever allows, in
/// compact form; the root of its difficulty-adjustment parameters.
pub open spec fn pow_limit_spec(net: BitcoinNetworkType) -> u32 {
    match net {
        BitcoinNetworkType::mainnet => 0x1d00ffffu32,
        BitcoinNetworkType::testnet => 0x1d00ffffu32,
        BitcoinNetworkType::regtest => 0x207fffffu32,
    }
}

/// Whether the network adjusts difficulty on the retarget schedule;
/// regtest fixes its difficulty and never adjusts.
pub open spec fn retargets_spec(net: BitcoinNetworkType) -> bool {
    !(net is regtest)
}

impl BitcoinNetworkType {
    /// The easiest target this network ever allows, in compact form.
    pub fn pow_limit_bits(&self) -> (r: u32)
        ensures
            r == pow_limit_spec(*self),
    {
        match self {
            BitcoinNetworkType::mainnet => 0x1d00ffff,
            BitcoinNetworkType::testnet => 0x1d00ffff,
            BitcoinNetworkType::regtest => 0x207fffff,
        }
    }

    /// Whether this network adjusts difficulty on the retarget schedule.
    pub fn retargets(&self) -> (r: bool)
        ensures
            r == retargets_spec(*self),
    {
        !matches!(self, BitcoinNetworkType::regtest)
    }

    /// The network magic that every frame exchanged with a peer must carry.
    pub fn magic(&self) -> (r: u32)
        ensures
            r == magic_spec(*self),
    {
        match self {
            BitcoinNetworkType::mainnet => 0xD9B4BEF9,
            BitcoinNetworkType::testnet => 0x0709110B,
            BitcoinNetworkType::regtest => 0xDAB5BFFA,
        }
    }

    /// Whether a received frame's magic belongs to this network; a mismatch
    /// is the peer speaking for another chain and is rejected as
    /// `InvalidMagic` by the session.
    pub fn check_magic(&self, got: u32) -> (r: Result<(), Error>)
        ensures
            r is Ok <==> got == magic_spec(*self),
            r is Err ==> r->Err_0 is InvalidMagic,
    {
        if got == self.magic() {
            Ok(())
        } else {
            Err(Error::InvalidMagic)
        }
    }
}

} // verus!
