use btc_indexer::controller::{BlockDelivery, IndexerConfig};
use btc_indexer::engine::{HeaderSyncEngine, SyncAction, SyncState};
use btc_indexer::header::BlockHeader;
use btc_indexer::session::{session_step, SessionAction, SessionEvent, SessionState};
use btc_indexer::store::HeaderStore;
use btc_indexer::{BitcoinNetworkType, Error};

const EASY_BITS: u32 = 0x207fffff;
const MAX_TIME: u32 = 2_000_000;

fn mine(prev: Vec<u8>, time: u32, salt: u32) -> BlockHeader {
    let mut h = BlockHeader {
        version: 2,
        prev_blockhash: prev,
        merkle_root: vec![(salt % 251) as u8; 32],
        time,
        bits: EASY_BITS,
        nonce: 0,
    };
    while !h.check_pow() {
        h.nonce += 1;
    }
    h
}

/// A simulated peer holding a fixed 20-header chain above the root; it
/// serves headers strictly above whatever tip hash it is asked from.
struct SimPeer {
    chain: Vec<BlockHeader>,
}

impl SimPeer {
    fn new(root_hash: Vec<u8>, n: usize) -> SimPeer {
        let mut chain: Vec<BlockHeader> = Vec::new();
        let mut prev = root_hash;
        for i in 0..n {
            let h = mine(prev, 1_000_001 + i as u32, i as u32);
            prev = h.header_hash();
            chain.push(h);
        }
        SimPeer { chain }
    }

    /// Up to `count` headers following the given tip hash.
    fn serve(&self, from_hash: &Vec<u8>, count: usize) -> Vec<BlockHeader> {
        let mut start = 0usize;
        for (i, h) in self.chain.iter().enumerate() {
            if &h.header_hash() == from_hash {
                start = i + 1;
                break;
            }
        }
        self.chain[start..(start + count).min(self.chain.len())]
            .iter()
            .map(|h| h.duplicate())
            .collect()
    }
}

fn root_and_store() -> (HeaderStore, Vec<u8>) {
    let root = mine(vec![0u8; 32], 1_000_000, 9001);
    let root_hash = root.header_hash();
    let store = HeaderStore::new(BitcoinNetworkType::regtest, 0, root).expect("valid root");
    (store, root_hash)
}

#[test]
fn end_to_end_twenty_headers_and_blocks() {
    let (mut store, root_hash) = root_and_store();
    let peer = SimPeer::new(root_hash, 20);
    let mut engine = HeaderSyncEngine::new(20, 3);
    let mut action = engine.begin();
    let mut rounds = 0;
    while matches!(action, SyncAction::RequestHeaders) {
        let batch = peer.serve(&store.tip_hash(), 5);
        action = engine.on_headers(&mut store, &batch, MAX_TIME);
        rounds += 1;
        assert!(rounds <= 10, "sync must converge");
    }
    assert!(matches!(action, SyncAction::Done));
    assert_eq!(engine.state, SyncState::Committed);
    assert_eq!(store.tip_height(), 20);
    assert_eq!(store.header_count(), 21);
    assert_eq!(store.tip_hash(), peer.chain[19].header_hash());

    // deliver the 20 blocks; the consumer sees heights strictly in order
    let mut delivery = BlockDelivery::new(1, 20).expect("window is sane");
    let mut seen: Vec<u64> = Vec::new();
    while let Some(h) = delivery.pending() {
        let raw = store
            .get_header(h)
            .expect("synced height is stored")
            .serialize();
        assert!(store.check_block_at(h, &raw).is_ok());
        seen.push(h);
        delivery.mark_delivered(h);
    }
    assert_eq!(seen.len(), 20);
    for i in 1..seen.len() {
        assert!(seen[i - 1] < seen[i], "block order must be strictly increasing");
    }
    assert_eq!(seen[0], 1);
    assert_eq!(seen[19], 20);
}

#[test]
fn resume_after_disconnect_skips_committed_headers() {
    let (mut store, root_hash) = root_and_store();
    let peer = SimPeer::new(root_hash, 20);
    let mut engine = HeaderSyncEngine::new(20, 3);
    let mut action = engine.begin();
    // first half: two batches of five, then the socket dies
    for _ in 0..2 {
        assert!(matches!(action, SyncAction::RequestHeaders));
        let batch = peer.serve(&store.tip_hash(), 5);
        action = engine.on_headers(&mut store, &batch, MAX_TIME);
    }
    assert_eq!(store.tip_height(), 10);
    let action = engine.on_disconnect();
    assert!(matches!(action, SyncAction::Reconnect));
    assert_eq!(engine.state, SyncState::Disconnected);
    // after reconnecting, the run resumes from the tip: the next request
    // serves only headers above height 10
    let mut action = engine.resume();
    let mut served: Vec<u64> = Vec::new();
    while matches!(action, SyncAction::RequestHeaders) {
        let batch = peer.serve(&store.tip_hash(), 5);
        let before = store.tip_height();
        action = engine.on_headers(&mut store, &batch, MAX_TIME);
        let after = store.tip_height();
        assert!(after > before, "resume must make forward progress");
        served.push(after);
    }
    assert!(matches!(action, SyncAction::Done));
    assert_eq!(store.tip_height(), 20);
    assert_eq!(served, vec![15, 20]);
}

#[test]
fn timeout_surfaces_missing_header_and_reconnects() {
    let mut engine = HeaderSyncEngine::new(10, 3);
    engine.begin();
    let (action, err) = engine.on_timeout();
    assert!(matches!(action, SyncAction::Reconnect));
    assert!(matches!(err, Error::MissingHeader));
    assert_eq!(engine.state, SyncState::Disconnected);
}

#[test]
fn rejected_batches_are_retried_then_abandoned() {
    let (mut store, _root_hash) = root_and_store();
    let mut engine = HeaderSyncEngine::new(5, 1);
    engine.begin();
    // a batch that connects to nothing known
    let orphan = vec![mine(vec![0x42u8; 32], 1_000_001, 3)];
    let a1 = engine.on_headers(&mut store, &orphan, MAX_TIME);
    assert!(matches!(a1, SyncAction::RequestHeaders)); // one retry allowed
    assert_eq!(store.tip_height(), 0);
    let a2 = engine.on_headers(&mut store, &orphan, MAX_TIME);
    assert!(matches!(a2, SyncAction::Abort(Error::NoncontiguousHeader)));
    assert_eq!(engine.state, SyncState::Disconnected);
    assert_eq!(store.tip_height(), 0);
}

#[test]
fn a_peer_with_nothing_new_cannot_reach_the_target() {
    let (mut store, _root_hash) = root_and_store();
    let mut engine = HeaderSyncEngine::new(5, 3);
    engine.begin();
    // the peer serves an empty reply while the tip is short of the target
    let action = engine.on_headers(&mut store, &Vec::new(), MAX_TIME);
    assert!(matches!(action, SyncAction::Abort(Error::BlockchainHeight)));
}

#[test]
fn handshake_runs_in_order() {
    let s0 = SessionState::Connecting;
    let (s1, a1) = session_step(s0, SessionEvent::Connected);
    assert_eq!(s1, SessionState::AwaitingVersion);
    assert!(matches!(a1, SessionAction::SendVersion));
    let (s2, a2) = session_step(s1, SessionEvent::VersionReceived { services_ok: true });
    assert_eq!(s2, SessionState::AwaitingVerack);
    assert!(matches!(a2, SessionAction::SendVerack));
    let (s3, a3) = session_step(s2, SessionEvent::VerackReceived);
    assert_eq!(s3, SessionState::Ready);
    assert!(matches!(a3, SessionAction::Wait));
    // keep-alive and tolerance once ready
    let (s4, a4) = session_step(s3, SessionEvent::PingReceived { nonce: 77 });
    assert_eq!(s4, SessionState::Ready);
    assert!(matches!(a4, SessionAction::SendPong { nonce: 77 }));
    let (s5, a5) = session_step(s4, SessionEvent::UnsolicitedMessage);
    assert_eq!(s5, SessionState::Ready);
    assert!(matches!(a5, SessionAction::LogUnhandled));
}

#[test]
fn protocol_trouble_tears_the_session_down() {
    let (s, a) = session_step(SessionState::Ready, SessionEvent::BadMagic);
    assert_eq!(s, SessionState::Failed);
    assert!(matches!(a, SessionAction::Close { err: Error::InvalidMagic }));
    let (s, a) = session_step(SessionState::Ready, SessionEvent::MalformedFrame);
    assert_eq!(s, SessionState::Failed);
    assert!(matches!(a, SessionAction::Close { err: Error::SerializationError }));
    let (s, a) = session_step(SessionState::Ready, SessionEvent::SocketError);
    assert_eq!(s, SessionState::Failed);
    assert!(matches!(a, SessionAction::Close { err: Error::ConnectionBroken }));
    let (s, a) = session_step(SessionState::Connecting, SessionEvent::SocketError);
    assert_eq!(s, SessionState::Failed);
    assert!(matches!(a, SessionAction::Close { err: Error::ConnectionError }));
    // a bad version reply is fatal too
    let (s, a) = session_step(
        SessionState::AwaitingVersion,
        SessionEvent::VersionReceived { services_ok: false },
    );
    assert_eq!(s, SessionState::Failed);
    assert!(matches!(a, SessionAction::Close { err: Error::InvalidReply }));
}

#[test]
fn config_is_vetted_field_by_field() {
    let good = IndexerConfig {
        network: BitcoinNetworkType::mainnet,
        peer_host: String::from("peer.example"),
        peer_port: 8333,
        start_height: 0,
        batch_size: 2000,
        request_timeout_ms: 30_000,
        max_reconnects: 5,
        channel_capacity: 16,
    };
    assert!(good.validate().is_ok());
    let empty_host = IndexerConfig { peer_host: String::new(), ..good_copy(&good) };
    assert!(matches!(empty_host.validate(), Err(Error::ConfigError(_))));
    let huge_batch = IndexerConfig { batch_size: 2001, ..good_copy(&good) };
    assert!(matches!(huge_batch.validate(), Err(Error::ConfigError(_))));
    let zero_timeout = IndexerConfig { request_timeout_ms: 0, ..good_copy(&good) };
    assert!(matches!(zero_timeout.validate(), Err(Error::ConfigError(_))));
    let zero_capacity = IndexerConfig { channel_capacity: 0, ..good_copy(&good) };
    assert!(matches!(zero_capacity.validate(), Err(Error::ConfigError(_))));
}

fn good_copy(c: &IndexerConfig) -> IndexerConfig {
    IndexerConfig {
        network: c.network,
        peer_host: c.peer_host.clone(),
        peer_port: c.peer_port,
        start_height: c.start_height,
        batch_size: c.batch_size,
        request_timeout_ms: c.request_timeout_ms,
        max_reconnects: c.max_reconnects,
        channel_capacity: c.channel_capacity,
    }
}

#[test]
fn delivery_window_is_vetted() {
    assert!(matches!(BlockDelivery::new(5, 4), Err(Error::InvalidArgument)));
    assert!(matches!(BlockDelivery::new(0, u64::MAX), Err(Error::InvalidArgument)));
    let mut d = BlockDelivery::new(3, 3).expect("one block window");
    assert_eq!(d.pending(), Some(3));
    d.mark_delivered(3);
    assert_eq!(d.pending(), None);
}
