//! The indexer controller's decisions: configuration vetting, bounded
//! exponential backoff for reconnection, and the strictly height-ordered
//! delivery of fetched blocks.

use vstd::prelude::*;
use vstd::arithmetic::power2::*;
use crate::{BitcoinNetworkType, Error};

verus! {

/// The protocol's ceiling on headers per reply.
pub const MAX_HEADERS_PER_BATCH: u64 = 2000;

/// Everything a sync run needs, stated by the caller; nothing is implied.
pub struct IndexerConfig {
    pub network: BitcoinNetworkType,
    pub peer_host: String,
    pub peer_port: u16,
    pub start_height: u64,
    pub batch_size: u64,
    pub request_timeout_ms: u64,
    pub max_reconnects: u32,
    pub channel_capacity: usize,
}

/// A usable configuration: a named peer, a positive batch within the
/// protocol ceiling, a real timeout, and room in the output channel.
pub open spec fn config_ok(c: IndexerConfig) -> bool {
    &&& c.peer_host@.len() > 0
    &&& 1 <= c.batch_size <= MAX_HEADERS_PER_BATCH
    &&& c.request_timeout_ms >= 1
    &&& c.channel_capacity >= 1
}

impl IndexerConfig {
    /// Accept exactly the usable configurations.
    pub fn validate(&self) -> (r: Result<(), Error>)
        ensures
            r is Ok <==> config_ok(*self),
            r is Err ==> r->Err_0 is ConfigError,
    {
        if self.peer_host.as_str().unicode_len() == 0 {
            return Err(Error::ConfigError("peer host must not be empty".to_owned()));
        }
        if self.batch_size < 1 || self.batch_size > MAX_HEADERS_PER_BATCH {
            return Err(Error::ConfigError("batch size out of range".to_owned()));
        }
        if self.request_timeout_ms < 1 {
            return Err(Error::ConfigError("request timeout must be positive".to_owned()));
        }
        if self.channel_capacity < 1 {
            return Err(Error::ConfigError("channel capacity must be positive".to_owned()));
        }
        Ok(())
    }
}

/// The wait before reconnect attempt `attempt`: the base doubled each
/// time, clamped at `cap_ms`.
pub open spec fn backoff_spec(attempt: u32, base_ms: u64, cap_ms: u64) -> nat {
    if base_ms * pow2(attempt as nat) <= cap_ms {
        (base_ms * pow2(attempt as nat)) as nat
    } else {
        cap_ms as nat
    }
}

/// Doubling is monotone: a later attempt never waits less.
proof fn lemma_backoff_monotone(base: u64, j: nat, k: nat)
    requires
        j <= k,
    ensures
        base * pow2(j) <= base * pow2(k),
{
    lemma_pow2_pos(j);
    lemma_pow2_pos(k);
    if j < k {
        lemma_pow2_strictly_increases(j, k);
    }
    vstd::arithmetic::mul::lemma_mul_inequality(pow2(j) as int, pow2(k) as int, base as int);
    assert(base * pow2(j) == pow2(j) * base) by (nonlinear_arith);
    assert(base * pow2(k) == pow2(k) * base) by (nonlinear_arith);
}

/// How long to wait before reconnect attempt `attempt`.
pub fn backoff_delay_ms(attempt: u32, base_ms: u64, cap_ms: u64) -> (r: u64)
    ensures
        r == backoff_spec(attempt, base_ms, cap_ms),
{
    proof {
        lemma2_to64();
    }
    if base_ms == 0 {
        proof {
            assert(0 * pow2(attempt as nat) == 0) by (nonlinear_arith);
        }
        return 0;
    }
    let mut d: u64 = base_ms;
    let mut j: u32 = 0;
    while j < attempt
        invariant
            j <= attempt,
            1 <= base_ms,
            d == base_ms * pow2(j as nat),
            d <= cap_ms || j == 0,
        decreases attempt - j,
    {
        if d >= cap_ms {
            proof {
                lemma_backoff_monotone(base_ms, j as nat, attempt as nat);
            }
            return cap_ms;
        }
        if d > cap_ms - d {
            // the next doubling already passes the cap
            proof {
                lemma2_to64();
                lemma_backoff_monotone(base_ms, (j + 1) as nat, attempt as nat);
                lemma_pow2_adds(j as nat, 1);
                assert(base_ms * (pow2(j as nat) * pow2(1)) == (base_ms * pow2(j as nat)) * pow2(
                    1,
                )) by (nonlinear_arith);
            }
            return cap_ms;
        }
        d = d + d;
        proof {
            lemma2_to64();
            lemma_pow2_adds(j as nat, 1);
            assert(base_ms * (pow2(j as nat) * pow2(1)) == (base_ms * pow2(j as nat)) * pow2(1))
                by (nonlinear_arith);
        }
        j = j + 1;
    }
    if d > cap_ms {
        cap_ms
    } else {
        d
    }
}

/// Whether another reconnect attempt is allowed under the ceiling.
pub fn should_reconnect(attempts: u32, ceiling: u32) -> (r: bool)
    ensures
        r == (attempts < ceiling),
{
    attempts < ceiling
}

/// The height of the `k`-th block a sync run delivers when delivery
/// begins at `start`.
pub open spec fn delivery_height(start: u64, k: nat) -> int {
    start + k
}

/// Ordering law: block `i` is always delivered strictly before block
/// `i + 1` by height — delivery heights strictly increase.
pub proof fn lemma_delivery_ordered(start: u64, i: nat, j: nat)
    requires
        i < j,
    ensures
        delivery_height(start, i) < delivery_height(start, j),
{
}

/// Hands out the heights `start ..= end` one at a time, in order; the
/// producer side of the lossless output pipeline.
pub struct BlockDelivery {
    start_height: u64,
    next_height: u64,
    end_height: u64,
}

impl BlockDelivery {
    /// Where delivery began.
    pub closed spec fn start_spec(&self) -> u64 {
        self.start_height
    }

    /// The next height owed to the consumer.
    pub closed spec fn next_spec(&self) -> u64 {
        self.next_height
    }

    /// The last height owed.
    pub closed spec fn end_spec(&self) -> u64 {
        self.end_height
    }

    /// The delivery window is sane and the cursor sits inside it.
    pub closed spec fn inv(&self) -> bool {
        self.start_height <= self.next_height <= self.end_height + 1 && self.end_height
            < u64::MAX
    }

    /// The invariant keeps the cursor inside the window: what was begun
    /// at `start` and owed through `end` is delivered from `start` on,
    /// one height at a time.
    pub proof fn lemma_window(&self)
        requires
            self.inv(),
        ensures
            self.start_spec() <= self.next_spec() <= self.end_spec() + 1,
            self.end_spec() < u64::MAX,
    {
    }

    /// How many blocks have been delivered.
    pub open spec fn delivered_spec(&self) -> nat {
        (self.next_spec() - self.start_spec()) as nat
    }

    /// A delivery plan for the blocks at heights `start ..= end`.
    pub fn new(start: u64, end: u64) -> (r: Result<BlockDelivery, Error>)
        ensures
            r is Ok <==> (start <= end && end < u64::MAX),
            r is Ok ==> {
                let d = r->Ok_0;
                d.inv() && d.start_spec() == start && d.next_spec() == start && d.end_spec()
                    == end
            },
            r is Err ==> r->Err_0 is InvalidArgument,
    {
        if start > end || end == u64::MAX {
            return Err(Error::InvalidArgument);
        }
        Ok(BlockDelivery { start_height: start, next_height: start, end_height: end })
    }

    /// The height to fetch and deliver next, `None` once all are out. The
    /// height handed out is always `delivery_height` of the count
    /// delivered so far: block `k` goes out at height `start + k`.
    pub fn pending(&self) -> (r: Option<u64>)
        requires
            self.inv(),
        ensures
            r is Some <==> self.next_spec() <= self.end_spec(),
            r is Some ==> r->0 == self.next_spec(),
            r is Some ==> r->0 == delivery_height(self.start_spec(), self.delivered_spec()),
    {
        if self.next_height <= self.end_height {
            Some(self.next_height)
        } else {
            None
        }
    }

    /// Record that the block at height `h` went out; only the pending
    /// height may go out, so deliveries happen in strictly increasing
    /// height order.
    pub fn mark_delivered(&mut self, h: u64)
        requires
            old(self).inv(),
            old(self).next_spec() <= old(self).end_spec(),
            h == old(self).next_spec(),
        ensures
            final(self).inv(),
            final(self).start_spec() == old(self).start_spec(),
            final(self).end_spec() == old(self).end_spec(),
            final(self).next_spec() == old(self).next_spec() + 1,
            final(self).delivered_spec() == old(self).delivered_spec() + 1,
    {
        self.next_height = self.next_height + 1;
    }
}

} // verus!
