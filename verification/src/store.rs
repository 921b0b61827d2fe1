//! The header store: a contiguous, proof-of-work-checked chain of block
//! headers, with whole-batch commit and work-weighed reorgs.

use vstd::prelude::*;
use crate::header::{BlockHeader, BlockHeaderV, header_wf, hash_of};
use crate::pow::{pow_ok, work_of_bits, decode_bits, work_of_bits_u256, bits_valid, retarget_ok,
    check_retarget};
use crate::u256::U256;
use crate::hash::bytes_eq;
use crate::{BitcoinNetworkType, Error};

verus! {

/// The headers of a vector, as mathematical values.
pub open spec fn views_of(hs: Seq<BlockHeader>) -> Seq<BlockHeaderV> {
    hs.map_values(|h: BlockHeader| h@)
}

/// A well-formed chain: non-empty, every header well-formed and meeting
/// its proof-of-work, and every header's `prev_blockhash` the hash of the
/// header before it.
pub open spec fn chain_wf(chain: Seq<BlockHeaderV>) -> bool {
    &&& chain.len() >= 1
    &&& forall|i: int| 0 <= i < chain.len() ==> header_wf(#[trigger] chain[i])
    &&& forall|i: int| 0 <= i < chain.len() ==> pow_ok(#[trigger] chain[i])
    &&& forall|i: int|
        1 <= i < chain.len() ==> (#[trigger] chain[i]).prev_blockhash == hash_of(chain[i - 1])
}

/// Addition clamped to what 256 bits hold.
pub open spec fn sat_add(a: nat, b: nat) -> nat {
    if a + b <= U256::max_val() {
        a + b
    } else {
        U256::max_val()
    }
}

/// The cumulative work of a run of headers, summed with saturation.
pub open spec fn chain_work(chain: Seq<BlockHeaderV>) -> nat
    decreases chain.len(),
{
    if chain.len() == 0 {
        0
    } else {
        sat_add(chain_work(chain.drop_last()), work_of_bits(chain.last().bits))
    }
}

/// The highest index whose header hashes to `prev`, or -1 if none does.
pub open spec fn find_attach(chain: Seq<BlockHeaderV>, prev: Seq<u8>) -> int
    decreases chain.len(),
{
    if chain.len() == 0 {
        -1
    } else if hash_of(chain.last()) == prev {
        chain.len() - 1
    } else {
        find_attach(chain.drop_last(), prev)
    }
}

/// What `find_attach` returns: an index that matches, above which nothing
/// matches, or -1 when nothing matches at all.
pub proof fn lemma_find_attach(chain: Seq<BlockHeaderV>, prev: Seq<u8>)
    ensures
        -1 <= find_attach(chain, prev) < chain.len(),
        find_attach(chain, prev) >= 0 ==> hash_of(chain[find_attach(chain, prev)]) == prev,
        forall|j: int|
            find_attach(chain, prev) < j < chain.len() ==> hash_of(#[trigger] chain[j]) != prev,
    decreases chain.len(),
{
    if chain.len() > 0 && hash_of(chain.last()) != prev {
        lemma_find_attach(chain.drop_last(), prev);
        assert forall|j: int|
            find_attach(chain, prev) < j < chain.len() implies hash_of(#[trigger] chain[j])
            != prev by {
            if j < chain.len() - 1 {
                assert(chain.drop_last()[j] == chain[j]);
            }
        }
    }
}

/// Every header of the batch is well-formed.
pub open spec fn batch_all_wf(batch: Seq<BlockHeaderV>) -> bool {
    forall|i: int| 0 <= i < batch.len() ==> header_wf(#[trigger] batch[i])
}

/// Each header of the batch names the hash of the one before it.
pub open spec fn batch_internally_linked(batch: Seq<BlockHeaderV>) -> bool {
    forall|i: int|
        1 <= i < batch.len() ==> (#[trigger] batch[i]).prev_blockhash == hash_of(batch[i - 1])
}

/// Every header of the batch meets its proof-of-work and is not dated
/// beyond `max_time`.
pub open spec fn batch_all_pow(batch: Seq<BlockHeaderV>, max_time: u32) -> bool {
    forall|i: int|
        0 <= i < batch.len() ==> pow_ok(#[trigger] batch[i]) && batch[i].time <= max_time
}

/// Every header of the batch obeys the difficulty-retarget schedule:
/// the first against the header it attaches to, each later one against its
/// predecessor, at the heights they would occupy from `first_height` on.
pub open spec fn batch_retarget_ok(
    net: BitcoinNetworkType,
    attach_bits: u32,
    first_height: int,
    batch: Seq<BlockHeaderV>,
) -> bool {
    forall|i: int|
        0 <= i < batch.len() ==> retarget_ok(
            net,
            if i == 0 {
                attach_bits
            } else {
                batch[i - 1].bits
            },
            (#[trigger] batch[i]).bits,
            ((first_height + i) as u64),
        )
}

/// How a batch is committed. The whole batch is vetted first; any failure
/// rejects it wholesale and leaves the chain untouched. A batch attaching
/// at the tip extends the chain; one attaching lower replaces the headers
/// above its fork point only if it carries strictly more work from that
/// fork point on; otherwise it is ignored.
#[verifier::opaque]
pub open spec fn commit_spec(
    net: BitcoinNetworkType,
    start: u64,
    chain: Seq<BlockHeaderV>,
    batch: Seq<BlockHeaderV>,
    max_time: u32,
) -> (Result<CommitOutcome, Error>, Seq<BlockHeaderV>) {
    if batch.len() == 0 {
        (Ok(CommitOutcome::Ignored), chain)
    } else if !batch_all_wf(batch) {
        (Err(Error::InvalidByteSequence), chain)
    } else if find_attach(chain, batch[0].prev_blockhash) == -1 {
        (Err(Error::NoncontiguousHeader), chain)
    } else if !batch_internally_linked(batch) {
        (Err(Error::NoncontiguousHeader), chain)
    } else if !batch_all_pow(batch, max_time) {
        (Err(Error::InvalidPoW), chain)
    } else {
        let a = find_attach(chain, batch[0].prev_blockhash);
        if start + a + batch.len() > u64::MAX {
            (Err(Error::InvalidArgument), chain)
        } else if !batch_retarget_ok(net, chain[a].bits, start + a + 1, batch) {
            (Err(Error::InvalidPoW), chain)
        } else {
            let grown = chain.take(a + 1) + batch;
            if a == chain.len() - 1 {
                (Ok(CommitOutcome::Extended), grown)
            } else if chain_work(batch) > chain_work(chain.skip(a + 1)) {
                (Ok(CommitOutcome::Reorged), grown)
            } else {
                (Ok(CommitOutcome::Ignored), chain)
            }
        }
    }
}

/// What committing a batch did to the chain.
#[derive(Debug, Clone, Copy, PartialEq, Eq, Structural)]
pub enum CommitOutcome {
    /// The batch attached at the tip and the chain grew.
    Extended,
    /// The batch attached below the tip with more work; the chain switched
    /// to the fork.
    Reorged,
    /// The batch was valid but offered nothing better; the chain is as it
    /// was.
    Ignored,
}

/// A vetted prefix-plus-batch is again a well-formed chain.
proof fn lemma_chain_wf_extend(chain: Seq<BlockHeaderV>, a: int, batch: Seq<BlockHeaderV>)
    requires
        chain_wf(chain),
        0 <= a < chain.len(),
        batch.len() >= 1,
        batch[0].prev_blockhash == hash_of(chain[a]),
        batch_internally_linked(batch),
        batch_all_wf(batch),
        forall|i: int| 0 <= i < batch.len() ==> pow_ok(#[trigger] batch[i]),
    ensures
        chain_wf(chain.take(a + 1) + batch),
{
    let c2 = chain.take(a + 1) + batch;
    assert forall|i: int| 0 <= i < c2.len() implies header_wf(#[trigger] c2[i]) && pow_ok(
        c2[i],
    ) by {
        if i <= a {
            assert(c2[i] == chain[i]);
        } else {
            assert(c2[i] == batch[i - a - 1]);
        }
    }
    assert forall|i: int| 1 <= i < c2.len() implies (#[trigger] c2[i]).prev_blockhash == hash_of(
        c2[i - 1],
    ) by {
        if i <= a {
            assert(c2[i] == chain[i]);
            assert(c2[i - 1] == chain[i - 1]);
        } else if i == a + 1 {
            assert(c2[i] == batch[0]);
            assert(c2[i - 1] == chain[a]);
        } else {
            assert(c2[i] == batch[i - a - 1]);
            assert(c2[i - 1] == batch[i - a - 2]);
        }
    }
}

/// The cumulative work of the headers of `hs` from index `from` on.
fn run_work(hs: &Vec<BlockHeader>, from: usize) -> (r: U256)
    requires
        from <= hs@.len(),
        forall|i: int| from <= i < hs@.len() ==> bits_valid((#[trigger] hs@[i])@.bits),
    ensures
        r.val() == chain_work(views_of(hs@).skip(from as int)),
{
    let mut r = U256::zero();
    let mut i: usize = from;
    proof {
        assert(views_of(hs@).skip(from as int).take(0) =~= Seq::<BlockHeaderV>::empty());
    }
    while i < hs.len()
        invariant
            from <= i <= hs@.len(),
            forall|j: int| from <= j < hs@.len() ==> bits_valid((#[trigger] hs@[j])@.bits),
            r.val() == chain_work(views_of(hs@).skip(from as int).take(i - from)),
        decreases hs@.len() - i,
    {
        let h = &hs[i];
        let decoded = decode_bits(h.bits);
        let (m, s) = match decoded {
            Some(p) => p,
            None => {
                proof {
                    assert(false);
                }
                (1, 0)
            },
        };
        let w = work_of_bits_u256(m, s, Ghost(h.bits));
        r = r.add_sat(&w);
        proof {
            let pre = views_of(hs@).skip(from as int).take(i - from);
            let post = views_of(hs@).skip(from as int).take(i + 1 - from);
            assert(post.drop_last() =~= pre);
            assert(post.last() == hs@[i as int]@);
        }
        i = i + 1;
    }
    proof {
        assert(views_of(hs@).skip(from as int).take(hs@.len() - from) =~= views_of(hs@).skip(
            from as int,
        ));
    }
    r
}

/// Whether every header of the batch is well-formed.
fn all_wf(batch: &Vec<BlockHeader>) -> (r: bool)
    ensures
        r == batch_all_wf(views_of(batch@)),
{
    let mut i: usize = 0;
    while i < batch.len()
        invariant
            i <= batch@.len(),
            forall|j: int| 0 <= j < i ==> header_wf((#[trigger] batch@[j])@),
        decreases batch@.len() - i,
    {
        let h = &batch[i];
        if h.prev_blockhash.len() != 32 || h.merkle_root.len() != 32 {
            assert(!header_wf(views_of(batch@)[i as int]));
            return false;
        }
        assert(header_wf(views_of(batch@)[i as int]));
        i = i + 1;
    }
    true
}

/// Whether each header of the batch links to the one before it.
fn all_linked(batch: &Vec<BlockHeader>) -> (r: bool)
    requires
        batch_all_wf(views_of(batch@)),
    ensures
        r == batch_internally_linked(views_of(batch@)),
{
    let mut i: usize = 1;
    while i < batch.len()
        invariant
            1 <= i,
            i <= batch@.len() || batch@.len() == 0,
            batch_all_wf(views_of(batch@)),
            forall|j: int|
                1 <= j < i ==> (#[trigger] batch@[j])@.prev_blockhash == hash_of(batch@[j - 1]@),
        decreases batch@.len() - i,
    {
        proof {
            assert(header_wf(views_of(batch@)[i - 1]));
            assert(header_wf(views_of(batch@)[i as int]));
        }
        let ph = batch[i - 1].header_hash();
        if !bytes_eq(&batch[i].prev_blockhash, &ph) {
            assert(views_of(batch@)[i as int].prev_blockhash != hash_of(views_of(batch@)[i - 1]));
            return false;
        }
        i = i + 1;
    }
    true
}

/// Whether every header of the batch meets proof-of-work and is dated no
/// later than `max_time`.
fn all_pow(batch: &Vec<BlockHeader>, max_time: u32) -> (r: bool)
    requires
        batch_all_wf(views_of(batch@)),
    ensures
        r == batch_all_pow(views_of(batch@), max_time),
{
    let mut i: usize = 0;
    while i < batch.len()
        invariant
            i <= batch@.len(),
            batch_all_wf(views_of(batch@)),
            forall|j: int|
                0 <= j < i ==> pow_ok((#[trigger] batch@[j])@) && batch@[j]@.time <= max_time,
        decreases batch@.len() - i,
    {
        proof {
            assert(header_wf(views_of(batch@)[i as int]));
        }
        if !batch[i].check_pow() || batch[i].time > max_time {
            assert(!(pow_ok(views_of(batch@)[i as int]) && views_of(batch@)[i as int].time
                <= max_time));
            return false;
        }
        i = i + 1;
    }
    true
}

/// Whether every header of the batch obeys the retarget schedule against
/// its predecessor, starting from the attach header at `first_height - 1`.
#[verifier::rlimit(50)]
fn all_retarget(
    net: BitcoinNetworkType,
    attach: &BlockHeader,
    batch: &Vec<BlockHeader>,
    first_height: u64,
) -> (r: bool)
    requires
        bits_valid(attach@.bits),
        batch@.len() >= 1,
        first_height + batch@.len() <= u64::MAX + 1,
        forall|j: int| 0 <= j < batch@.len() ==> bits_valid((#[trigger] batch@[j])@.bits),
    ensures
        r == batch_retarget_ok(net, attach@.bits, first_height as int, views_of(batch@)),
{
    let mut prev_bits: u32 = attach.bits;
    let mut i: usize = 0;
    while i < batch.len()
        invariant
            i <= batch@.len(),
            first_height + batch@.len() <= u64::MAX + 1,
            bits_valid(prev_bits),
            forall|j: int| 0 <= j < batch@.len() ==> bits_valid((#[trigger] batch@[j])@.bits),
            prev_bits == if i == 0 {
                attach@.bits
            } else {
                batch@[i - 1]@.bits
            },
            forall|j: int|
                0 <= j < i ==> retarget_ok(
                    net,
                    if j == 0 {
                        attach@.bits
                    } else {
                        batch@[j - 1]@.bits
                    },
                    (#[trigger] batch@[j])@.bits,
                    ((first_height + j) as u64),
                ),
        decreases batch@.len() - i,
    {
        let h = &batch[i];
        if !check_retarget(net, prev_bits, h.bits, first_height + i as u64) {
            assert(!retarget_ok(
                net,
                if i == 0 {
                    attach@.bits
                } else {
                    batch@[i - 1]@.bits
                },
                views_of(batch@)[i as int].bits,
                ((first_height + i) as u64),
            ));
            return false;
        }
        prev_bits = h.bits;
        i = i + 1;
    }
    true
}

/// The chain indexes a locator names when it starts at index `i`: the
/// index itself, then the rest from one step down, the step staying 1 for
/// the first ten entries and doubling on every entry after, always ending
/// at index 0 — dense where recent, exponentially sparser behind.
pub open spec fn locator_indices(i: int, step: int, count: int) -> Seq<int>
    decreases i,
{
    if i <= 0 {
        seq![0int]
    } else {
        let s1 = if step >= 1 {
            step
        } else {
            1
        };
        let c2 = if count < 10 {
            count + 1
        } else {
            count
        };
        let s2 = if c2 >= 10 && s1 <= usize::MAX as int / 2 {
            2 * s1
        } else {
            s1
        };
        let i2 = if i >= s2 {
            i - s2
        } else {
            0
        };
        seq![i] + locator_indices(i2, s2, c2)
    }
}

/// The locator index schedule starts at `i`, ends at 0, stays within
/// `[0, i]`, and strictly descends.
pub proof fn lemma_locator_indices(i: int, step: int, count: int)
    requires
        0 <= i,
    ensures
        ({
            let s = locator_indices(i, step, count);
            &&& s.len() >= 1
            &&& s[0] == i
            &&& s.last() == 0
            &&& forall|k: int| 0 <= k < s.len() ==> 0 <= #[trigger] s[k] <= i
            &&& forall|k: int| 0 <= k < s.len() - 1 ==> s[k + 1] < #[trigger] s[k]
        }),
    decreases i,
{
    let s = locator_indices(i, step, count);
    if i <= 0 {
    } else {
        let s1 = if step >= 1 {
            step
        } else {
            1
        };
        let c2 = if count < 10 {
            count + 1
        } else {
            count
        };
        let s2 = if c2 >= 10 && s1 <= usize::MAX as int / 2 {
            2 * s1
        } else {
            s1
        };
        let i2 = if i >= s2 {
            i - s2
        } else {
            0
        };
        lemma_locator_indices(i2, s2, c2);
        let rest = locator_indices(i2, s2, c2);
        assert(s.last() == rest.last());
        assert forall|k: int| 0 <= k < s.len() implies 0 <= #[trigger] s[k] <= i by {
            if k >= 1 {
                assert(s[k] == rest[k - 1]);
            }
        }
        assert forall|k: int| 0 <= k < s.len() - 1 implies s[k + 1] < #[trigger] s[k] by {
            if k == 0 {
                assert(s[1] == rest[0]);
            } else {
                assert(s[k] == rest[k - 1]);
                assert(s[k + 1] == rest[k]);
            }
        }
    }
}

/// The locally known header chain: headers at consecutive heights from a
/// configured start height up to the tip.
pub struct HeaderStore {
    network: BitcoinNetworkType,
    start_height: u64,
    headers: Vec<BlockHeader>,
}

impl HeaderStore {
    /// The chain as a sequence of header values; index i sits at height
    /// `start() + i`.
    pub closed spec fn chain(&self) -> Seq<BlockHeaderV> {
        views_of(self.headers@)
    }

    /// The configured start height, where the chain is rooted.
    pub closed spec fn start(&self) -> u64 {
        self.start_height
    }

    /// The network whose schedule committed headers are held to.
    pub closed spec fn network_spec(&self) -> BitcoinNetworkType {
        self.network
    }

    /// The store's invariant: a well-formed chain whose heights fit.
    pub closed spec fn inv(&self) -> bool {
        chain_wf(self.chain()) && self.start_height + self.chain().len() - 1 <= u64::MAX
    }

    /// The height of the tip: the start height plus the chain's length
    /// less one.
    pub open spec fn tip_height_spec(&self) -> u64 {
        (self.start() + self.chain().len() - 1) as u64
    }

    /// Open a store on `network` rooted at `start_height` with a trusted,
    /// well-formed, proof-of-work-checked start header.
    pub fn new(
        network: BitcoinNetworkType,
        start_height: u64,
        start_header: BlockHeader,
    ) -> (r: Result<HeaderStore, Error>)
        ensures
            r is Ok <==> header_wf(start_header@) && pow_ok(start_header@),
            r is Ok ==> {
                let s = r->Ok_0;
                s.inv() && s.start() == start_height && s.chain() == seq![start_header@]
                    && s.network_spec() == network
            },
            r is Err ==> (r->Err_0 is InvalidByteSequence <==> !header_wf(start_header@)),
    {
        if start_header.prev_blockhash.len() != 32 || start_header.merkle_root.len() != 32 {
            return Err(Error::InvalidByteSequence);
        }
        if !start_header.check_pow() {
            return Err(Error::InvalidPoW);
        }
        let mut headers: Vec<BlockHeader> = Vec::new();
        headers.push(start_header);
        let s = HeaderStore { network, start_height, headers };
        proof {
            assert(s.chain() =~= seq![start_header@]);
        }
        Ok(s)
    }

    /// How many headers the store holds.
    pub fn header_count(&self) -> (r: usize)
        ensures
            r == self.chain().len(),
    {
        self.headers.len()
    }

    /// The height of the tip.
    pub fn tip_height(&self) -> (r: u64)
        requires
            self.inv(),
        ensures
            r == self.tip_height_spec(),
    {
        self.start_height + (self.headers.len() - 1) as u64
    }

    /// The header at `height`, if the store reaches it.
    pub fn get_header(&self, height: u64) -> (r: Option<BlockHeader>)
        requires
            self.inv(),
        ensures
            r is Some <==> self.start() <= height <= self.tip_height_spec(),
            r is Some ==> r->0@ == self.chain()[height - self.start()],
    {
        if height < self.start_height {
            return None;
        }
        let idx = height - self.start_height;
        if idx >= self.headers.len() as u64 {
            return None;
        }
        Some(self.headers[idx as usize].duplicate())
    }

    /// The hash of the tip header.
    pub fn tip_hash(&self) -> (r: Vec<u8>)
        requires
            self.inv(),
        ensures
            r@ == hash_of(self.chain().last()),
    {
        let idx = self.headers.len() - 1;
        let h = &self.headers[idx];
        proof {
            assert(self.chain()[idx as int] == h@);
            assert(header_wf(h@));
        }
        h.header_hash()
    }

    /// The highest stored header whose hash is `prev`, scanned tip-down.
    fn find_attach_exec(&self, prev: &Vec<u8>) -> (r: Option<usize>)
        requires
            self.inv(),
        ensures
            r is Some <==> find_attach(self.chain(), prev@) >= 0,
            r is Some ==> r->0 == find_attach(self.chain(), prev@),
    {
        let mut i: usize = self.headers.len();
        proof {
            assert(self.chain().take(self.chain().len() as int) =~= self.chain());
        }
        while i > 0
            invariant
                self.inv(),
                i <= self.chain().len(),
                find_attach(self.chain(), prev@) == find_attach(
                    self.chain().take(i as int),
                    prev@,
                ),
            decreases i,
        {
            i = i - 1;
            let h = self.headers[i].header_hash();
            if bytes_eq(&h, prev) {
                proof {
                    let t = self.chain().take(i + 1);
                    assert(t.last() == self.chain()[i as int]);
                    assert(find_attach(self.chain(), prev@) == i);
                }
                return Some(i);
            }
            proof {
                let t = self.chain().take(i + 1);
                assert(t.last() == self.chain()[i as int]);
                assert(t.drop_last() =~= self.chain().take(i as int));
            }
        }
        proof {
            assert(self.chain().take(0) =~= Seq::<BlockHeaderV>::empty());
        }
        None
    }

    /// The locator for a `getheaders` request: the stored hashes at
    /// exactly the indexes of `locator_indices` — tip first, the ten most
    /// recent heights densely, then exponentially sparser, ending at the
    /// chain's root — so that a peer on any fork can find the best common
    /// ancestor.
    pub fn build_locator(&self) -> (r: Vec<Vec<u8>>)
        requires
            self.inv(),
        ensures
            ({
                let idxs = locator_indices(self.chain().len() - 1, 1, 0);
                &&& r@.len() == idxs.len()
                &&& forall|k: int|
                    0 <= k < r@.len() ==> (#[trigger] r@[k])@ == hash_of(
                        self.chain()[idxs[k]],
                    )
            }),
            r@.len() >= 1,
            r@[0]@ == hash_of(self.chain().last()),
            r@[r@.len() - 1]@ == hash_of(self.chain()[0]),
    {
        let ghost full = locator_indices(self.chain().len() - 1, 1, 0);
        proof {
            lemma_locator_indices(self.chain().len() - 1, 1, 0);
        }
        let mut r: Vec<Vec<u8>> = Vec::new();
        let mut i: usize = self.headers.len() - 1;
        let mut step: usize = 1;
        let mut count: usize = 0;
        proof {
            assert(full =~= full.take(0) + locator_indices(i as int, step as int, count as int));
        }
        loop
            invariant_except_break
                self.inv(),
                full == locator_indices(self.chain().len() - 1, 1, 0),
                i < self.chain().len(),
                1 <= step,
                count <= 10,
                r@.len() <= full.len(),
                full =~= full.take(r@.len() as int) + locator_indices(
                    i as int,
                    step as int,
                    count as int,
                ),
                forall|k: int|
                    0 <= k < r@.len() ==> (#[trigger] r@[k])@ == hash_of(self.chain()[full[k]]),
            ensures
                full == locator_indices(self.chain().len() - 1, 1, 0),
                r@.len() == full.len(),
                forall|k: int|
                    0 <= k < r@.len() ==> (#[trigger] r@[k])@ == hash_of(self.chain()[full[k]]),
            decreases i + 1,
        {
            let ghost done = r@.len() as int;
            let ghost tail = locator_indices(i as int, step as int, count as int);
            proof {
                assert(header_wf(self.chain()[i as int]));
                assert(full[done] == tail[0]);
                assert(tail[0] == i as int);
            }
            let h = self.headers[i].header_hash();
            r.push(h);
            if i == 0 {
                proof {
                    assert(tail =~= seq![0int]);
                    assert(full =~= full.take(done) + seq![0int]);
                    assert(r@.len() == full.len());
                }
                break;
            }
            if count < 10 {
                count = count + 1;
            }
            if count >= 10 && step <= usize::MAX / 2 {
                step = step * 2;
            }
            let ghost old_i = i as int;
            i = if i >= step {
                i - step
            } else {
                0
            };
            proof {
                let rest = locator_indices(i as int, step as int, count as int);
                assert(tail =~= seq![old_i] + rest);
                assert(full.take(done + 1) =~= full.take(done) + seq![old_i]);
                assert(full =~= full.take(done + 1) + rest);
            }
        }
        proof {
            lemma_locator_indices(self.chain().len() - 1, 1, 0);
            assert(r@[0]@ == hash_of(self.chain()[full[0]]));
            assert(full[full.len() - 1] == 0);
        }
        r
    }

    /// Vet a block the peer served for `height`: its first 80 bytes must
    /// be a header hashing to the very hash this store committed at that
    /// height — a peer cannot slip in a block it never announced.
    pub fn check_block_at(&self, height: u64, raw: &Vec<u8>) -> (r: Result<(), Error>)
        requires
            self.inv(),
        ensures
            r is Ok <==> (self.start() <= height <= self.tip_height_spec() && raw@.len() >= 80
                && crate::hash::sha256d_of(raw@.subrange(0, 80)) == hash_of(
                self.chain()[height - self.start()],
            )),
            r is Err && height < self.start() ==> r->Err_0 is MissingHeader,
            r is Err && height > self.tip_height_spec() ==> r->Err_0 is MissingHeader,
            r is Err && self.start() <= height <= self.tip_height_spec() && raw@.len() < 80
                ==> r->Err_0 is InvalidByteSequence,
    {
        if height < self.start_height {
            return Err(Error::MissingHeader);
        }
        let idx = height - self.start_height;
        if idx >= self.headers.len() as u64 {
            return Err(Error::MissingHeader);
        }
        if raw.len() < 80 {
            return Err(Error::InvalidByteSequence);
        }
        let head = crate::bytes::copy_range(raw, 0, 80);
        let parsed = match BlockHeader::parse(&head) {
            Some(h) => h,
            None => {
                proof {
                    assert(false);
                }
                return Err(Error::InvalidByteSequence);
            },
        };
        let got = parsed.header_hash();
        proof {
            assert(header_wf(self.chain()[idx as int]));
            reveal(crate::header::hash_of);
        }
        let want = self.headers[idx as usize].header_hash();
        if bytes_eq(&got, &want) {
            Ok(())
        } else {
            Err(Error::NoncontiguousHeader)
        }
    }

    /// Commit a batch of headers: exactly `commit_spec`. Validation covers
    /// the whole batch before anything is applied, so a rejected batch
    /// leaves the store untouched.
    #[verifier::rlimit(30)]
    pub fn commit_batch(&mut self, batch: &Vec<BlockHeader>, max_time: u32) -> (r: Result<
        CommitOutcome,
        Error,
    >)
        requires
            old(self).inv(),
        ensures
            final(self).inv(),
            final(self).start() == old(self).start(),
            final(self).network_spec() == old(self).network_spec(),
            r == commit_spec(
                old(self).network_spec(),
                old(self).start(),
                old(self).chain(),
                views_of(batch@),
                max_time,
            ).0,
            final(self).chain() == commit_spec(
                old(self).network_spec(),
                old(self).start(),
                old(self).chain(),
                views_of(batch@),
                max_time,
            ).1,
    {
        if batch.len() == 0 {
            proof {
                reveal(commit_spec);
            }
            return Ok(CommitOutcome::Ignored);
        }
        if !all_wf(batch) {
            proof {
                reveal(commit_spec);
            }
            return Err(Error::InvalidByteSequence);
        }
        proof {
            lemma_find_attach(self.chain(), views_of(batch@)[0].prev_blockhash);
        }
        let attach = self.find_attach_exec(&batch[0].prev_blockhash);
        let a: usize = match attach {
            None => {
                proof {
                    reveal(commit_spec);
                }
                return Err(Error::NoncontiguousHeader);
            },
            Some(a) => a,
        };
        if !all_linked(batch) {
            proof {
                reveal(commit_spec);
            }
            return Err(Error::NoncontiguousHeader);
        }
        if !all_pow(batch, max_time) {
            proof {
                reveal(commit_spec);
            }
            return Err(Error::InvalidPoW);
        }
        // the new tip height must fit
        let bl: u64 = batch.len() as u64;
        if bl > u64::MAX - self.start_height || a as u64 > u64::MAX - self.start_height - bl {
            proof {
                reveal(commit_spec);
            }
            return Err(Error::InvalidArgument);
        }
        proof {
            reveal(pow_ok);
            assert(pow_ok(self.chain()[a as int]));
            assert(bits_valid(self.chain()[a as int].bits));
            assert forall|j: int| 0 <= j < batch@.len() implies bits_valid(
                (#[trigger] batch@[j])@.bits,
            ) by {
                assert(pow_ok(views_of(batch@)[j]));
            }
        }
        let first_height: u64 = self.start_height + a as u64 + 1;
        if !all_retarget(self.network, &self.headers[a], batch, first_height) {
            proof {
                reveal(commit_spec);
                assert(self.headers@[a as int]@.bits == self.chain()[a as int].bits);
            }
            return Err(Error::InvalidPoW);
        }
        proof {
            assert(self.headers@[a as int]@.bits == self.chain()[a as int].bits);
            assert(batch_retarget_ok(
                self.network,
                self.chain()[a as int].bits,
                self.start_height + a + 1,
                views_of(batch@),
            ));
        }
        proof {
            lemma_chain_wf_extend(self.chain(), a as int, views_of(batch@));
        }
        if a == self.headers.len() - 1 {
            proof {
                assert(self.chain().take(a + 1) =~= self.chain());
            }
            append_duplicates(&mut self.headers, batch);
            proof {
                reveal(commit_spec);
                assert(self.chain() =~= old(self).chain().take(a + 1) + views_of(batch@));
            }
            return Ok(CommitOutcome::Extended);
        }
        proof {
            reveal(pow_ok);
            assert forall|j: int| 0 <= j < batch@.len() implies bits_valid(
                (#[trigger] batch@[j])@.bits,
            ) by {
                assert(pow_ok(views_of(batch@)[j]));
            }
            assert forall|j: int| a + 1 <= j < self.headers@.len() implies bits_valid(
                (#[trigger] self.headers@[j])@.bits,
            ) by {
                assert(pow_ok(self.chain()[j]));
            }
        }
        let new_work = run_work(batch, 0);
        proof {
            assert(views_of(batch@).skip(0) =~= views_of(batch@));
        }
        let old_work = run_work(&self.headers, a + 1);
        if old_work.lt(&new_work) {
            self.headers.truncate(a + 1);
            proof {
                assert(self.chain() =~= old(self).chain().take(a + 1));
            }
            append_duplicates(&mut self.headers, batch);
            proof {
                reveal(commit_spec);
                assert(self.chain() =~= old(self).chain().take(a + 1) + views_of(batch@));
            }
            return Ok(CommitOutcome::Reorged);
        }
        proof {
            reveal(commit_spec);
        }
        Ok(CommitOutcome::Ignored)
    }
}

/// Append a deep copy of every header of `src` to `dst`.
fn append_duplicates(dst: &mut Vec<BlockHeader>, src: &Vec<BlockHeader>)
    ensures
        final(dst)@.len() == old(dst)@.len() + src@.len(),
        forall|j: int| 0 <= j < old(dst)@.len() ==> (#[trigger] final(dst)@[j])@ == old(dst)@[j]@,
        forall|j: int|
            old(dst)@.len() <= j < final(dst)@.len() ==> (#[trigger] final(dst)@[j])@ == src@[j
                - old(dst)@.len()]@,
{
    let mut i: usize = 0;
    while i < src.len()
        invariant
            i <= src@.len(),
            dst@.len() == old(dst)@.len() + i,
            forall|j: int| 0 <= j < old(dst)@.len() ==> (#[trigger] dst@[j])@ == old(dst)@[j]@,
            forall|j: int|
                old(dst)@.len() <= j < dst@.len() ==> (#[trigger] dst@[j])@ == src@[j - old(
                    dst,
                )@.len()]@,
        decreases src@.len() - i,
    {
        let d = src[i].duplicate();
        dst.push(d);
        i = i + 1;
    }
}


/// Contiguity: for every height from the start height to the tip the store
/// holds a header, and above the start each header's `prev_blockhash` is
/// the hash of the header one height below.
pub proof fn lemma_store_contiguous(s: &HeaderStore, h: u64)
    requires
        s.inv(),
        s.start() <= h <= s.tip_height_spec(),
    ensures
        0 <= h - s.start() < s.chain().len(),
        h > s.start() ==> s.chain()[h - s.start()].prev_blockhash == hash_of(
            s.chain()[h - s.start() - 1],
        ),
{
}

/// No stored header lacks proof-of-work: whatever `commit_batch` accepted
/// met its declared target, and the store never holds anything else.
pub proof fn lemma_stored_headers_meet_pow(s: &HeaderStore, i: int)
    requires
        s.inv(),
        0 <= i < s.chain().len(),
    ensures
        pow_ok(s.chain()[i]),
{
}

/// `find_attach` lands exactly on a match below which it was told to look.
proof fn lemma_find_attach_at(chain: Seq<BlockHeaderV>, p: Seq<u8>, a: int)
    requires
        0 <= a < chain.len(),
        hash_of(chain[a]) == p,
        forall|j: int| a < j < chain.len() ==> hash_of(#[trigger] chain[j]) != p,
    ensures
        find_attach(chain, p) == a,
    decreases chain.len(),
{
    if a == chain.len() - 1 {
    } else {
        assert(hash_of(chain.last()) != p);
        assert forall|j: int| a < j < chain.drop_last().len() implies hash_of(
            #[trigger] chain.drop_last()[j],
        ) != p by {
            assert(chain.drop_last()[j] == chain[j]);
        }
        assert(chain.drop_last()[a] == chain[a]);
        lemma_find_attach_at(chain.drop_last(), p, a);
    }
}

/// A batch that connects to no stored header is rejected as
/// `NoncontiguousHeader` and the chain is left exactly as it was.
pub proof fn lemma_unconnected_batch_rejected(
    net: BitcoinNetworkType,
    start: u64,
    chain: Seq<BlockHeaderV>,
    batch: Seq<BlockHeaderV>,
    max_time: u32,
)
    requires
        batch.len() >= 1,
        batch_all_wf(batch),
        forall|j: int|
            0 <= j < chain.len() ==> hash_of(#[trigger] chain[j]) != batch[0].prev_blockhash,
    ensures
        commit_spec(net, start, chain, batch, max_time) == (
            Err::<CommitOutcome, Error>(Error::NoncontiguousHeader),
            chain,
        ),
{
    reveal(commit_spec);
    lemma_find_attach(chain, batch[0].prev_blockhash);
}

/// A reorg replaces exactly the headers above the fork point: afterwards
/// the chain is the common prefix up to the attach point followed by the
/// batch, whose final header is the new tip, and the adopted branch
/// carries strictly more work than the branch it displaced.
pub proof fn lemma_reorg_replaces_suffix(
    net: BitcoinNetworkType,
    start: u64,
    chain: Seq<BlockHeaderV>,
    batch: Seq<BlockHeaderV>,
    max_time: u32,
)
    requires
        commit_spec(net, start, chain, batch, max_time).0 == Ok::<CommitOutcome, Error>(
            CommitOutcome::Reorged,
        ),
    ensures
        ({
            let a = find_attach(chain, batch[0].prev_blockhash);
            let c2 = commit_spec(net, start, chain, batch, max_time).1;
            &&& 0 <= a < chain.len() - 1
            &&& c2 == chain.take(a + 1) + batch
            &&& c2.len() == a + 1 + batch.len()
            &&& c2.last() == batch.last()
            &&& chain_work(batch) > chain_work(chain.skip(a + 1))
        }),
{
    reveal(commit_spec);
    lemma_find_attach(chain, batch[0].prev_blockhash);
    let a = find_attach(chain, batch[0].prev_blockhash);
    let c2 = commit_spec(net, start, chain, batch, max_time).1;
    assert(c2.last() == batch.last());
}

/// Committing the same batch again changes nothing: a batch that once
/// extended the chain is ignored the second time, and the chain stays as
/// the first commit left it. The one proviso is that no header the first
/// commit appended hashes to the attach hash itself, which double SHA-256
/// never yields on a real chain.
pub proof fn lemma_commit_idempotent(
    net: BitcoinNetworkType,
    start: u64,
    chain: Seq<BlockHeaderV>,
    batch: Seq<BlockHeaderV>,
    max_time: u32,
)
    requires
        commit_spec(net, start, chain, batch, max_time).0 == Ok::<CommitOutcome, Error>(
            CommitOutcome::Extended,
        ),
        forall|j: int|
            chain.len() <= j < commit_spec(net, start, chain, batch, max_time).1.len() ==> hash_of(
                #[trigger] commit_spec(net, start, chain, batch, max_time).1[j],
            ) != batch[0].prev_blockhash,
    ensures
        commit_spec(net, start, commit_spec(net, start, chain, batch, max_time).1, batch, max_time) == (
            Ok::<CommitOutcome, Error>(CommitOutcome::Ignored),
            commit_spec(net, start, chain, batch, max_time).1,
        ),
{
    reveal(commit_spec);
    lemma_find_attach(chain, batch[0].prev_blockhash);
    let p = batch[0].prev_blockhash;
    let a = find_attach(chain, p);
    assert(a == chain.len() - 1);
    let c2 = commit_spec(net, start, chain, batch, max_time).1;
    assert(c2 == chain.take(a + 1) + batch);
    assert(chain.take(a + 1) =~= chain);
    assert(c2 == chain + batch);
    assert(hash_of(c2[a]) == p) by {
        assert(c2[a] == chain[a]);
    }
    assert forall|j: int| a < j < c2.len() implies hash_of(#[trigger] c2[j]) != p by {
        assert(j >= chain.len());
    }
    lemma_find_attach_at(c2, p, a);
    assert(a < c2.len() - 1);
    assert(c2.skip(a + 1) =~= batch);
    assert(chain_work(c2.skip(a + 1)) == chain_work(batch));
    assert(c2.take(a + 1) =~= chain);
    assert(start + a + batch.len() <= u64::MAX);
}

} // verus!
