//! The header-synchronization engine: a state machine that turns header
//! batches from the peer into store commits and decides what to ask next.

use vstd::prelude::*;
use crate::header::BlockHeader;
use crate::store::{HeaderStore, CommitOutcome, commit_spec, views_of};
use crate::Error;

verus! {

/// Where a sync run stands.
#[derive(Debug, Clone, Copy, PartialEq, Eq, Structural)]
pub enum SyncState {
    /// Nothing requested yet.
    Idle,
    /// A `getheaders` request is outstanding.
    RequestingHeaders,
    /// The last batch was committed and the target is reached.
    Committed,
    /// The session is gone; the controller must reconnect.
    Disconnected,
}

/// What the engine asks its caller to do next.
#[derive(Debug, Clone)]
pub enum SyncAction {
    /// Ask the peer for headers above the current tip.
    RequestHeaders,
    /// The target height is reached; the run is complete.
    Done,
    /// Tear the session down and reconnect.
    Reconnect,
    /// Fail the run with this error.
    Abort(Error),
}

/// Drives header batches into the store until the target height is
/// reached, retrying rejected batches a bounded number of times.
pub struct HeaderSyncEngine {
    pub state: SyncState,
    pub target_height: u64,
    pub retries: u32,
    pub max_retries: u32,
}

impl HeaderSyncEngine {
    /// A fresh engine aiming at `target_height`.
    pub fn new(target_height: u64, max_retries: u32) -> (r: HeaderSyncEngine)
        ensures
            r.state is Idle,
            r.target_height == target_height,
            r.retries == 0,
            r.max_retries == max_retries,
    {
        HeaderSyncEngine { state: SyncState::Idle, target_height, retries: 0, max_retries }
    }

    /// Start the run: the first header request goes out.
    pub fn begin(&mut self) -> (r: SyncAction)
        requires
            old(self).state is Idle,
        ensures
            final(self).state is RequestingHeaders,
            final(self).target_height == old(self).target_height,
            final(self).retries == old(self).retries,
            final(self).max_retries == old(self).max_retries,
            r is RequestHeaders,
    {
        self.state = SyncState::RequestingHeaders;
        SyncAction::RequestHeaders
    }

    /// Take one header batch from the peer. The store moves exactly as
    /// `commit_spec` says. A batch the store accepted advances the run:
    /// on to the next request, or `Done` once the tip reaches the target.
    /// A valid batch that offers nothing new while the tip is short of the
    /// target means the peer cannot serve the target: the run aborts with
    /// `BlockchainHeight`. A rejected batch never touches the store and is
    /// re-requested at most `max_retries` times before the engine gives
    /// the session up.
    pub fn on_headers(
        &mut self,
        store: &mut HeaderStore,
        batch: &Vec<BlockHeader>,
        max_time: u32,
    ) -> (r: SyncAction)
        requires
            old(self).state is RequestingHeaders,
            old(store).inv(),
        ensures
            final(store).inv(),
            final(store).start() == old(store).start(),
            final(self).target_height == old(self).target_height,
            final(self).max_retries == old(self).max_retries,
            final(store).network_spec() == old(store).network_spec(),
            final(store).chain() == commit_spec(
                old(store).network_spec(),
                old(store).start(),
                old(store).chain(),
                views_of(batch@),
                max_time,
            ).1,
            ({
                let outcome = commit_spec(
                    old(store).network_spec(),
                    old(store).start(),
                    old(store).chain(),
                    views_of(batch@),
                    max_time,
                ).0;
                let reached = final(store).tip_height_spec() >= old(self).target_height;
                match outcome {
                    Ok(o) => {
                        if reached {
                            r is Done && final(self).state is Committed
                        } else if o is Ignored {
                            r == SyncAction::Abort(Error::BlockchainHeight) && final(self).state
                                is Committed
                        } else {
                            r is RequestHeaders && final(self).state is RequestingHeaders
                        }
                    },
                    Err(e) => {
                        if old(self).retries < old(self).max_retries {
                            r is RequestHeaders && final(self).state is RequestingHeaders
                                && final(self).retries == old(self).retries + 1
                        } else {
                            r == SyncAction::Abort(e) && final(self).state is Disconnected
                        }
                    },
                }
            }),
    {
        let outcome = store.commit_batch(batch, max_time);
        match outcome {
            Ok(o) => {
                self.retries = 0;
                let tip = store.tip_height();
                if tip >= self.target_height {
                    self.state = SyncState::Committed;
                    SyncAction::Done
                } else {
                    match o {
                        CommitOutcome::Ignored => {
                            self.state = SyncState::Committed;
                            SyncAction::Abort(Error::BlockchainHeight)
                        },
                        _ => {
                            self.state = SyncState::RequestingHeaders;
                            SyncAction::RequestHeaders
                        },
                    }
                }
            },
            Err(e) => {
                if self.retries < self.max_retries {
                    self.retries = self.retries + 1;
                    self.state = SyncState::RequestingHeaders;
                    SyncAction::RequestHeaders
                } else {
                    self.state = SyncState::Disconnected;
                    SyncAction::Abort(e)
                }
            },
        }
    }

    /// The outstanding request timed out: the header is missing and the
    /// session is no longer trusted; the controller must reconnect.
    pub fn on_timeout(&mut self) -> (r: (SyncAction, Error))
        requires
            old(self).state is RequestingHeaders,
        ensures
            final(self).state is Disconnected,
            final(self).target_height == old(self).target_height,
            r == (SyncAction::Reconnect, Error::MissingHeader),
    {
        self.state = SyncState::Disconnected;
        (SyncAction::Reconnect, Error::MissingHeader)
    }

    /// The session reported a broken connection mid-run.
    pub fn on_disconnect(&mut self) -> (r: SyncAction)
        ensures
            final(self).state is Disconnected,
            final(self).target_height == old(self).target_height,
            r is Reconnect,
    {
        self.state = SyncState::Disconnected;
        SyncAction::Reconnect
    }

    /// Resume after a reconnect: the run picks up from the store's tip,
    /// re-requesting nothing below it.
    pub fn resume(&mut self) -> (r: SyncAction)
        requires
            old(self).state is Disconnected,
        ensures
            final(self).state is RequestingHeaders,
            final(self).target_height == old(self).target_height,
            final(self).retries == 0,
            r is RequestHeaders,
    {
        self.retries = 0;
        self.state = SyncState::RequestingHeaders;
        SyncAction::RequestHeaders
    }
}

} // verus!
