//! Checkpoint synchronization signals: the gauges the protocol records and
//! the checkpoint-age computation behind its latency observations.
//!
//! The dissemination machinery itself — stores, transports, download
//! scheduling — lives with the embedding; only the recorded values are
//! modelled here.

use vstd::pervasive::VecAdditionalExecFns;
use vstd::prelude::*;

verus! {

/// The state-sync gauges. `None` fields belong to a disabled sink. The age
/// histograms are the embedding's, fed from `checkpoint_age_ms`.
pub struct Metrics {
    /// Highest checkpoint known to other peers.
    pub highest_known_checkpoint: Option<u64>,
    /// Highest checkpoint verified locally.
    pub highest_verified_checkpoint: Option<u64>,
    /// Highest checkpoint contents synced locally.
    pub highest_synced_checkpoint: Option<u64>,
}

impl Metrics {
    /// A sink that records every gauge, all starting at zero.
    pub fn enabled() -> (m: Metrics)
        ensures
            m == (Metrics {
                highest_known_checkpoint: Some(0u64),
                highest_verified_checkpoint: Some(0u64),
                highest_synced_checkpoint: Some(0u64),
            }),
    {
        Metrics {
            highest_known_checkpoint: Some(0),
            highest_verified_checkpoint: Some(0),
            highest_synced_checkpoint: Some(0),
        }
    }

    /// A sink that records nothing.
    pub fn disabled() -> (m: Metrics)
        ensures
            m == (Metrics {
                highest_known_checkpoint: None::<u64>,
                highest_verified_checkpoint: None::<u64>,
                highest_synced_checkpoint: None::<u64>,
            }),
    {
        Metrics {
            highest_known_checkpoint: None,
            highest_verified_checkpoint: None,
            highest_synced_checkpoint: None,
        }
    }

    /// Records the highest checkpoint known to peers.
    pub fn set_highest_known_checkpoint(&mut self, sequence_number: u64)
        ensures
            final(self).highest_known_checkpoint == if old(self).highest_known_checkpoint
                is Some {
                Some(sequence_number)
            } else {
                None::<u64>
            },
            final(self).highest_verified_checkpoint == old(self).highest_verified_checkpoint,
            final(self).highest_synced_checkpoint == old(self).highest_synced_checkpoint,
    {
        if self.highest_known_checkpoint.is_some() {
            self.highest_known_checkpoint = Some(sequence_number);
        }
    }

    /// Records the highest locally verified checkpoint.
    pub fn set_highest_verified_checkpoint(&mut self, sequence_number: u64)
        ensures
            final(self).highest_verified_checkpoint == if old(self).highest_verified_checkpoint
                is Some {
                Some(sequence_number)
            } else {
                None::<u64>
            },
            final(self).highest_known_checkpoint == old(self).highest_known_checkpoint,
            final(self).highest_synced_checkpoint == old(self).highest_synced_checkpoint,
    {
        if self.highest_verified_checkpoint.is_some() {
            self.highest_verified_checkpoint = Some(sequence_number);
        }
    }

    /// Records the highest locally synced checkpoint.
    pub fn set_highest_synced_checkpoint(&mut self, sequence_number: u64)
        ensures
            final(self).highest_synced_checkpoint == if old(self).highest_synced_checkpoint
                is Some {
                Some(sequence_number)
            } else {
                None::<u64>
            },
            final(self).highest_known_checkpoint == old(self).highest_known_checkpoint,
            final(self).highest_verified_checkpoint == old(self).highest_verified_checkpoint,
    {
        if self.highest_synced_checkpoint.is_some() {
            self.highest_synced_checkpoint = Some(sequence_number);
        }
    }
}

impl Default for Metrics {
    /// The default sink records nothing.
    fn default() -> (m: Metrics)
        ensures
            m == (Metrics {
                highest_known_checkpoint: None::<u64>,
                highest_verified_checkpoint: None::<u64>,
                highest_synced_checkpoint: None::<u64>,
            }),
    {
        Metrics::disabled()
    }
}

/// How long between-prune intervals last, in seconds.
pub const DOWNLOAD_LIMIT_PRUNE_INTERVAL_SECS: u64 = 300;

/// Well-formedness of the limiter's table: one row per checkpoint digest.
pub open spec fn limiter_wf(requests: Seq<(u64, u64)>) -> bool {
    forall|i: int, j: int| 0 <= i < j < requests.len() ==> requests[i].0 != requests[j].0
}

/// The downloads counted so far against one checkpoint digest.
pub open spec fn download_count(requests: Seq<(u64, u64)>, digest: u64) -> u64 {
    if exists|i: int| 0 <= i < requests.len() && (#[trigger] requests[i]).0 == digest {
        requests[choose|i: int| 0 <= i < requests.len() && (#[trigger] requests[i]).0 == digest].1
    } else {
        0
    }
}

/// In a well-formed table, the row at a known index is the digest's unique
/// row.
proof fn lemma_download_count_at(requests: Seq<(u64, u64)>, k: int)
    requires
        limiter_wf(requests),
        0 <= k < requests.len(),
    ensures
        download_count(requests, requests[k].0) == requests[k].1,
{
    let digest = requests[k].0;
    assert(0 <= k < requests.len() && requests[k].0 == digest);
    let i = choose|i: int| 0 <= i < requests.len() && (#[trigger] requests[i]).0 == digest;
    if i < k {
        assert(requests[i].0 != requests[k].0);
    } else if i > k {
        assert(requests[k].0 != requests[i].0);
    }
}

/// Finds a digest's row in the limiter's table.
fn find_digest_index(v: &Vec<(u64, u64)>, digest: u64) -> (r: Option<usize>)
    ensures
        r matches Some(k) ==> k < v@.len() && v@[k as int].0 == digest,
        r is None ==> forall|i: int| 0 <= i < v@.len() ==> (#[trigger] v@[i]).0 != digest,
{
    let mut k: usize = 0;
    while k < v.len()
        invariant
            0 <= k <= v@.len(),
            forall|p: int| 0 <= p < k ==> (#[trigger] v@[p]).0 != digest,
        decreases v@.len() - k,
    {
        if v[k].0 == digest {
            return Some(k);
        }
        k = k + 1;
    }
    None
}

/// A middleware policy bounding how many times each checkpoint's contents
/// are served per pruning interval.
pub struct CheckpointContentsDownloadLimitLayer {
    maximum: u64,
    requests_per_checkpoint: Vec<(u64, u64)>,
}

impl CheckpointContentsDownloadLimitLayer {
    /// The limiter's table invariant.
    pub closed spec fn wf(self) -> bool {
        limiter_wf(self.requests_per_checkpoint@)
    }

    /// The configured per-checkpoint bound.
    pub closed spec fn spec_maximum(self) -> u64 {
        self.maximum
    }

    /// The downloads counted so far against one digest.
    pub closed spec fn count(self, digest: u64) -> u64 {
        download_count(self.requests_per_checkpoint@, digest)
    }

    /// A fresh limiter with a per-checkpoint bound and an empty table.
    pub fn new(maximum: u64) -> (r: CheckpointContentsDownloadLimitLayer)
        ensures
            r.wf(),
            r.spec_maximum() == maximum,
            forall|d: u64| r.count(d) == 0,
    {
        CheckpointContentsDownloadLimitLayer { maximum, requests_per_checkpoint: Vec::new() }
    }

    /// Admits one download of a checkpoint's contents exactly while the
    /// digest's count is below the bound, counting it; over the bound the
    /// request is refused and nothing changes.
    pub fn try_acquire(&mut self, digest: u64) -> (r: bool)
        requires
            old(self).wf(),
        ensures
            final(self).wf(),
            final(self).spec_maximum() == old(self).spec_maximum(),
            r <==> old(self).count(digest) < old(self).spec_maximum(),
            r ==> final(self).count(digest) == old(self).count(digest) + 1,
            !r ==> *final(self) == *old(self),
            forall|d: u64| d != digest ==> final(self).count(d) == old(self).count(d),
    {
        let ghost pre = self.requests_per_checkpoint@;
        match find_digest_index(&self.requests_per_checkpoint, digest) {
            Some(k) => {
                proof {
                    lemma_download_count_at(pre, k as int);
                }
                let count = self.requests_per_checkpoint[k].1;
                if count >= self.maximum {
                    return false;
                }
                self.requests_per_checkpoint.set(k, (digest, count + 1));
                proof {
                    let post = self.requests_per_checkpoint@;
                    let ki = k as int;
                    assert(limiter_wf(post)) by {
                        assert forall|i: int, j: int| 0 <= i < j < post.len() implies post[i].0
                            != post[j].0 by {
                            assert(pre[i].0 != pre[j].0);
                            assert(post[ki].0 == pre[ki].0);
                        }
                    }
                    lemma_download_count_at(post, ki);
                    assert forall|d: u64| d != digest implies download_count(post, d)
                        == download_count(pre, d) by {
                        if exists|i: int| 0 <= i < post.len() && (#[trigger] post[i]).0 == d {
                            let i = choose|i: int|
                                0 <= i < post.len() && (#[trigger] post[i]).0 == d;
                            assert(i != ki);
                            assert(pre[i] == post[i]);
                            lemma_download_count_at(pre, i);
                            lemma_download_count_at(post, i);
                        } else {
                            assert forall|i: int| 0 <= i < pre.len() implies (
                            #[trigger] pre[i]).0 != d by {
                                if i != ki {
                                    assert(post[i] == pre[i]);
                                } else {
                                    assert(post[ki].0 == pre[ki].0);
                                }
                            }
                        }
                    }
                }
                true
            },
            None => {
                if self.maximum == 0 {
                    return false;
                }
                self.requests_per_checkpoint.push((digest, 1));
                proof {
                    let post = self.requests_per_checkpoint@;
                    assert(limiter_wf(post)) by {
                        assert forall|i: int, j: int| 0 <= i < j < post.len() implies post[i].0
                            != post[j].0 by {
                            if j == post.len() - 1 {
                                assert(pre[i].0 != digest);
                            } else {
                                assert(pre[i].0 != pre[j].0);
                            }
                        }
                    }
                    assert(post[post.len() - 1] == (digest, 1u64));
                    lemma_download_count_at(post, post.len() - 1);
                    assert(!(exists|i: int|
                        0 <= i < pre.len() && (#[trigger] pre[i]).0 == digest));
                    assert forall|d: u64| d != digest implies download_count(post, d)
                        == download_count(pre, d) by {
                        if exists|i: int| 0 <= i < post.len() && (#[trigger] post[i]).0 == d {
                            let i = choose|i: int|
                                0 <= i < post.len() && (#[trigger] post[i]).0 == d;
                            assert(i < post.len() - 1);
                            assert(pre[i] == post[i]);
                            lemma_download_count_at(pre, i);
                            lemma_download_count_at(post, i);
                        } else {
                            assert forall|i: int| 0 <= i < pre.len() implies (
                            #[trigger] pre[i]).0 != d by {
                                assert(post[i] == pre[i]);
                            }
                        }
                    }
                }
                true
            },
        }
    }

    /// Clears the table once a pruning interval has elapsed; returns whether
    /// it pruned. The clock probe is the embedding's work.
    pub fn maybe_prune_map(&mut self, elapsed_secs: u64) -> (pruned: bool)
        requires
            old(self).wf(),
        ensures
            final(self).wf(),
            final(self).spec_maximum() == old(self).spec_maximum(),
            pruned <==> elapsed_secs > DOWNLOAD_LIMIT_PRUNE_INTERVAL_SECS,
            pruned ==> forall|d: u64| final(self).count(d) == 0,
            !pruned ==> *final(self) == *old(self),
    {
        if elapsed_secs > DOWNLOAD_LIMIT_PRUNE_INTERVAL_SECS {
            self.requests_per_checkpoint.clear();
            true
        } else {
            false
        }
    }
}

/// The age of a checkpoint summary, observed only when the clock is ahead
/// of the summary's timestamp: a clock behind the timestamp yields nothing
/// rather than a negative age.
pub fn checkpoint_age_ms(now_ms: u64, timestamp_ms: u64) -> (r: Option<u64>)
    ensures
        r is Some <==> now_ms > timestamp_ms,
        r matches Some(age) ==> age == now_ms - timestamp_ms,
{
    if now_ms > timestamp_ms {
        Some(now_ms - timestamp_ms)
    } else {
        None
    }
}

} // verus!
