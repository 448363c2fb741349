//! Observability signals of the randomness beacon.
//!
//! Only the recorded values matter to the protocol, so the gauges and
//! counters are modelled as plain fields; an embedding can mirror them into
//! any metrics registry. Each signal is optional: a disabled sink records
//! nothing. The highest completed round is tracked in a plain field owned by
//! the single-writer actor, which keeps the completion sequence monotone
//! without any cross-task state.

use vstd::prelude::*;

verus! {

/// The beacon's metric signals. `None` fields belong to a disabled sink.
pub struct Metrics {
    /// Current epoch for randomness generation.
    pub epoch: Option<u64>,
    /// Number of rounds pending randomness.
    pub num_rounds_pending: Option<u64>,
    /// Number of peers that exhibited Byzantine behaviour and are now ignored.
    pub num_ignored_byzantine_peers: Option<u64>,
    /// Highest round for which randomness was completed.
    pub round_completion_sequence: Option<u64>,
    /// Plain single-writer copy of the highest completed round, used to keep
    /// the completion sequence from moving backwards.
    pub last_completed_round: u64,
}

/// The sink after recording a new epoch.
pub open spec fn with_epoch(m: Metrics, epoch: u64) -> Metrics {
    Metrics { epoch: if m.epoch is Some { Some(epoch) } else { None }, ..m }
}

/// The sink after recording the pending-round count.
pub open spec fn with_rounds_pending(m: Metrics, n: u64) -> Metrics {
    Metrics {
        num_rounds_pending: if m.num_rounds_pending is Some { Some(n) } else { None },
        ..m
    }
}

/// The sink after one more Byzantine peer was ignored; the counter saturates
/// at its maximum rather than wrapping.
pub open spec fn with_byzantine_inc(m: Metrics) -> Metrics {
    Metrics {
        num_ignored_byzantine_peers: match m.num_ignored_byzantine_peers {
            Some(c) => if c == u64::MAX { Some(c) } else { Some((c + 1) as u64) },
            None => None,
        },
        ..m
    }
}

/// The sink after a round completed: the completion sequence only ever moves
/// forward, whatever order completions are observed in.
pub open spec fn with_completed_round(m: Metrics, round: u64) -> Metrics {
    if round > m.last_completed_round {
        Metrics {
            round_completion_sequence: if m.round_completion_sequence is Some {
                Some(round)
            } else {
                None
            },
            last_completed_round: round,
            ..m
        }
    } else {
        m
    }
}

impl Metrics {
    /// A sink that records every signal, all starting at zero.
    pub fn enabled() -> (m: Metrics)
        ensures
            m == (Metrics {
                epoch: Some(0u64),
                num_rounds_pending: Some(0u64),
                num_ignored_byzantine_peers: Some(0u64),
                round_completion_sequence: Some(0u64),
                last_completed_round: 0u64,
            }),
    {
        Metrics {
            epoch: Some(0),
            num_rounds_pending: Some(0),
            num_ignored_byzantine_peers: Some(0),
            round_completion_sequence: Some(0),
            last_completed_round: 0,
        }
    }

    /// A sink that records nothing.
    pub fn disabled() -> (m: Metrics)
        ensures
            m == (Metrics {
                epoch: None,
                num_rounds_pending: None,
                num_ignored_byzantine_peers: None,
                round_completion_sequence: None,
                last_completed_round: 0u64,
            }),
    {
        Metrics {
            epoch: None,
            num_rounds_pending: None,
            num_ignored_byzantine_peers: None,
            round_completion_sequence: None,
            last_completed_round: 0,
        }
    }

    /// Records the current epoch.
    pub fn set_epoch(&mut self, epoch: u64)
        ensures
            *final(self) == with_epoch(*old(self), epoch),
    {
        if self.epoch.is_some() {
            self.epoch = Some(epoch);
        }
    }

    /// Reads the pending-round gauge, if the sink is enabled.
    pub fn num_rounds_pending(&self) -> (r: Option<u64>)
        ensures
            r == self.num_rounds_pending,
    {
        self.num_rounds_pending
    }

    /// Records the number of rounds pending randomness.
    pub fn set_num_rounds_pending(&mut self, n: u64)
        ensures
            *final(self) == with_rounds_pending(*old(self), n),
    {
        if self.num_rounds_pending.is_some() {
            self.num_rounds_pending = Some(n);
        }
    }

    /// Counts one more ignored Byzantine peer.
    pub fn inc_num_ignored_byzantine_peers(&mut self)
        ensures
            *final(self) == with_byzantine_inc(*old(self)),
    {
        match self.num_ignored_byzantine_peers {
            Some(c) => {
                if c == u64::MAX {
                    self.num_ignored_byzantine_peers = Some(c);
                } else {
                    self.num_ignored_byzantine_peers = Some(c + 1);
                }
            },
            None => {},
        }
    }

    /// Records a completed round; a round at or below the highest already
    /// recorded leaves the sequence untouched.
    pub fn record_completed_round(&mut self, round: u64)
        ensures
            *final(self) == with_completed_round(*old(self), round),
            final(self).last_completed_round >= old(self).last_completed_round,
    {
        if round > self.last_completed_round {
            if self.round_completion_sequence.is_some() {
                self.round_completion_sequence = Some(round);
            }
            self.last_completed_round = round;
        }
    }
}

impl Default for Metrics {
    /// The default sink records nothing.
    fn default() -> (m: Metrics)
        ensures
            m == (Metrics {
                epoch: None,
                num_rounds_pending: None,
                num_ignored_byzantine_peers: None,
                round_completion_sequence: None,
                last_completed_round: 0u64,
            }),
    {
        Metrics::disabled()
    }
}

} // verus!
