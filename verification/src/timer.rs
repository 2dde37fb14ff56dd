//! The round timer: computes each phase's timeout from the configuration,
//! applies exponential back-off to the propose phase, and drops triggers that
//! arrive for a height or round already left behind.

use vstd::prelude::*;
use crate::types::TimeConfig;
use crate::{Height, Round};

verus! {

/// The phase a timeout is armed for.
#[derive(Clone, Copy, Debug, PartialEq, Eq)]
pub enum TimerPhase {
    Propose,
    PreVote,
    PreCommit,
    Brake,
}

/// A timeout that fired and survived the staleness check.
#[derive(Clone, Debug, PartialEq, Eq)]
pub struct TimerTrigger {
    pub height: Height,
    pub round: Round,
    pub phase: TimerPhase,
}

/// Two to the power `n`.
pub open spec fn pow2(n: nat) -> nat
    decreases n,
{
    if n == 0 {
        1
    } else {
        2 * pow2((n - 1) as nat)
    }
}

/// The back-off exponent for a round: the round number, capped at ten.
pub open spec fn backoff_exp(round: int) -> nat {
    if round > 10 {
        10
    } else if round < 0 {
        0
    } else {
        round as nat
    }
}

/// The configured ratio of a phase, in tenths of the interval.
pub open spec fn phase_ratio(config: TimeConfig, phase: TimerPhase) -> int {
    match phase {
        TimerPhase::Propose => config.propose_ratio as int,
        TimerPhase::PreVote => config.pre_vote_ratio as int,
        TimerPhase::PreCommit => config.pre_commit_ratio as int,
        TimerPhase::Brake => config.brake_ratio as int,
    }
}

/// The timeout for a phase at a round: the interval scaled by the phase's
/// ratio in tenths, doubled per round for the propose phase up to `2^10`.
pub open spec fn spec_timeout(config: TimeConfig, phase: TimerPhase, round: int) -> int {
    let base = config.interval * phase_ratio(config, phase) / 10;
    if phase is Propose {
        base * pow2(backoff_exp(round))
    } else {
        base
    }
}

/// Computes two to the power of `min(round, 10)`.
fn pow2_capped(round: u64) -> (r: u64)
    ensures
        r == pow2(backoff_exp(round as int)),
        1 <= r <= 1024,
{
    let coef: u64 = if round > 10 {
        10
    } else {
        round
    };
    let mut acc: u64 = 1;
    let mut k: u64 = 0;
    while k < coef
        invariant
            k <= coef,
            coef <= 10,
            acc == pow2(k as nat),
            1 <= acc <= 1024,
        decreases coef - k,
    {
        proof {
            assert(pow2((k + 1) as nat) == 2 * pow2(k as nat));
            lemma_pow2_le((k + 1) as nat, 10);
            assert(pow2(10) == 1024) by {
                reveal_with_fuel(pow2, 11);
            }
        }
        acc = 2 * acc;
        k += 1;
    }
    acc
}

/// `pow2` is monotone.
pub proof fn lemma_pow2_le(a: nat, b: nat)
    requires
        a <= b,
    ensures
        pow2(a) <= pow2(b),
    decreases b,
{
    if a < b {
        lemma_pow2_le(a, (b - 1) as nat);
    }
}

/// The timer's view of where consensus stands, used to drop stale firings.
#[derive(Clone, Debug)]
pub struct Timer {
    config: TimeConfig,
    height: Height,
    round: Round,
}

impl Timer {
    /// The configuration in force.
    pub closed spec fn spec_config(&self) -> TimeConfig {
        self.config
    }

    /// The height the timer believes is current.
    pub closed spec fn spec_height(&self) -> int {
        self.height as int
    }

    /// The round the timer believes is current.
    pub closed spec fn spec_round(&self) -> int {
        self.round as int
    }

    /// A fresh timer at height 0, round 0, with `interval` as base unless a
    /// full configuration overrides it.
    pub fn new(interval: u64, config: Option<TimeConfig>) -> (r: Timer)
        ensures
            r.spec_height() == 0,
            r.spec_round() == 0,
            match config {
                Some(c) => r.spec_config() == c,
                None => r.spec_config() == (TimeConfig {
                    interval: interval,
                    propose_ratio: 15,
                    pre_vote_ratio: 10,
                    pre_commit_ratio: 7,
                    brake_ratio: 10,
                }),
            },
    {
        let mut time_config = TimeConfig::default();
        time_config.interval = interval;
        let chosen = match config {
            Some(c) => c,
            None => time_config,
        };
        Timer { config: chosen, height: 0, round: 0 }
    }

    /// Whether the configured propose products stay inside `u64`, so that
    /// arming a round timer cannot overflow; a caller checks this before
    /// [`Self::set_round_timer`].
    pub fn round_timer_fits(&self) -> (r: bool)
        ensures
            r == (self.spec_config().interval * self.spec_config().propose_ratio <= u64::MAX
                && self.spec_config().interval * self.spec_config().propose_ratio / 10 * 1024
                <= u64::MAX),
    {
        match self.config.interval.checked_mul(self.config.propose_ratio) {
            Some(product) => (product / 10).checked_mul(1024).is_some(),
            None => false,
        }
    }

    /// Notes that a new round was entered and returns the propose timeout to
    /// arm, with exponential back-off capped at `2^10`. The height only moves
    /// forward.
    pub fn set_round_timer(&mut self, height: Height, round: Round) -> (d: u64)
        requires
            old(self).spec_config().interval * old(self).spec_config().propose_ratio
                <= u64::MAX,
            old(self).spec_config().interval * old(self).spec_config().propose_ratio / 10 * 1024
                <= u64::MAX,
        ensures
            d == spec_timeout(old(self).spec_config(), TimerPhase::Propose, round as int),
            final(self).spec_config() == old(self).spec_config(),
            final(self).spec_height() == if height > old(self).spec_height() {
                height as int
            } else {
                old(self).spec_height()
            },
            final(self).spec_round() == round as int,
    {
        if height > self.height {
            self.height = height;
        }
        self.round = round;
        let base = self.config.interval * self.config.propose_ratio / 10;
        let factor = pow2_capped(round);
        proof {
            lemma_pow2_le(backoff_exp(round as int), 10);
            assert(pow2(10) == 1024) by {
                reveal_with_fuel(pow2, 11);
            }
            assert(base * factor <= base * 1024) by (nonlinear_arith)
                requires
                    factor <= 1024,
                    base >= 0,
            ;
        }
        base * factor
    }

    /// The timeout to arm for a phase, without back-off: the interval scaled
    /// by the phase's ratio in tenths. The propose phase's armed duration
    /// additionally carries the round back-off and comes from the round
    /// timer.
    pub fn set_phase_timer(&self, phase: TimerPhase) -> (d: u64)
        requires
            self.spec_config().interval * phase_ratio(self.spec_config(), phase) <= u64::MAX,
        ensures
            d == self.spec_config().interval * phase_ratio(self.spec_config(), phase) / 10,
            !(phase is Propose) ==> d == spec_timeout(self.spec_config(), phase, 0),
    {
        let ratio = match phase {
            TimerPhase::Propose => self.config.propose_ratio,
            TimerPhase::PreVote => self.config.pre_vote_ratio,
            TimerPhase::PreCommit => self.config.pre_commit_ratio,
            TimerPhase::Brake => self.config.brake_ratio,
        };
        self.config.interval * ratio / 10
    }

    /// Judges a fired timeout: a firing whose height or round lies behind
    /// the timer's current position is stale, whatever its phase, and is
    /// dropped as a no-op.
    pub fn trigger(&self, height: Height, round: Round, phase: TimerPhase) -> (r: Option<
        TimerTrigger,
    >)
        ensures
            match r {
                Some(t) => t.height == height && t.round == round && t.phase == phase
                    && !self.is_stale(height as int, round as int, phase),
                None => self.is_stale(height as int, round as int, phase),
            },
    {
        let stale = height < self.height || round < self.round;
        if stale {
            None
        } else {
            Some(TimerTrigger { height, round, phase })
        }
    }

    /// Whether a firing for `(height, round, phase)` lags the timer's state.
    pub open spec fn is_stale(&self, height: int, round: int, phase: TimerPhase) -> bool {
        height < self.spec_height() || round < self.spec_round()
    }
}

} // verus!
