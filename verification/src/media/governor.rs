//! The video bitrate following the loss on the path.
//!
//! A fixed rate on a saturated uplink pushes more than fits: what does not fit becomes loss,
//! the loss becomes retransmission, and the retransmission competes for the same uplink.
//! Here the rate goes down when the loss says it is congestion, and climbs back slowly when
//! the loss is gone. Nothing here reads the network or the clock: the caller hands over the
//! numbers of one window (about a second) and gets the decision back.

use vstd::prelude::*;

verus! {

/// With fewer packets than this the percentage is noise; what a window brought is kept and
/// added to the next one instead of being thrown away.
pub const MIN_PACKETS: u64 = 100;

/// Loss, in ‰, from which a window counts as congestion.
pub const CONGESTED_PERMILLE: u64 = 50;

/// Below this, in ‰, a window counts as clean.
pub const CLEAN_PERMILLE: u64 = 10;

/// Consecutive clean windows before each increase.
pub const CLEAN_WINDOWS: u32 = 5;

/// Measured windows after a decrease during which the governor cannot decrease again.
pub const HOLDOFF_WINDOWS: u32 = 8;

pub const DECREASE_PERCENT: u64 = 70;

pub const INCREASE_PERCENT: u64 = 105;

/// The floor limits the damage when the heuristic is wrong.
pub const FLOOR_PERCENT: u64 = 35;

/// `percent` of a bitrate, rounded down to a whole number of bits per second.
pub open spec fn spec_scale(bitrate: u32, percent: u64) -> int {
    (bitrate as int * percent as int) / 100
}

pub open spec fn min_int(a: int, b: int) -> int {
    if a <= b { a } else { b }
}

pub open spec fn max_int(a: int, b: int) -> int {
    if a >= b { a } else { b }
}

/// What the governor knows between two windows.
pub struct GovernorView {
    pub ceiling: u32,
    pub floor: u32,
    pub target: u32,
    pub enabled: bool,
    pub clean_windows: u32,
    pub holdoff: u32,
    pub sent: u64,
    pub nacked: u64,
    pub dropped: u64,
    pub loss_permille: u32,
}

impl GovernorView {
    /// The state every reachable governor is in.
    pub open spec fn wf(self) -> bool {
        &&& self.floor == spec_scale(self.ceiling, FLOOR_PERCENT)
        &&& self.floor <= self.target <= self.ceiling
        &&& self.sent < MIN_PACKETS
        &&& self.clean_windows < CLEAN_WINDOWS
        &&& self.holdoff <= HOLDOFF_WINDOWS
        &&& self.loss_permille <= 1000
    }

    /// The governor right after `new`.
    pub open spec fn initial(ceiling: u32, enabled: bool) -> GovernorView {
        GovernorView {
            ceiling,
            floor: spec_scale(ceiling, FLOOR_PERCENT) as u32,
            target: ceiling,
            enabled,
            clean_windows: 0,
            holdoff: 0,
            sent: 0,
            nacked: 0,
            dropped: 0,
            loss_permille: 0,
        }
    }

    /// The loss of a window with `sent` packets, in ‰: the larger of the requested and the
    /// dropped, never above everything.
    pub open spec fn loss(nacked: u64, dropped: u64, sent: u64) -> u32 {
        min_int(max_int(nacked as int, dropped as int) * 1000 / sent as int, 1000) as u32
    }

    /// A decided rate `wanted` taking effect on an already measured state.
    pub open spec fn decide(self, wanted: u32) -> (GovernorView, Option<u32>) {
        if wanted == self.target {
            (self, None)
        } else {
            (
                GovernorView {
                    target: wanted,
                    holdoff: if wanted < self.target { HOLDOFF_WINDOWS } else { self.holdoff },
                    ..self
                },
                Some(wanted),
            )
        }
    }

    /// What one window does to the governor, and the new rate when it changes.
    pub open spec fn observed(self, sent: u64, nacked: u64, dropped: u64) -> (GovernorView, Option<u32>) {
        let total = (self.sent + sent) as u64;
        let nacked_total = (self.nacked + nacked) as u64;
        let dropped_total = (self.dropped + dropped) as u64;
        if total < MIN_PACKETS {
            (GovernorView { sent: total, nacked: nacked_total, dropped: dropped_total, ..self }, None)
        } else {
            let loss = Self::loss(nacked_total, dropped_total, total);
            let measured = GovernorView { sent: 0, nacked: 0, dropped: 0, loss_permille: loss, ..self };
            if !self.enabled {
                (measured, None)
            } else if self.holdoff > 0 {
                (GovernorView { holdoff: (self.holdoff - 1) as u32, ..measured }, None)
            } else if loss >= CONGESTED_PERMILLE {
                let lowered = spec_scale(self.target, DECREASE_PERCENT);
                let wanted = if lowered >= self.floor { lowered as u32 } else { self.floor };
                GovernorView { clean_windows: 0, ..measured }.decide(wanted)
            } else if loss < CLEAN_PERMILLE {
                if self.clean_windows + 1 < CLEAN_WINDOWS {
                    (GovernorView { clean_windows: (self.clean_windows + 1) as u32, ..measured }, None)
                } else {
                    let raised = spec_scale(self.target, INCREASE_PERCENT);
                    let wanted = if raised <= self.ceiling { raised as u32 } else { self.ceiling };
                    GovernorView { clean_windows: 0, ..measured }.decide(wanted)
                }
            } else {
                (GovernorView { clean_windows: 0, ..measured }, None)
            }
        }
    }
}

pub struct BitrateGovernor {
    ceiling: u32,
    floor: u32,
    target: u32,
    enabled: bool,
    clean_windows: u32,
    holdoff: u32,
    sent: u64,
    nacked: u64,
    dropped: u64,
    loss_permille: u32,
}

impl View for BitrateGovernor {
    type V = GovernorView;

    closed spec fn view(&self) -> GovernorView {
        GovernorView {
            ceiling: self.ceiling,
            floor: self.floor,
            target: self.target,
            enabled: self.enabled,
            clean_windows: self.clean_windows,
            holdoff: self.holdoff,
            sent: self.sent,
            nacked: self.nacked,
            dropped: self.dropped,
            loss_permille: self.loss_permille,
        }
    }
}

impl BitrateGovernor {
    /// `ceiling` is the rate of the chosen quality, and it is where the broadcast starts.
    pub fn new(ceiling: u32, enabled: bool) -> (governor: Self)
        ensures
            governor@ == GovernorView::initial(ceiling, enabled),
            governor@.wf(),
    {
        let floor = scale(ceiling, FLOOR_PERCENT);
        proof {
            lemma_scale_bounds(ceiling, FLOOR_PERCENT);
        }
        Self {
            ceiling,
            floor: floor as u32,
            target: ceiling,
            enabled,
            clean_windows: 0,
            holdoff: 0,
            sent: 0,
            nacked: 0,
            dropped: 0,
            loss_permille: 0,
        }
    }

    pub fn target(&self) -> (target: u32)
        ensures
            target == self@.target,
    {
        self.target
    }

    /// The loss of the last window that had packets enough to measure, in ‰.
    pub fn loss_permille(&self) -> (loss: u32)
        ensures
            loss == self@.loss_permille,
    {
        self.loss_permille
    }

    /// The encoder refused the change: the rate goes back to the fixed one, and nobody
    /// tries again.
    pub fn give_up(&mut self)
        requires
            old(self)@.wf(),
        ensures
            final(self)@ == (GovernorView { enabled: false, target: old(self)@.ceiling, ..old(self)@ }),
            final(self)@.wf(),
    {
        self.enabled = false;
        self.target = self.ceiling;
    }

    /// One window: video packets that went out, those the server asked back (each counted
    /// once) and those the full output buffer dropped. Returns the new rate when it changes.
    pub fn observe(&mut self, sent: u64, nacked: u64, dropped: u64) -> (changed: Option<u32>)
        requires
            old(self)@.wf(),
            old(self)@.sent + sent <= u64::MAX,
            old(self)@.nacked + nacked <= u64::MAX,
            old(self)@.dropped + dropped <= u64::MAX,
        ensures
            (final(self)@, changed) == old(self)@.observed(sent, nacked, dropped),
            final(self)@.wf(),
    {
        self.sent = self.sent + sent;
        self.nacked = self.nacked + nacked;
        self.dropped = self.dropped + dropped;

        if self.sent < MIN_PACKETS {
            return None;
        }

        // The larger of the two, not the sum: a packet the buffer dropped never reached
        // the server, so it is also asked back.
        let lost = if self.nacked >= self.dropped { self.nacked } else { self.dropped };
        let per_mille = (lost as u128) * 1000 / (self.sent as u128);
        let loss: u64 = if per_mille <= 1000 { per_mille as u64 } else { 1000 };

        self.sent = 0;
        self.nacked = 0;
        self.dropped = 0;
        self.loss_permille = loss as u32;

        if !self.enabled {
            return None;
        }

        if self.holdoff > 0 {
            self.holdoff = self.holdoff - 1;

            return None;
        }

        let wanted = if loss >= CONGESTED_PERMILLE {
            self.clean_windows = 0;

            let lowered = scale(self.target, DECREASE_PERCENT);
            proof {
                lemma_scale_bounds(self.target, DECREASE_PERCENT);
            }

            if lowered >= self.floor as u64 { lowered as u32 } else { self.floor }
        } else if loss < CLEAN_PERMILLE {
            self.clean_windows = self.clean_windows + 1;

            if self.clean_windows < CLEAN_WINDOWS {
                return None;
            }

            self.clean_windows = 0;

            // Compared with the ceiling before it is narrowed: near the top of the range the
            // raised rate no longer fits in 32 bits, and the ceiling is what it gets then.
            let raised = scale(self.target, INCREASE_PERCENT);
            proof {
                lemma_scale_bounds(self.target, INCREASE_PERCENT);
            }

            if raised <= self.ceiling as u64 { raised as u32 } else { self.ceiling }
        } else {
            self.clean_windows = 0;

            return None;
        };

        if wanted == self.target {
            return None;
        }

        if wanted < self.target {
            self.holdoff = HOLDOFF_WINDOWS;
        }

        self.target = wanted;

        Some(wanted)
    }
}

/// `percent` of a bitrate, rounded down to a whole number of bits per second.
pub fn scale(bitrate: u32, percent: u64) -> (scaled: u64)
    requires
        percent <= 1000,
    ensures
        scaled == spec_scale(bitrate, percent),
{
    assert((bitrate as u64) * percent <= u64::MAX) by (nonlinear_arith)
        requires
            percent <= 1000,
            bitrate <= u32::MAX,
    ;
    (bitrate as u64) * percent / 100
}

/// A percentage below a hundred never raises a rate, and one above never lowers it.
pub proof fn lemma_scale_bounds(bitrate: u32, percent: u64)
    ensures
        0 <= spec_scale(bitrate, percent),
        percent <= 100 ==> spec_scale(bitrate, percent) <= bitrate,
        percent >= 100 ==> spec_scale(bitrate, percent) >= bitrate,
{
    assert(0 <= bitrate as int * percent as int) by (nonlinear_arith);
    assert(percent <= 100 ==> bitrate as int * percent as int <= bitrate as int * 100) by (nonlinear_arith);
    assert(percent >= 100 ==> bitrate as int * percent as int >= bitrate as int * 100) by (nonlinear_arith);
}

/// Every window keeps the rate between the floor and the ceiling, whatever the ceiling and
/// whatever the window reports.
pub proof fn law_target_stays_between_floor_and_ceiling(
    governor: GovernorView,
    sent: u64,
    nacked: u64,
    dropped: u64,
)
    requires
        governor.wf(),
    ensures
        governor.observed(sent, nacked, dropped).0.floor <= governor.observed(sent, nacked, dropped).0.target,
        governor.observed(sent, nacked, dropped).0.target <= governor.observed(sent, nacked, dropped).0.ceiling,
{
    lemma_scale_bounds(governor.target, DECREASE_PERCENT);
    lemma_scale_bounds(governor.target, INCREASE_PERCENT);
}

/// A reported change is the new rate, and it differs from the old one; a decrease opens
/// the holdoff, and a switched-off governor never changes the rate.
pub proof fn law_reported_change_is_the_new_target(
    governor: GovernorView,
    sent: u64,
    nacked: u64,
    dropped: u64,
)
    requires
        governor.wf(),
    ensures
        ({
            let (after, changed) = governor.observed(sent, nacked, dropped);
            &&& (changed matches Some(rate) ==> rate == after.target && rate != governor.target)
            &&& changed is None ==> after.target == governor.target
            &&& (changed matches Some(rate) && rate < governor.target) ==> after.holdoff == HOLDOFF_WINDOWS
            &&& !governor.enabled ==> changed is None && after.target == governor.target
            &&& governor.holdoff > 0 ==> changed is None
        }),
{
}

/// Giving up leaves the fixed rate, and from then on no window changes it.
pub proof fn law_given_up_stays_fixed(governor: GovernorView, sent: u64, nacked: u64, dropped: u64)
    requires
        governor.wf(),
        !governor.enabled,
    ensures
        governor.observed(sent, nacked, dropped).1 is None,
        governor.observed(sent, nacked, dropped).0.target == governor.target,
        !governor.observed(sent, nacked, dropped).0.enabled,
{
}

} // verus!
