//! Drive an animation sequence against a monotonic clock: advance the player by elapsed
//! wall-clock time and ask which source frame should be on screen. Looping sequences wrap
//! time into their loop tail; play-once sequences finish. The caller supplies the time
//! steps, so the player is clock-agnostic.

use crate::sequence::{last_covering, seq_wf, AnimationSequence, SeqView};
use vstd::prelude::*;

verus! {

/// The sequence time (centiseconds) `elapsed_ms` lands on after resolving looping, or
/// `None` once a play-once sequence has finished (or for an empty one).
pub open spec fn time_cs(s: SeqView, elapsed_ms: u64) -> Option<u32> {
    let total = s.total_cs;
    let t = (elapsed_ms / 10) as u32;
    if total == 0 {
        None
    } else if t < total {
        Some(t)
    } else {
        match s.loop_start_cs {
            Some(start) => {
                let span = total - start;
                if span == 0 {
                    None
                } else {
                    Some((start + (t - start) % span) as u32)
                }
            },
            None => None,
        }
    }
}

/// The source frame on screen at `elapsed_ms`.
pub open spec fn frame_at(s: SeqView, elapsed_ms: u64) -> Option<usize> {
    match time_cs(s, elapsed_ms) {
        None => None,
        Some(t) => match last_covering(s.frames, t as int, s.frames.len()) {
            Some(i) => Some(s.frames[i].frame),
            None => None,
        },
    }
}

/// A time-driven cursor over an animation sequence.
#[derive(Debug)]
pub struct Player {
    seq: AnimationSequence,
    elapsed_ms: u64,
}

/// A player as plain values.
pub struct PlayerView {
    pub seq: SeqView,
    pub elapsed_ms: u64,
}

impl View for Player {
    type V = PlayerView;

    closed spec fn view(&self) -> PlayerView {
        PlayerView { seq: self.seq@, elapsed_ms: self.elapsed_ms }
    }
}

impl Player {
    #[verifier::type_invariant]
    spec fn loop_point_within(&self) -> bool {
        seq_wf(self.seq@)
    }

    /// Start a player at time zero for `seq`.
    pub fn new(seq: AnimationSequence) -> (p: Player)
        requires
            seq_wf(seq@),
        ensures
            p@ == (PlayerView { seq: seq@, elapsed_ms: 0 }),
    {
        Player { seq, elapsed_ms: 0 }
    }

    /// The sequence being played.
    pub fn sequence(&self) -> (s: &AnimationSequence)
        ensures
            s@ == self@.seq,
            seq_wf(s@),
    {
        proof {
            use_type_invariant(self);
        }
        &self.seq
    }

    /// Elapsed playback time in milliseconds.
    pub fn elapsed_ms(&self) -> (ms: u64)
        ensures
            ms == self@.elapsed_ms,
    {
        self.elapsed_ms
    }

    /// Restart playback from the beginning.
    pub fn reset(&mut self)
        ensures
            final(self)@ == (PlayerView { elapsed_ms: 0, ..old(self)@ }),
    {
        proof {
            use_type_invariant(&*self);
        }
        self.elapsed_ms = 0;
    }

    /// Advance the clock by `dt_ms` (saturating).
    pub fn advance(&mut self, dt_ms: u64)
        ensures
            final(self)@ == (PlayerView {
                elapsed_ms: if old(self)@.elapsed_ms + dt_ms > u64::MAX {
                    u64::MAX
                } else {
                    (old(self)@.elapsed_ms + dt_ms) as u64
                },
                ..old(self)@
            }),
    {
        proof {
            use_type_invariant(&*self);
        }
        self.elapsed_ms = self.elapsed_ms.saturating_add(dt_ms);
    }

    /// The effective sequence time after resolving looping.
    fn time_cs(&self) -> (t: Option<u32>)
        ensures
            t == time_cs(self@.seq, self@.elapsed_ms),
    {
        proof {
            use_type_invariant(self);
        }
        let total = self.seq.total_cs;
        if total == 0 {
            return None;
        }
        let t = (self.elapsed_ms / 10) as u32;
        if t < total {
            return Some(t);
        }
        match self.seq.loop_start_cs {
            Some(start) => {
                let span = total - start;
                if span == 0 {
                    None
                } else {
                    Some(start + (t - start) % span)
                }
            },
            None => None,
        }
    }

    /// True once a play-once sequence has played past its end.
    pub fn is_finished(&self) -> (r: bool)
        ensures
            r == time_cs(self@.seq, self@.elapsed_ms) is None,
    {
        self.time_cs().is_none()
    }

    /// The index (into the source animation's frames) to display now, or `None` when a
    /// play-once sequence has finished.
    pub fn current_frame(&self) -> (r: Option<usize>)
        ensures
            r == frame_at(self@.seq, self@.elapsed_ms),
    {
        let t = match self.time_cs() {
            Some(t) => t,
            None => return None,
        };
        match self.seq.frame_at_cs(t) {
            Some(f) => Some(f.frame),
            None => None,
        }
    }
}

/// Once a looping sequence has played through, its time stays in the loop tail: the
/// frames before the loop point are never shown again.
pub proof fn lemma_loop_stays_in_tail(s: SeqView, elapsed_ms: u64)
    requires
        seq_wf(s),
        s.loop_start_cs is Some,
        (elapsed_ms / 10) as u32 >= s.total_cs,
    ensures
        time_cs(s, elapsed_ms) matches Some(t) ==> s.loop_start_cs.unwrap() <= t < s.total_cs,
{
}

} // verus!
