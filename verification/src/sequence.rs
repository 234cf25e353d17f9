//! Flatten an animation's frame graph into a linear, timed playback sequence.
//!
//! The walk starts at a frame, holds each frame for its duration, then moves on: the
//! forward walk takes the first branch whose cumulative percentage covers a single
//! `1..=100` roll, or the next frame in order when no branch fires; the exit walk follows
//! each frame's designated exit frame. Running off the end stops the walk, and returning
//! to a frame already played is the loop point, reported instead of unrolled.
//!
//! Timing is kept in the file's native base, centiseconds (1/100 s).

use crate::acs_records::FrameView;
use crate::model::{Animation, Branch, Frame};
use crate::rng::{after_rolls, rolls_of, BranchRng};
use vstd::prelude::*;

verus! {

/// One entry in a flattened sequence: which animation frame plays, when, for how long.
#[derive(Clone, Copy, PartialEq, Eq, Debug, Structural)]
pub struct SeqFrame {
    /// Index into the source animation's `frames`.
    pub frame: usize,
    /// Start time within the sequence, in centiseconds.
    pub start_cs: u32,
    /// On-screen duration, in centiseconds.
    pub duration_cs: u16,
}

/// A linear, timed sequence produced from an animation.
#[derive(Debug)]
pub struct AnimationSequence {
    /// Timeline entries, in playback order (only frames with a non-zero duration).
    pub frames: Vec<SeqFrame>,
    /// Total sequence length, in centiseconds.
    pub total_cs: u32,
    /// If the frame graph loops back on itself, the start time (cs) of the frame the
    /// loop returns to: where a looping player seeks on repeat. `None` for a play-once
    /// animation.
    pub loop_start_cs: Option<u32>,
    /// True if the walk stopped on its defensive frame-count guard instead of reaching a
    /// natural end. Well-formed data never trips it.
    pub truncated: bool,
}

/// A sequence as plain values.
pub struct SeqView {
    pub frames: Seq<SeqFrame>,
    pub total_cs: u32,
    pub loop_start_cs: Option<u32>,
    pub truncated: bool,
}

impl View for AnimationSequence {
    type V = SeqView;

    open spec fn view(&self) -> SeqView {
        SeqView {
            frames: self.frames@,
            total_cs: self.total_cs,
            loop_start_cs: self.loop_start_cs,
            truncated: self.truncated,
        }
    }
}

/// The empty sequence.
pub open spec fn empty_seq() -> SeqView {
    SeqView { frames: Seq::empty(), total_cs: 0, loop_start_cs: None, truncated: false }
}

impl Default for AnimationSequence {
    fn default() -> (s: Self)
        ensures
            s@ == empty_seq(),
    {
        AnimationSequence { frames: Vec::new(), total_cs: 0, loop_start_cs: None, truncated: false }
    }
}

impl Clone for AnimationSequence {
    fn clone(&self) -> (s: Self)
        ensures
            s@ == self@,
    {
        AnimationSequence {
            frames: self.frames.clone(),
            total_cs: self.total_cs,
            loop_start_cs: self.loop_start_cs,
            truncated: self.truncated,
        }
    }
}

/// The index of the last entry of `frames[..n]` on screen at `t`.
pub open spec fn last_covering(frames: Seq<SeqFrame>, t: int, n: nat) -> Option<int>
    decreases n,
{
    if n == 0 {
        None
    } else if frames[n - 1].start_cs <= t < frames[n - 1].start_cs + frames[n - 1].duration_cs {
        Some(n - 1)
    } else {
        last_covering(frames, t, (n - 1) as nat)
    }
}

/// A sequence whose loop point lies within it.
pub open spec fn seq_wf(s: SeqView) -> bool {
    s.loop_start_cs matches Some(start) ==> start <= s.total_cs
}

proof fn lemma_last_covering_bound(frames: Seq<SeqFrame>, t: int, n: nat)
    ensures
        last_covering(frames, t, n) matches Some(i) ==> 0 <= i < n,
    decreases n,
{
    if n > 0 {
        lemma_last_covering_bound(frames, t, (n - 1) as nat);
    }
}

impl AnimationSequence {
    /// Total duration in milliseconds.
    pub fn total_ms(&self) -> (ms: u32)
        requires
            self.total_cs * 10 <= u32::MAX,
        ensures
            ms == self.total_cs * 10,
    {
        self.total_cs * 10
    }

    /// Length of the looping tail in centiseconds, or `None` for a play-once sequence.
    pub fn loop_duration_cs(&self) -> (d: Option<u32>)
        requires
            seq_wf(self@),
        ensures
            d == match self.loop_start_cs {
                Some(start) => Some((self.total_cs - start) as u32),
                None => None,
            },
    {
        match self.loop_start_cs {
            Some(start) => Some(self.total_cs - start),
            None => None,
        }
    }

    /// True if this sequence loops.
    pub fn is_looping(&self) -> (r: bool)
        ensures
            r == self.loop_start_cs is Some,
    {
        self.loop_start_cs.is_some()
    }

    /// Number of timeline entries.
    pub fn len(&self) -> (n: usize)
        ensures
            n == self.frames@.len(),
    {
        self.frames.len()
    }

    /// True if the sequence has no visible frames.
    pub fn is_empty(&self) -> (r: bool)
        ensures
            r == (self.frames@.len() == 0),
    {
        self.frames.len() == 0
    }

    /// The timeline entry active at `time_cs`: the last one whose span covers it. For
    /// looping sequences the caller reduces `time_cs` into the loop range first.
    pub fn frame_at_cs(&self, time_cs: u32) -> (r: Option<&SeqFrame>)
        ensures
            match last_covering(self.frames@, time_cs as int, self.frames@.len()) {
                Some(i) => r == Some(&self.frames@[i]),
                None => r is None,
            },
    {
        let mut i = self.frames.len();
        while i > 0
            invariant
                0 <= i <= self.frames@.len(),
                last_covering(self.frames@, time_cs as int, self.frames@.len())
                    == last_covering(self.frames@, time_cs as int, i as nat),
            decreases i,
        {
            let f = &self.frames[i - 1];
            if f.start_cs as u64 <= time_cs as u64 && (time_cs as u64) < f.start_cs as u64
                + f.duration_cs as u64 {
                return Some(f);
            }
            i -= 1;
        }
        None
    }
}

/// The sum of all frame durations of an animation.
pub open spec fn total_duration(frames: Seq<FrameView>, n: nat) -> int
    decreases n,
{
    if n == 0 {
        0
    } else {
        total_duration(frames, (n - 1) as nat) + frames[n - 1].duration
    }
}

/// The branch a cumulative roll lands on, scanning `branches[k..]` with `roll` left:
/// the first whose share covers what is left of the roll. A negative target is no
/// frame.
pub open spec fn branch_pick(branches: Seq<Branch>, roll: int, k: nat) -> Option<int>
    decreases branches.len() - k,
{
    if k >= branches.len() {
        None
    } else if roll <= branches[k as int].probability {
        if branches[k as int].frame_ndx >= 0 {
            Some(branches[k as int].frame_ndx as int)
        } else {
            None
        }
    } else {
        branch_pick(branches, roll - branches[k as int].probability, k + 1)
    }
}

/// The frame a branch leads to, none for a negative target.
pub open spec fn branch_frame(b: Branch) -> Option<int> {
    if b.frame_ndx >= 0 {
        Some(b.frame_ndx as int)
    } else {
        None
    }
}

/// The total share of `branches[..k]`.
pub open spec fn share_before(branches: Seq<Branch>, k: nat) -> int
    decreases k,
{
    if k == 0 {
        0
    } else {
        share_before(branches, (k - 1) as nat) + branches[k - 1].probability
    }
}

proof fn lemma_share_grows(branches: Seq<Branch>, j: nat, k: nat)
    requires
        j <= k,
    ensures
        share_before(branches, j) <= share_before(branches, k),
    decreases k - j,
{
    if j < k {
        lemma_share_grows(branches, j, (k - 1) as nat);
    }
}

proof fn lemma_pick_from(branches: Seq<Branch>, roll: int, j: nat, k: nat)
    requires
        j <= k < branches.len(),
        share_before(branches, k) < roll <= share_before(branches, k + 1),
    ensures
        branch_pick(branches, roll - share_before(branches, j), j) == if branches[k as int].frame_ndx
            >= 0 {
            Some(branches[k as int].frame_ndx as int)
        } else {
            None
        },
    decreases k - j,
{
    if j < k {
        lemma_share_grows(branches, j + 1, k);
        lemma_pick_from(branches, roll, j + 1, k);
    }
}

proof fn lemma_pick_past(branches: Seq<Branch>, roll: int, j: nat)
    requires
        j <= branches.len(),
        share_before(branches, branches.len()) < roll,
    ensures
        branch_pick(branches, roll - share_before(branches, j), j) is None,
    decreases branches.len() - j,
{
    if j < branches.len() {
        lemma_share_grows(branches, j + 1, branches.len());
        lemma_pick_past(branches, roll, j + 1);
    }
}

/// Branch shares are cumulative: a roll takes branch `k` exactly when it lies past the
/// shares of the branches before it and within the share of `k` too
/// (`shares[..k] < roll <= shares[..=k]`), landing on its frame (none for a negative
/// target); a roll past all the shares takes no branch.
pub proof fn lemma_branch_cumulative(branches: Seq<Branch>, roll: int)
    ensures
        forall|k: int|
            0 <= k < branches.len() && share_before(branches, k as nat) < roll <= share_before(
                branches,
                (k + 1) as nat,
            ) ==> branch_pick(branches, roll, 0) == #[trigger] branch_frame(branches[k]),
        share_before(branches, branches.len()) < roll ==> branch_pick(branches, roll, 0) is None,
{
    assert forall|k: int|
        0 <= k < branches.len() && share_before(branches, k as nat) < roll <= share_before(
            branches,
            (k + 1) as nat,
        ) implies branch_pick(branches, roll, 0) == #[trigger] branch_frame(branches[k]) by {
        lemma_pick_from(branches, roll, 0, k as nat);
    }
    if share_before(branches, branches.len()) < roll {
        lemma_pick_past(branches, roll, 0);
    }
}

/// When the shares of a frame's branches add up to 100, every roll in `1..=100` takes one
/// of them: the one whose cumulative share first covers it.
pub proof fn lemma_full_shares_always_branch(branches: Seq<Branch>, roll: int)
    requires
        share_before(branches, branches.len()) == 100,
        1 <= roll <= 100,
    ensures
        exists|k: int|
            0 <= k < branches.len() && share_before(branches, k as nat) < roll <= share_before(
                branches,
                (k + 1) as nat,
            ) && branch_pick(branches, roll, 0) == #[trigger] branch_frame(branches[k]),
{
    let k = first_covering(branches, roll, 0);
    lemma_first_covering(branches, roll, 0);
    lemma_pick_from(branches, roll, 0, k as nat);
    assert(branch_pick(branches, roll, 0) == branch_frame(branches[k]));
}

/// The first `k >= j` whose cumulative share covers `roll`.
spec fn first_covering(branches: Seq<Branch>, roll: int, j: nat) -> int
    decreases branches.len() - j,
{
    if j >= branches.len() {
        branches.len() as int
    } else if roll <= share_before(branches, j + 1) {
        j as int
    } else {
        first_covering(branches, roll, j + 1)
    }
}

proof fn lemma_first_covering(branches: Seq<Branch>, roll: int, j: nat)
    requires
        j <= branches.len(),
        share_before(branches, j) < roll <= share_before(branches, branches.len()),
    ensures
        j <= first_covering(branches, roll, j) < branches.len(),
        share_before(branches, first_covering(branches, roll, j) as nat) < roll <= share_before(
            branches,
            (first_covering(branches, roll, j) + 1) as nat,
        ),
    decreases branches.len() - j,
{
    if j < branches.len() && roll > share_before(branches, j + 1) {
        lemma_first_covering(branches, roll, j + 1);
    }
}

/// Where the forward walk goes after `frame` (at `index`) given a roll.
pub open spec fn forward_next(frame: FrameView, index: int, roll: int) -> int {
    match branch_pick(frame.branching, roll, 0) {
        Some(t) => t,
        None => index + 1,
    }
}

/// The exit frame a frame winds down to, if it names one in range.
pub open spec fn exit_next(frame: FrameView, count: int) -> Option<int> {
    if 0 <= frame.exit_frame < count {
        Some(frame.exit_frame as int)
    } else {
        None
    }
}

/// The bookkeeping of a walk: the sequence so far, when each source frame was first
/// reached, and how many frames were played.
pub struct WalkState {
    pub seq: SeqView,
    pub reached: Seq<Option<u32>>,
    pub steps: nat,
}

/// A walk over `n` frames that has not started.
pub open spec fn walk_start(n: nat) -> WalkState {
    WalkState { seq: empty_seq(), reached: Seq::new(n, |i: int| None), steps: 0 }
}

/// Play frame `index` of duration `dur`: remember when it was reached and, if it has a
/// duration, put it on the timeline.
pub open spec fn play_frame(st: WalkState, index: int, dur: u16) -> WalkState {
    WalkState {
        seq: if dur > 0 {
            SeqView {
                frames: st.seq.frames.push(
                    SeqFrame { frame: index as usize, start_cs: st.seq.total_cs, duration_cs: dur },
                ),
                total_cs: (st.seq.total_cs + dur) as u32,
                ..st.seq
            }
        } else {
            st.seq
        },
        reached: st.reached.update(index, Some(st.seq.total_cs)),
        steps: st.steps + 1,
    }
}

/// The sequence a walk produces from frame `index` on: `exit` selects the exit walk,
/// otherwise branches are resolved with `rolls`, one roll per branching frame.
pub open spec fn walk(
    frames: Seq<FrameView>,
    index: int,
    rolls: Seq<u32>,
    st: WalkState,
    exit: bool,
) -> SeqView
    decreases frames.len() - st.steps,
{
    if !(0 <= index < frames.len() && index < st.reached.len()) {
        st.seq
    } else if st.reached[index] is Some {
        SeqView { loop_start_cs: st.reached[index], ..st.seq }
    } else if st.steps >= frames.len() {
        SeqView { truncated: true, ..st.seq }
    } else {
        let next_st = play_frame(st, index, frames[index].duration);
        if exit {
            match exit_next(frames[index], frames.len() as int) {
                Some(n) => walk(frames, n, rolls, next_st, exit),
                None => next_st.seq,
            }
        } else if frames[index].branching.len() == 0 || rolls.len() == 0 {
            walk(frames, index + 1, rolls, next_st, exit)
        } else {
            walk(
                frames,
                forward_next(frames[index], index, rolls[0] as int),
                rolls.drop_first(),
                next_st,
                exit,
            )
        }
    }
}

/// The forward walk from frame `index` drawing its rolls from `rng`, one per branching
/// frame reached: the sequence, and the source once the walk is over.
pub open spec fn walk_drawing<R: BranchRng>(
    frames: Seq<FrameView>,
    index: int,
    rng: R,
    st: WalkState,
) -> (SeqView, R)
    decreases frames.len() - st.steps,
{
    if !(0 <= index < frames.len() && index < st.reached.len()) {
        (st.seq, rng)
    } else if st.reached[index] is Some {
        (SeqView { loop_start_cs: st.reached[index], ..st.seq }, rng)
    } else if st.steps >= frames.len() {
        (SeqView { truncated: true, ..st.seq }, rng)
    } else {
        let next_st = play_frame(st, index, frames[index].duration);
        if frames[index].branching.len() == 0 {
            walk_drawing(frames, index + 1, rng, next_st)
        } else {
            walk_drawing(
                frames,
                forward_next(frames[index], index, rng.next_roll() as int),
                rng.rolled(),
                next_st,
            )
        }
    }
}

/// The forward walk over a whole animation drawing from `rng`.
pub open spec fn sequence_drawing<R: BranchRng>(frames: Seq<FrameView>, rng: R) -> (SeqView, R) {
    walk_drawing(frames, 0, rng, walk_start(frames.len()))
}

/// Whether `s` is what the forward walk over `frames` gives for some rolls in
/// `1..=100`.
pub open spec fn forward_walk(frames: Seq<FrameView>, s: SeqView) -> bool {
    exists|rolls: Seq<u32>|
        valid_rolls(rolls) && s == walk(frames, 0, rolls, walk_start(frames.len()), false)
}

/// The exit walk over `frames` from `from`.
pub open spec fn exit_walk(frames: Seq<FrameView>, from: int) -> SeqView {
    walk(frames, from, Seq::empty(), walk_start(frames.len()), true)
}

/// Adding frames never shortens a timeline.
pub proof fn lemma_total_duration_grows(frames: Seq<FrameView>, i: nat, n: nat)
    requires
        i <= n,
    ensures
        total_duration(frames, i) <= total_duration(frames, n),
    decreases n - i,
{
    if i < n {
        lemma_total_duration_grows(frames, i, (n - 1) as nat);
    }
}

/// Whether an animation's whole timeline fits the `u32` centisecond clock.
pub open spec fn timeline_fits(frames: Seq<FrameView>) -> bool {
    total_duration(frames, frames.len()) <= u32::MAX
}

/// Whether every value is a valid roll.
pub open spec fn valid_rolls(rolls: Seq<u32>) -> bool {
    forall|i: int| 0 <= i < rolls.len() ==> 1 <= #[trigger] rolls[i] <= 100
}

/// The sum of the durations of the frames reached so far among the first `n`.
pub open spec fn reached_sum(frames: Seq<FrameView>, reached: Seq<Option<u32>>, n: nat) -> int
    decreases n,
{
    if n == 0 {
        0
    } else {
        reached_sum(frames, reached, (n - 1) as nat) + if reached[n - 1] is Some {
            frames[n - 1].duration as int
        } else {
            0
        }
    }
}

/// How many of the first `n` frames were reached.
pub open spec fn reached_count(reached: Seq<Option<u32>>, n: nat) -> int
    decreases n,
{
    if n == 0 {
        0
    } else {
        reached_count(reached, (n - 1) as nat) + if reached[n - 1] is Some {
            1int
        } else {
            0
        }
    }
}

proof fn lemma_reached_update(
    frames: Seq<FrameView>,
    reached: Seq<Option<u32>>,
    index: int,
    v: u32,
    n: nat,
)
    requires
        0 <= index < reached.len(),
        n <= reached.len(),
        reached[index] is None,
    ensures
        reached_sum(frames, reached.update(index, Some(v)), n) == reached_sum(frames, reached, n)
            + if index < n {
            frames[index].duration as int
        } else {
            0
        },
        reached_count(reached.update(index, Some(v)), n) == reached_count(reached, n) + if index
            < n {
            1int
        } else {
            0
        },
    decreases n,
{
    if n > 0 {
        lemma_reached_update(frames, reached, index, v, (n - 1) as nat);
    }
}

proof fn lemma_reached_bounds(frames: Seq<FrameView>, reached: Seq<Option<u32>>, n: nat)
    requires
        n <= reached.len(),
        n <= frames.len(),
    ensures
        0 <= reached_sum(frames, reached, n) <= total_duration(frames, n),
        0 <= reached_count(reached, n) <= n,
    decreases n,
{
    if n > 0 {
        lemma_reached_bounds(frames, reached, (n - 1) as nat);
    }
}

proof fn lemma_reached_missing(reached: Seq<Option<u32>>, index: int, n: nat)
    requires
        0 <= index < n <= reached.len(),
        reached[index] is None,
    ensures
        reached_count(reached, n) < n,
    decreases n,
{
    lemma_reached_count_bound(reached, (n - 1) as nat);
    if index < n - 1 {
        lemma_reached_missing(reached, index, (n - 1) as nat);
    }
}

proof fn lemma_reached_count_bound(reached: Seq<Option<u32>>, n: nat)
    requires
        n <= reached.len(),
    ensures
        reached_count(reached, n) <= n,
    decreases n,
{
    if n > 0 {
        lemma_reached_count_bound(reached, (n - 1) as nat);
    }
}

proof fn lemma_empty_reached(frames: Seq<FrameView>, n: nat, m: nat)
    requires
        m <= n,
    ensures
        reached_sum(frames, Seq::new(n, |i: int| None::<u32>), m) == 0,
        reached_count(Seq::new(n, |i: int| None::<u32>), m) == 0,
    decreases m,
{
    if m > 0 {
        lemma_empty_reached(frames, n, (m - 1) as nat);
    }
}

/// A sequence laid out on a clean timeline over `frames`: every entry is a frame of the
/// animation with a non-zero duration, shown for exactly its duration; the entries follow
/// each other without gaps from time 0, and the total is where the last one ends; no
/// frame shows twice.
pub open spec fn clean_timeline(s: SeqView, frames: Seq<FrameView>) -> bool {
    &&& forall|i: int|
        0 <= i < s.frames.len() ==> (#[trigger] s.frames[i]).frame < frames.len() && s.frames[i].duration_cs
            > 0 && s.frames[i].duration_cs == frames[s.frames[i].frame as int].duration
    &&& forall|i: int|
        0 <= i < s.frames.len() - 1 ==> (#[trigger] s.frames[i + 1]).start_cs == s.frames[i].start_cs
            + s.frames[i].duration_cs
    &&& s.frames.len() == 0 ==> s.total_cs == 0
    &&& s.frames.len() > 0 ==> s.frames[0].start_cs == 0 && s.total_cs == s.frames.last().start_cs
        + s.frames.last().duration_cs
    &&& forall|i: int, j: int|
        0 <= i < j < s.frames.len() ==> (#[trigger] s.frames[i]).frame != (#[trigger] s.frames[j]).frame
}

/// The bookkeeping of a walk in progress holds together: its timeline is clean, every
/// frame on it is marked reached, and its clock is the time of the reached frames, within
/// the whole animation's time.
spec fn walk_sound(st: WalkState, frames: Seq<FrameView>) -> bool {
    &&& clean_timeline(st.seq, frames)
    &&& st.reached.len() == frames.len()
    &&& frames.len() <= usize::MAX
    &&& forall|i: int| 0 <= i < st.seq.frames.len() ==> st.reached[(#[trigger] st.seq.frames[i]).frame as int] is Some
    &&& st.seq.total_cs == reached_sum(frames, st.reached, frames.len())
    &&& total_duration(frames, frames.len()) <= u32::MAX
}

proof fn lemma_play_sound(st: WalkState, frames: Seq<FrameView>, index: int)
    requires
        walk_sound(st, frames),
        0 <= index < frames.len(),
        st.reached[index] is None,
    ensures
        walk_sound(play_frame(st, index, frames[index].duration), frames),
{
    let dur = frames[index].duration;
    lemma_reached_update(frames, st.reached, index, st.seq.total_cs, frames.len());
    lemma_reached_bounds(frames, st.reached.update(index, Some(st.seq.total_cs)), frames.len());
    let nx = play_frame(st, index, dur);
    let old_f = st.seq.frames;
    let f = nx.seq.frames;
    assert forall|i: int| 0 <= i < f.len() implies nx.reached[(#[trigger] f[i]).frame as int] is Some by {
        if i < old_f.len() {
            assert(f[i] == old_f[i]);
        }
    }
    if dur > 0 {
        assert forall|i: int, j: int| 0 <= i < j < f.len() implies (#[trigger] f[i]).frame != (#[trigger] f[j]).frame by {
            if j == old_f.len() {
                assert(f[i] == old_f[i]);
                assert(st.reached[old_f[i].frame as int] is Some);
            } else {
                assert(f[i] == old_f[i] && f[j] == old_f[j]);
            }
        }
        assert forall|i: int| 0 <= i < f.len() - 1 implies (#[trigger] f[i + 1]).start_cs == f[i].start_cs
            + f[i].duration_cs by {
            if i + 1 < old_f.len() {
                assert(f[i + 1] == old_f[i + 1] && f[i] == old_f[i]);
            } else {
                assert(f[i] == old_f[i]);
            }
        }
        assert forall|i: int| 0 <= i < f.len() implies (#[trigger] f[i]).frame < frames.len() && f[i].duration_cs
            > 0 && f[i].duration_cs == frames[f[i].frame as int].duration by {
            if i < old_f.len() {
                assert(f[i] == old_f[i]);
            }
        }
    }
}

proof fn lemma_walk_clean(frames: Seq<FrameView>, index: int, rolls: Seq<u32>, st: WalkState, exit: bool)
    requires
        walk_sound(st, frames),
    ensures
        clean_timeline(walk(frames, index, rolls, st, exit), frames),
    decreases frames.len() - st.steps,
{
    if !(0 <= index < frames.len() && index < st.reached.len()) {
    } else if st.reached[index] is Some {
    } else if st.steps >= frames.len() {
    } else {
        let next_st = play_frame(st, index, frames[index].duration);
        lemma_play_sound(st, frames, index);
        if exit {
            match exit_next(frames[index], frames.len() as int) {
                Some(n) => lemma_walk_clean(frames, n, rolls, next_st, exit),
                None => {},
            }
        } else if frames[index].branching.len() == 0 || rolls.len() == 0 {
            lemma_walk_clean(frames, index + 1, rolls, next_st, exit);
        } else {
            lemma_walk_clean(
                frames,
                forward_next(frames[index], index, rolls[0] as int),
                rolls.drop_first(),
                next_st,
                exit,
            );
        }
    }
}

/// Whatever the rolls, and for the exit walk too, an animation whose timeline fits the
/// clock flattens to a clean timeline: each frame shown at most once, for its own
/// duration, back to back from time 0, the total ending with the last.
pub proof fn lemma_sequence_timeline(frames: Seq<FrameView>, rolls: Seq<u32>, from: int)
    requires
        timeline_fits(frames),
        frames.len() <= usize::MAX,
    ensures
        clean_timeline(walk(frames, 0, rolls, walk_start(frames.len()), false), frames),
        clean_timeline(exit_walk(frames, from), frames),
{
    lemma_empty_reached(frames, frames.len(), frames.len());
    lemma_walk_clean(frames, 0, rolls, walk_start(frames.len()), false);
    lemma_walk_clean(frames, from, Seq::empty(), walk_start(frames.len()), true);
}

/// Whether time `t` is a boundary of a timeline: the start of one of its entries, or its
/// end.
pub open spec fn at_boundary(s: SeqView, t: u32) -> bool {
    t == s.total_cs || exists|i: int| 0 <= i < s.frames.len() && #[trigger] s.frames[i].start_cs == t
}

spec fn reached_on_boundaries(st: WalkState) -> bool {
    forall|k: int| 0 <= k < st.reached.len() && #[trigger] st.reached[k] is Some ==> at_boundary(st.seq, st.reached[k].get_Some_0())
}

proof fn lemma_walk_loops_on_boundary(frames: Seq<FrameView>, index: int, rolls: Seq<u32>, st: WalkState, exit: bool)
    requires
        reached_on_boundaries(st),
        st.seq.loop_start_cs is None,
    ensures
        walk(frames, index, rolls, st, exit).loop_start_cs matches Some(t) ==> at_boundary(
            walk(frames, index, rolls, st, exit),
            t,
        ),
    decreases frames.len() - st.steps,
{
    if !(0 <= index < frames.len() && index < st.reached.len()) {
    } else if st.reached[index] is Some {
        let r = walk(frames, index, rolls, st, exit);
        let t = st.reached[index].get_Some_0();
        assert(at_boundary(st.seq, t));
        if t != st.seq.total_cs {
            let i = choose|i: int| 0 <= i < st.seq.frames.len() && #[trigger] st.seq.frames[i].start_cs == t;
            assert(r.frames[i].start_cs == t);
        }
    } else if st.steps >= frames.len() {
    } else {
        let dur = frames[index].duration;
        let next_st = play_frame(st, index, dur);
        assert forall|k: int| 0 <= k < next_st.reached.len() && #[trigger] next_st.reached[k] is Some implies at_boundary(
            next_st.seq,
            next_st.reached[k].get_Some_0(),
        ) by {
            let t = next_st.reached[k].get_Some_0();
            if dur > 0 {
                let last = next_st.seq.frames.len() - 1;
                assert(next_st.seq.frames[last].start_cs == st.seq.total_cs);
                if k == index {
                    assert(t == st.seq.total_cs);
                } else if t == st.seq.total_cs {
                } else {
                    let i = choose|i: int| 0 <= i < st.seq.frames.len() && #[trigger] st.seq.frames[i].start_cs == t;
                    assert(next_st.seq.frames[i] == st.seq.frames[i]);
                }
            } else if k != index {
                assert(st.reached[k] is Some);
            }
        }
        if exit {
            match exit_next(frames[index], frames.len() as int) {
                Some(n) => lemma_walk_loops_on_boundary(frames, n, rolls, next_st, exit),
                None => {},
            }
        } else if frames[index].branching.len() == 0 || rolls.len() == 0 {
            lemma_walk_loops_on_boundary(frames, index + 1, rolls, next_st, exit);
        } else {
            lemma_walk_loops_on_boundary(
                frames,
                forward_next(frames[index], index, rolls[0] as int),
                rolls.drop_first(),
                next_st,
                exit,
            );
        }
    }
}

/// A walk that comes back to a frame it already played reports the loop point on the
/// timeline: the time that frame was reached, which is where an entry starts or where the
/// timeline ends; for the forward walk with any rolls, and for the exit walk.
pub proof fn lemma_loop_point_on_timeline(frames: Seq<FrameView>, rolls: Seq<u32>, from: int)
    ensures
        walk(frames, 0, rolls, walk_start(frames.len()), false).loop_start_cs matches Some(t) ==> at_boundary(
            walk(frames, 0, rolls, walk_start(frames.len()), false),
            t,
        ),
        exit_walk(frames, from).loop_start_cs matches Some(t) ==> at_boundary(exit_walk(frames, from), t),
{
    lemma_walk_loops_on_boundary(frames, 0, rolls, walk_start(frames.len()), false);
    lemma_walk_loops_on_boundary(frames, from, Seq::empty(), walk_start(frames.len()), true);
}

proof fn lemma_walk_back_to_start(frames: Seq<FrameView>, k: nat, rolls: Seq<u32>, st: WalkState)
    requires
        frames.len() >= 1,
        frames.len() <= usize::MAX,
        forall|i: int| 0 <= i < frames.len() - 1 ==> (#[trigger] frames[i]).branching.len() == 0,
        forall|r: int| 1 <= r <= 100 ==> #[trigger] branch_pick(frames.last().branching, r, 0) == Some(0int),
        rolls.len() >= 1,
        1 <= rolls[0] <= 100,
        k < frames.len(),
        st.reached.len() == frames.len(),
        forall|i: int| 0 <= i < frames.len() ==> ((#[trigger] st.reached[i]) is Some <==> i < k),
        k >= 1 ==> st.reached[0] == Some(0u32),
        k == 0 ==> st.seq.total_cs == 0,
        st.steps == k,
    ensures
        walk(frames, k as int, rolls, st, false).loop_start_cs == Some(0u32),
    decreases frames.len() - k,
{
    let n = frames.len();
    let nx = play_frame(st, k as int, frames[k as int].duration);
    assert forall|i: int| 0 <= i < n implies ((#[trigger] nx.reached[i]) is Some <==> i < k + 1) by {}
    if k + 1 < n {
        lemma_walk_back_to_start(frames, k + 1, rolls, nx);
    } else {
        assert(branch_pick(frames.last().branching, rolls[0] as int, 0) == Some(0int));
        assert(frames[k as int] == frames.last());
        assert(frames[k as int].branching.len() > 0);
        assert(forward_next(frames[k as int], k as int, rolls[0] as int) == 0);
        assert(nx.reached[0] == Some(0u32));
        let back = walk(frames, 0, rolls.drop_first(), nx, false);
        assert(back.loop_start_cs == Some(0u32));
        assert(walk(frames, k as int, rolls, st, false) == back);
    }
    if k + 1 < n {
        assert(frames[k as int].branching.len() == 0);
        assert(walk(frames, k as int, rolls, st, false) == walk(frames, (k + 1) as int, rolls, nx, false));
    }
}

/// An animation that runs straight through to a last frame that branches back to the
/// first frame whatever the roll loops: its loop point is the start of the timeline.
pub proof fn lemma_branch_back_loops(frames: Seq<FrameView>, rolls: Seq<u32>)
    requires
        frames.len() >= 1,
        frames.len() <= usize::MAX,
        forall|i: int| 0 <= i < frames.len() - 1 ==> (#[trigger] frames[i]).branching.len() == 0,
        forall|r: int| 1 <= r <= 100 ==> #[trigger] branch_pick(frames.last().branching, r, 0) == Some(0int),
        rolls.len() >= 1,
        valid_rolls(rolls),
    ensures
        walk(frames, 0, rolls, walk_start(frames.len()), false).loop_start_cs == Some(0u32),
{
    assert(1 <= rolls[0] <= 100);
    lemma_walk_back_to_start(frames, 0, rolls, walk_start(frames.len()));
}

/// The indices of the frames among `frames[..n]` that have a duration, in order.
pub open spec fn timed_frames(frames: Seq<FrameView>, n: nat) -> Seq<int>
    decreases n,
{
    if n == 0 {
        Seq::empty()
    } else if frames[n - 1].duration > 0 {
        timed_frames(frames, (n - 1) as nat).push(n - 1)
    } else {
        timed_frames(frames, (n - 1) as nat)
    }
}

/// The frame indices a timeline shows, in order.
pub open spec fn shown_frames(s: SeqView) -> Seq<int> {
    s.frames.map_values(|f: SeqFrame| f.frame as int)
}

proof fn lemma_straight_walk(frames: Seq<FrameView>, k: nat, rolls: Seq<u32>, st: WalkState)
    requires
        forall|i: int| 0 <= i < frames.len() ==> (#[trigger] frames[i]).branching.len() == 0,
        frames.len() <= usize::MAX,
        k <= frames.len(),
        st.reached.len() == frames.len(),
        forall|i: int| 0 <= i < frames.len() ==> ((#[trigger] st.reached[i]) is Some <==> i < k),
        st.steps == k,
        shown_frames(st.seq) == timed_frames(frames, k),
        st.seq.loop_start_cs is None,
        !st.seq.truncated,
    ensures
        shown_frames(walk(frames, k as int, rolls, st, false)) == timed_frames(frames, frames.len()),
        walk(frames, k as int, rolls, st, false).loop_start_cs is None,
        !walk(frames, k as int, rolls, st, false).truncated,
    decreases frames.len() - k,
{
    if k < frames.len() {
        let nx = play_frame(st, k as int, frames[k as int].duration);
        assert forall|i: int| 0 <= i < frames.len() implies ((#[trigger] nx.reached[i]) is Some <==> i < k + 1) by {
        }
        if frames[k as int].duration > 0 {
            assert(shown_frames(nx.seq) =~= shown_frames(st.seq).push(k as int));
        }
        lemma_straight_walk(frames, k + 1, rolls, nx);
    }
}

/// An animation without branches plays straight through: its frames with a duration, in
/// file order, each once, and no loop, whatever the rolls.
pub proof fn lemma_unbranched_in_order(frames: Seq<FrameView>, rolls: Seq<u32>)
    requires
        forall|i: int| 0 <= i < frames.len() ==> (#[trigger] frames[i]).branching.len() == 0,
        frames.len() <= usize::MAX,
    ensures
        shown_frames(walk(frames, 0, rolls, walk_start(frames.len()), false)) == timed_frames(frames, frames.len()),
        walk(frames, 0, rolls, walk_start(frames.len()), false).loop_start_cs is None,
        !walk(frames, 0, rolls, walk_start(frames.len()), false).truncated,
{
    let st = walk_start(frames.len());
    assert(shown_frames(st.seq) =~= timed_frames(frames, 0));
    lemma_straight_walk(frames, 0, rolls, st);
}

/// The bookkeeping shared by both walks.
struct Walk {
    seq: AnimationSequence,
    reached_cs: Vec<Option<u32>>,
    steps: usize,
}

impl Walk {
    spec fn state(&self) -> WalkState {
        WalkState { seq: self.seq@, reached: self.reached_cs@, steps: self.steps as nat }
    }

    /// The walk's accounting: the time so far is the sum of the reached frames'
    /// durations, the step count is how many were reached, and the loop point, once set,
    /// lies within the sequence.
    spec fn inv(&self, frames: Seq<FrameView>) -> bool {
        &&& self.reached_cs@.len() == frames.len()
        &&& self.seq.total_cs == reached_sum(frames, self.reached_cs@, frames.len())
        &&& self.steps == reached_count(self.reached_cs@, frames.len())
        &&& total_duration(frames, frames.len()) <= u32::MAX
        &&& !self.seq.truncated
        &&& self.seq.loop_start_cs is None
        &&& forall|i: int|
            0 <= i < frames.len() ==> (#[trigger] self.reached_cs@[i] matches Some(s) ==> s
                <= self.seq.total_cs)
    }

    fn new(frame_count: usize, Ghost(frames): Ghost<Seq<FrameView>>) -> (w: Walk)
        requires
            frames.len() == frame_count,
            total_duration(frames, frames.len()) <= u32::MAX,
        ensures
            w.state() == walk_start(frame_count as nat),
            w.inv(frames),
    {
        let w = Walk {
            seq: AnimationSequence::default(),
            reached_cs: crate::model::vec_filled(None, frame_count),
            steps: 0,
        };
        proof {
            lemma_empty_reached(frames, frame_count as nat, frame_count as nat);
            assert(w.reached_cs@ =~= Seq::new(frame_count as nat, |i: int| None::<u32>));
        }
        w
    }

    /// Play source frame `index`. Returns `false` when the walk ends here: the frame was
    /// played before (its start time becomes the loop point) or the guard tripped.
    /// Zero-duration frames are recorded but never put on the timeline.
    fn play(&mut self, index: usize, duration_cs: u16, Ghost(frames): Ghost<Seq<FrameView>>) -> (cont: bool)
        requires
            old(self).inv(frames),
            index < frames.len(),
            duration_cs == frames[index as int].duration,
        ensures
            cont ==> final(self).state() == play_frame(old(self).state(), index as int, duration_cs),
            cont ==> final(self).inv(frames),
            cont ==> old(self).steps < frames.len(),
            cont <==> (old(self).reached_cs@[index as int] is None),
            !cont ==> final(self).seq@ == (SeqView {
                loop_start_cs: old(self).reached_cs@[index as int],
                ..old(self).seq@
            }),
            !cont ==> seq_wf(final(self).seq@),
    {
        if let Some(start_cs) = self.reached_cs[index] {
            self.seq.loop_start_cs = Some(start_cs);
            return false;
        }
        proof {
            lemma_reached_missing(self.reached_cs@, index as int, frames.len());
            lemma_reached_update(frames, self.reached_cs@, index as int, self.seq.total_cs, frames.len());
            lemma_reached_bounds(frames, self.reached_cs@.update(index as int, Some(self.seq.total_cs)), frames.len());
        }
        if self.steps >= self.reached_cs.len() {
            self.seq.truncated = true;
            return false;
        }
        self.steps += 1;
        let now = self.seq.total_cs;
        self.reached_cs.set(index, Some(now));
        if duration_cs > 0 {
            self.seq.frames.push(SeqFrame { frame: index, start_cs: now, duration_cs });
            self.seq.total_cs = now + duration_cs as u32;
        }
        true
    }

    fn finish(self) -> (s: AnimationSequence)
        ensures
            s@ == self.seq@,
    {
        self.seq
    }
}

/// Resolve a frame's branch table against one roll, cumulatively: the first branch
/// whose share covers the roll wins and each miss consumes its share. `None` when no
/// branch fires or the target is not a frame index.
fn branch_target(frame: &Frame, roll: u32) -> (r: Option<usize>)
    ensures
        r == match branch_pick(frame.branching@, roll as int, 0) {
            Some(t) => Some(t as usize),
            None => None::<usize>,
        },
        r matches Some(t) ==> branch_pick(frame.branching@, roll as int, 0) == Some(t as int),
{
    let mut left = roll;
    let mut k: usize = 0;
    while k < frame.branching.len()
        invariant
            0 <= k <= frame.branching@.len(),
            branch_pick(frame.branching@, roll as int, 0) == branch_pick(
                frame.branching@,
                left as int,
                k as nat,
            ),
        decreases frame.branching@.len() - k,
    {
        let share = frame.branching[k].probability as u32;
        if left <= share {
            let t = frame.branching[k].frame_ndx;
            if t >= 0 {
                return Some(t as usize);
            } else {
                return None;
            }
        }
        left = left - share;
        k += 1;
    }
    None
}

/// The frame an interrupted animation winds down to from `frame`, if it names one in
/// range.
fn exit_target(frame: &Frame, frame_count: usize) -> (r: Option<usize>)
    ensures
        r == match exit_next(frame@, frame_count as int) {
            Some(n) => Some(n as usize),
            None => None::<usize>,
        },
{
    if frame.exit_frame >= 0 && (frame.exit_frame as usize) < frame_count {
        Some(frame.exit_frame as usize)
    } else {
        None
    }
}

/// Build the playback sequence for `anim`, resolving branches with `rng`: start at
/// frame 0 and follow branches until the walk runs off the end or returns to a frame it
/// has already played (the loop point). The result is the forward walk for the rolls
/// that were drawn.
pub fn sequence_animation<R: BranchRng>(anim: &Animation, rng: &mut R) -> (s: AnimationSequence)
    requires
        timeline_fits(anim@.frames),
    ensures
        (s@, *final(rng)) == sequence_drawing(anim@.frames, *old(rng)),
        forward_walk(anim@.frames, s@),
        seq_wf(s@),
        !s.truncated,
{
    let ghost frames = anim@.frames;
    let ghost rng0 = *rng;
    let mut w = Walk::new(anim.frames.len(), Ghost(frames));
    let ghost mut used: Seq<u32> = Seq::empty();
    let mut index: usize = 0;
    loop
        invariant_except_break
            w.inv(frames),
            frames == anim@.frames,
            valid_rolls(used),
            forall|rest: Seq<u32>|
                walk(frames, 0, used + rest, walk_start(frames.len()), false) == #[trigger] walk(
                    frames,
                    index as int,
                    rest,
                    w.state(),
                    false,
                ),
            sequence_drawing(frames, rng0) == walk_drawing(frames, index as int, *rng, w.state()),
        ensures
            sequence_drawing(frames, rng0) == (w.seq@, *rng),
            valid_rolls(used),
            seq_wf(w.seq@),
            !w.seq.truncated,
            walk(frames, 0, used, walk_start(frames.len()), false) == w.seq@,
        decreases frames.len() - w.steps,
    {
        if index >= anim.frames.len() {
            proof {
                assert(used + Seq::<u32>::empty() =~= used);
                let _ = walk(frames, index as int, Seq::<u32>::empty(), w.state(), false);
            }
            break;
        }
        let frame = &anim.frames[index];
        let ghost before = w.state();
        if !w.play(index, frame.duration, Ghost(frames)) {
            proof {
                assert(used + Seq::<u32>::empty() =~= used);
                let _ = walk(frames, index as int, Seq::<u32>::empty(), before, false);
            }
            break;
        }
        if frame.branching.len() == 0 {
            proof {
                assert forall|rest: Seq<u32>|
                    walk(frames, 0, used + rest, walk_start(frames.len()), false) == #[trigger] walk(
                        frames,
                        (index + 1) as int,
                        rest,
                        w.state(),
                        false,
                    ) by {
                    assert(walk(frames, 0, used + rest, walk_start(frames.len()), false) == walk(
                        frames,
                        index as int,
                        rest,
                        before,
                        false,
                    ));
                }
            }
            index = index + 1;
        } else {
            let roll = rng.roll_1_100();
            let next = match branch_target(frame, roll) {
                Some(t) => t,
                None => index + 1,
            };
            proof {
                assert forall|rest: Seq<u32>|
                    walk(frames, 0, (used.push(roll)) + rest, walk_start(frames.len()), false)
                        == #[trigger] walk(frames, next as int, rest, w.state(), false) by {
                    let r2 = seq![roll] + rest;
                    assert((used.push(roll)) + rest =~= used + r2);
                    assert(r2.drop_first() =~= rest);
                    assert(walk(frames, 0, used + r2, walk_start(frames.len()), false) == walk(
                        frames,
                        index as int,
                        r2,
                        before,
                        false,
                    ));
                }
                used = used.push(roll);
            }
            index = next;
        }
    }
    assert(valid_rolls(used) && w.seq@ == walk(frames, 0, used, walk_start(frames.len()), false));
    w.finish()
}

/// Build the deterministic exit sequence starting at `from_frame`, used to return to the
/// neutral pose when an animation ends or is interrupted: follow each frame's exit frame
/// and stop as soon as a frame names none.
pub fn sequence_exit(anim: &Animation, from_frame: usize) -> (s: AnimationSequence)
    requires
        timeline_fits(anim@.frames),
    ensures
        s@ == exit_walk(anim@.frames, from_frame as int),
        seq_wf(s@),
        !s.truncated,
{
    let ghost frames = anim@.frames;
    let mut w = Walk::new(anim.frames.len(), Ghost(frames));
    let mut index = from_frame;
    loop
        invariant_except_break
            w.inv(frames),
            frames == anim@.frames,
            walk(frames, from_frame as int, Seq::empty(), walk_start(frames.len()), true) == walk(
                frames,
                index as int,
                Seq::empty(),
                w.state(),
                true,
            ),
        ensures
            seq_wf(w.seq@),
            !w.seq.truncated,
            walk(frames, from_frame as int, Seq::empty(), walk_start(frames.len()), true) == w.seq@,
        decreases frames.len() - w.steps,
    {
        if index >= anim.frames.len() {
            break;
        }
        let frame = &anim.frames[index];
        if !w.play(index, frame.duration, Ghost(frames)) {
            break;
        }
        match exit_target(frame, anim.frames.len()) {
            Some(next) => index = next,
            None => break,
        }
    }
    w.finish()
}

} // verus!
