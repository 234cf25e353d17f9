use crustagent::model::{Animation, Branch, Frame, ReturnKind};
use crustagent::rng::{BranchRng, SplitMix64};
use crustagent::sequence::{sequence_animation, sequence_exit, AnimationSequence, SeqFrame};

/// Replays a fixed script of rolls, cycling when exhausted.
struct ScriptedRng {
    rolls: Vec<u32>,
    pos: usize,
}

impl ScriptedRng {
    fn new(rolls: Vec<u32>) -> Self {
        ScriptedRng { rolls, pos: 0 }
    }
}

impl BranchRng for ScriptedRng {
    fn next_roll(&self) -> u32 {
        self.rolls[self.pos % self.rolls.len()]
    }

    fn rolled(&self) -> Self {
        ScriptedRng { rolls: self.rolls.clone(), pos: self.pos + 1 }
    }

    fn roll_1_100(&mut self) -> u32 {
        let v = self.rolls[self.pos % self.rolls.len()];
        self.pos += 1;
        v
    }
}

fn frame(duration: u16, branches: &[(i16, u16)]) -> Frame {
    Frame {
        duration,
        sound_ndx: -1,
        exit_frame: -1,
        branching: branches
            .iter()
            .map(|&(frame_ndx, probability)| Branch { frame_ndx, probability })
            .collect(),
        images: Vec::new(),
        overlays: Vec::new(),
    }
}

fn anim(frames: Vec<Frame>) -> Animation {
    Animation {
        name: "test".into(),
        return_kind: ReturnKind::NoReturn,
        return_name: String::new(),
        frames,
    }
}

fn order(seq: &AnimationSequence) -> Vec<usize> {
    seq.frames.iter().map(|f| f.frame).collect()
}

#[test]
fn linear_animation_accumulates_time() {
    let a = anim(vec![frame(10, &[]), frame(20, &[]), frame(5, &[])]);
    let mut rng = SplitMix64::new(1);
    let seq = sequence_animation(&a, &mut rng);

    assert_eq!(seq.len(), 3);
    assert_eq!(seq.frames[0], SeqFrame { frame: 0, start_cs: 0, duration_cs: 10 });
    assert_eq!(seq.frames[1], SeqFrame { frame: 1, start_cs: 10, duration_cs: 20 });
    assert_eq!(seq.frames[2], SeqFrame { frame: 2, start_cs: 30, duration_cs: 5 });
    assert_eq!(seq.total_cs, 35);
    assert_eq!(seq.total_ms(), 350);
    assert_eq!(seq.loop_start_cs, None);
    assert!(!seq.truncated);
}

#[test]
fn zero_duration_frames_are_traversed_not_emitted() {
    let a = anim(vec![frame(0, &[(1, 100)]), frame(10, &[])]);
    let mut rng = SplitMix64::new(1);
    let seq = sequence_animation(&a, &mut rng);
    assert_eq!(seq.len(), 1);
    assert_eq!(seq.frames[0].frame, 1);
    assert_eq!(seq.total_cs, 10);
}

#[test]
fn deterministic_branch_selection() {
    let a = anim(vec![frame(10, &[(2, 30), (1, 70)]), frame(10, &[]), frame(10, &[])]);

    let mut low = ScriptedRng::new(vec![25]);
    let seq = sequence_animation(&a, &mut low);
    assert_eq!(order(&seq), vec![0, 2]);

    let mut high = ScriptedRng::new(vec![80]);
    let seq = sequence_animation(&a, &mut high);
    assert_eq!(order(&seq), vec![0, 1, 2]);
}

#[test]
fn detects_loop_and_reports_start() {
    let a = anim(vec![frame(10, &[]), frame(20, &[]), frame(5, &[(1, 100)])]);
    let mut rng = SplitMix64::new(1);
    let seq = sequence_animation(&a, &mut rng);
    assert_eq!(order(&seq), vec![0, 1, 2]);
    assert_eq!(seq.loop_start_cs, Some(10));
    assert!(!seq.truncated);
}

#[test]
fn loop_duration_derives_from_start() {
    let a = anim(vec![frame(10, &[]), frame(20, &[]), frame(5, &[(1, 100)])]);
    let mut rng = SplitMix64::new(1);
    let seq = sequence_animation(&a, &mut rng);
    assert!(seq.is_looping());
    assert_eq!(seq.loop_start_cs, Some(10));
    assert_eq!(seq.loop_duration_cs(), Some(25));
}

#[test]
fn exit_walk_follows_exit_frames() {
    let mut f0 = frame(10, &[]);
    f0.exit_frame = 2;
    let f1 = frame(99, &[]);
    let mut f2 = frame(5, &[]);
    f2.exit_frame = -1;
    let a = anim(vec![f0, f1, f2]);

    let seq = sequence_exit(&a, 0);
    assert_eq!(order(&seq), vec![0, 2]);
    assert_eq!(seq.total_cs, 15);
    assert!(!seq.truncated);
}

#[test]
fn exit_walk_from_middle() {
    let mut f0 = frame(10, &[]);
    f0.exit_frame = -1;
    let mut f1 = frame(20, &[]);
    f1.exit_frame = -1;
    let a = anim(vec![f0, f1]);
    let seq = sequence_exit(&a, 1);
    assert_eq!(order(&seq), vec![1]);
}

#[test]
fn frame_at_cs_lookup() {
    let a = anim(vec![frame(10, &[]), frame(20, &[])]);
    let mut rng = SplitMix64::new(1);
    let seq = sequence_animation(&a, &mut rng);
    assert_eq!(seq.frame_at_cs(0).unwrap().frame, 0);
    assert_eq!(seq.frame_at_cs(9).unwrap().frame, 0);
    assert_eq!(seq.frame_at_cs(10).unwrap().frame, 1);
    assert_eq!(seq.frame_at_cs(29).unwrap().frame, 1);
    assert!(seq.frame_at_cs(30).is_none());
}

#[test]
fn negative_branch_target_falls_through_to_next_frame() {
    let a = anim(vec![frame(10, &[(-3, 100)]), frame(7, &[])]);
    let mut rng = ScriptedRng::new(vec![50]);
    let seq = sequence_animation(&a, &mut rng);
    assert_eq!(order(&seq), vec![0, 1]);
    assert_eq!(seq.total_cs, 17);
}

#[test]
fn branches_that_miss_advance_in_order() {
    // 40% + 40% leaves a roll of 90 uncovered: the walk moves to frame 1.
    let a = anim(vec![frame(10, &[(2, 40), (2, 40)]), frame(10, &[]), frame(10, &[])]);
    let mut rng = ScriptedRng::new(vec![90]);
    let seq = sequence_animation(&a, &mut rng);
    assert_eq!(order(&seq), vec![0, 1, 2]);
}

#[test]
fn splitmix_is_deterministic_and_rolls_in_range() {
    let mut a = SplitMix64::new(42);
    let mut b = SplitMix64::new(42);
    for _ in 0..100 {
        let x = a.roll_1_100();
        assert_eq!(x, b.roll_1_100());
        assert!((1..=100).contains(&x));
    }
    // The first SplitMix64 output for seed 0.
    assert_eq!(SplitMix64::new(0).next_u64(), 0xE220_A839_7B1D_CDAF);
}

#[test]
fn default_sequence_is_empty() {
    let s = AnimationSequence::default();
    assert!(s.is_empty());
    assert_eq!(s.total_cs, 0);
    assert_eq!(s.loop_duration_cs(), None);
}
