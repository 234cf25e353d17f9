//! A thin runtime view over a parsed character file: name-to-animation and
//! state-to-animation resolution plus convenience sequence builders.
//!
//! States are engine categories (`"SHOWING"`, `"SPEAKING"`, `"IDLINGLEVEL1"`, ...) that map
//! to an ordered list of animation names; the engine plays the first and queues the rest.
//! Lookups ignore ASCII case: state definitions often name animations in another case than
//! they were authored in.

use crate::acs::{first_named, AcsFile, AcsView};
use crate::acs_records::AnimationView;
use crate::blocks::StateView;
use crate::model::{Animation, ReturnKind, State};
use crate::rng::BranchRng;
use crate::sequence::{
    exit_walk, forward_walk, sequence_animation, sequence_drawing, sequence_exit, timeline_fits,
    AnimationSequence,
};
use crate::textutil::{copy_string, eq_ignore_case, push_str, str_eq_ignore_case};
use vstd::prelude::*;

verus! {

/// The index of the first state in `states[..n]` named `name` up to ASCII case.
pub open spec fn first_state(states: Seq<StateView>, name: Seq<char>, n: nat) -> Option<int>
    decreases n,
{
    if n == 0 {
        None
    } else {
        match first_state(states, name, (n - 1) as nat) {
            Some(i) => Some(i),
            None => if eq_ignore_case(states[n - 1].name, name) {
                Some(n - 1)
            } else {
                None
            },
        }
    }
}

/// The index of the animation named `name` (ASCII case ignored), if it has a record.
pub open spec fn anim_index(v: AcsView, name: Seq<char>) -> Option<int> {
    match first_named(v.gesture_names, name, v.gesture_names.len()) {
        Some(i) => if 0 <= i < v.animations.len() {
            Some(i)
        } else {
            None
        },
        None => None,
    }
}

/// The animation named `name`, as plain values.
pub open spec fn anim_named(v: AcsView, name: Seq<char>) -> Option<AnimationView> {
    match anim_index(v, name) {
        Some(i) => Some(v.animations[i]),
        None => None,
    }
}

/// The animation names a state lists.
pub open spec fn state_names(v: AcsView, state: Seq<char>) -> Option<Seq<Seq<char>>> {
    match first_state(v.states, state, v.states.len()) {
        Some(i) => Some(v.states[i].animations),
        None => None,
    }
}

/// The first of `names[k..]` that names an animation.
pub open spec fn first_resolvable(v: AcsView, names: Seq<Seq<char>>, k: nat) -> Option<
    AnimationView,
>
    decreases names.len() - k,
{
    if k >= names.len() {
        None
    } else {
        match anim_named(v, names[k as int]) {
            Some(a) => Some(a),
            None => first_resolvable(v, names, k + 1),
        }
    }
}

/// Whether every animation's timeline fits the centisecond clock.
pub open spec fn timelines_fit(v: AcsView) -> bool {
    forall|i: int| 0 <= i < v.animations.len() ==> timeline_fits(#[trigger] v.animations[i].frames)
}

/// The animation a host plays for `name` with the given suffix (`"Continued"`,
/// `"Return"`).
pub open spec fn suffixed(name: Seq<char>, suffix: Seq<char>) -> Seq<char> {
    name + suffix
}

/// The return animation for a gesture: the base's explicit return link when it declares
/// one that resolves, else the `<name>Return` convention.
pub open spec fn return_named(v: AcsView, name: Seq<char>) -> Option<AnimationView> {
    let linked = match anim_named(v, name) {
        Some(base) => if base.return_kind == ReturnKind::Named && base.return_name.len() > 0 {
            anim_named(v, base.return_name)
        } else {
            None
        },
        None => None,
    };
    match linked {
        Some(a) => Some(a),
        None => anim_named(v, suffixed(name, "Return"@)),
    }
}

/// The parts a host plays for a gesture: the base, the continuation and the return,
/// those that exist; nothing when the base is unknown.
pub open spec fn gesture_parts(v: AcsView, name: Seq<char>) -> Seq<AnimationView> {
    match anim_named(v, name) {
        None => Seq::empty(),
        Some(base) => {
            let with_mid = match anim_named(v, suffixed(name, "Continued"@)) {
                Some(a) => seq![base, a],
                None => seq![base],
            };
            match return_named(v, name) {
                Some(a) => with_mid.push(a),
                None => with_mid,
            }
        },
    }
}

/// The views of a list of borrowed animations.
pub open spec fn anim_refs_view(v: Seq<&Animation>) -> Seq<AnimationView> {
    Seq::new(v.len(), |i: int| v[i]@)
}

proof fn lemma_first_state_stable(states: Seq<StateView>, name: Seq<char>, i: nat, n: nat)
    requires
        first_state(states, name, i) is Some,
        i <= n,
    ensures
        first_state(states, name, n) == first_state(states, name, i),
    decreases n - i,
{
    if i < n {
        lemma_first_state_stable(states, name, i, (n - 1) as nat);
    }
}

/// Runtime accessor over a parsed character file.
pub struct Character<'a> {
    file: &'a AcsFile,
}

impl<'a> View for Character<'a> {
    type V = AcsView;

    closed spec fn view(&self) -> AcsView {
        self.file@
    }
}

impl<'a> Character<'a> {
    /// Wrap a parsed character file.
    pub fn new(file: &'a AcsFile) -> (c: Character<'a>)
        ensures
            c@ == file@,
    {
        Character { file }
    }

    /// The underlying parsed file.
    pub fn file(&self) -> (f: &AcsFile)
        ensures
            f@ == self@,
    {
        self.file
    }

    /// The ordered animation names for a state (e.g. `"SPEAKING"`), ASCII case ignored.
    pub fn state_animations(&self, state: &str) -> (r: Option<&'a [String]>)
        ensures
            match state_names(self@, state@) {
                Some(ns) => r matches Some(s) && crate::acs::texts_view(s@) == ns,
                None => r is None,
            },
    {
        let states = self.file.states_list();
        let ghost sv = self@.states;
        let mut i: usize = 0;
        while i < states.len()
            invariant
                0 <= i <= states@.len(),
                sv == self@.states,
                sv == crate::blocks::states_view(states@),
                first_state(sv, state@, i as nat) is None,
            decreases states@.len() - i,
        {
            if str_eq_ignore_case(states[i].name.as_str(), state) {
                proof {
                    assert(sv[i as int] == states@[i as int]@);
                    lemma_first_state_stable(sv, state@, (i + 1) as nat, sv.len());
                    assert(crate::acs::texts_view(states@[i as int].animations@) =~= sv[i as int].animations);
                }
                return Some(states[i].animations.as_slice());
            }
            i += 1;
        }
        None
    }

    /// Look up an animation by name (ASCII case ignored).
    pub fn animation(&self, name: &str) -> (r: Option<&'a Animation>)
        ensures
            match anim_named(self@, name@) {
                Some(a) => r matches Some(x) && x@ == a,
                None => r is None,
            },
    {
        proof {
            crate::acs::lemma_first_named_bound(self@.gesture_names, name@, self@.gesture_names.len());
        }
        self.file.animation(name)
    }

    /// Build the playback sequence for a named animation.
    pub fn gesture_sequence<R: BranchRng>(&self, name: &str, rng: &mut R) -> (r: Option<
        AnimationSequence,
    >)
        requires
            timelines_fit(self@),
        ensures
            match anim_named(self@, name@) {
                Some(a) => r matches Some(s) && forward_walk(a.frames, s@)
                    && (s@, *final(rng)) == sequence_drawing(a.frames, *old(rng)),
                None => r is None && *final(rng) == *old(rng),
            },
    {
        match self.animation(name) {
            Some(a) => {
                proof {
                    assert(timeline_fits(self@.animations[anim_index(self@, name@).unwrap()].frames));
                }
                Some(sequence_animation(a, rng))
            },
            None => None,
        }
    }

    /// Build the sequence for the animation the engine plays first for a state: the
    /// first entry of the state's list that names an existing animation.
    pub fn state_sequence<R: BranchRng>(&self, state: &str, rng: &mut R) -> (r: Option<
        AnimationSequence,
    >)
        requires
            timelines_fit(self@),
        ensures
            match state_names(self@, state@) {
                Some(ns) => match first_resolvable(self@, ns, 0) {
                    Some(a) => r matches Some(s) && forward_walk(a.frames, s@)
                        && (s@, *final(rng)) == sequence_drawing(a.frames, *old(rng)),
                    None => r is None && *final(rng) == *old(rng),
                },
                None => r is None && *final(rng) == *old(rng),
            },
    {
        let names = match self.state_animations(state) {
            Some(n) => n,
            None => return None,
        };
        let ghost ns = state_names(self@, state@).unwrap();
        let mut k: usize = 0;
        while k < names.len()
            invariant
                0 <= k <= names@.len(),
                ns == crate::acs::texts_view(names@),
                state_names(self@, state@) == Some(ns),
                first_resolvable(self@, ns, 0) == first_resolvable(self@, ns, k as nat),
                timelines_fit(self@),
                *rng == *old(rng),
            decreases names@.len() - k,
        {
            match self.animation(names[k].as_str()) {
                Some(a) => {
                    proof {
                        assert(ns[k as int] == names@[k as int]@);
                        assert(timeline_fits(self@.animations[anim_index(self@, ns[k as int]).unwrap()].frames));
                        assert(first_resolvable(self@, ns, k as nat) == anim_named(self@, ns[k as int]));
                    }
                    return Some(sequence_animation(a, rng));
                },
                None => {
                    proof {
                        assert(ns[k as int] == names@[k as int]@);
                    }
                },
            }
            k += 1;
        }
        None
    }

    /// Build the return-to-neutral (exit) sequence for a named animation from its first
    /// frame; `None` if the animation is unknown or has no frames.
    pub fn gesture_exit_sequence(&self, name: &str) -> (r: Option<AnimationSequence>)
        requires
            timelines_fit(self@),
        ensures
            match anim_named(self@, name@) {
                Some(a) => if a.frames.len() == 0 {
                    r is None
                } else {
                    r matches Some(s) && s@ == exit_walk(a.frames, 0)
                },
                None => r is None,
            },
    {
        let a = match self.animation(name) {
            Some(a) => a,
            None => return None,
        };
        if a.frames.len() == 0 {
            None
        } else {
            proof {
                assert(timeline_fits(self@.animations[anim_index(self@, name@).unwrap()].frames));
            }
            Some(sequence_exit(a, 0))
        }
    }

    /// The "continued" middle animation for a gesture, by the `<name>Continued`
    /// convention, if present.
    pub fn continued_animation(&self, name: &str) -> (r: Option<&'a Animation>)
        ensures
            match anim_named(self@, suffixed(name@, "Continued"@)) {
                Some(a) => r matches Some(x) && x@ == a,
                None => r is None,
            },
    {
        let mut full = copy_string_str(name);
        push_str(&mut full, "Continued");
        self.animation(full.as_str())
    }

    /// The return animation for a gesture: an explicit return link when the base
    /// animation declares one that resolves, otherwise the `<name>Return` convention.
    pub fn return_animation(&self, name: &str) -> (r: Option<&'a Animation>)
        ensures
            match return_named(self@, name@) {
                Some(a) => r matches Some(x) && x@ == a,
                None => r is None,
            },
    {
        if let Some(base) = self.animation(name) {
            if base.return_kind == ReturnKind::Named && base.return_name.unicode_len() > 0 {
                if let Some(a) = self.animation(base.return_name.as_str()) {
                    return Some(a);
                }
            }
        }
        let mut full = copy_string_str(name);
        push_str(&mut full, "Return");
        self.animation(full.as_str())
    }

    /// The animations a host plays for a gesture, in order: the base, the "continued"
    /// middle (if any), then the return (if any). Empty if `name` is unknown.
    pub fn full_gesture(&self, name: &str) -> (out: Vec<&'a Animation>)
        ensures
            anim_refs_view(out@) == gesture_parts(self@, name@),
    {
        let mut out: Vec<&'a Animation> = Vec::new();
        match self.animation(name) {
            Some(base) => out.push(base),
            None => {
                assert(anim_refs_view(out@) =~= gesture_parts(self@, name@));
                return out;
            },
        }
        if let Some(a) = self.continued_animation(name) {
            out.push(a);
        }
        if let Some(a) = self.return_animation(name) {
            out.push(a);
        }
        assert(anim_refs_view(out@) =~= gesture_parts(self@, name@));
        out
    }
}

/// A copy of a string slice.
fn copy_string_str(s: &str) -> (r: String)
    ensures
        r@ == s@,
{
    let mut r = String::new();
    push_str(&mut r, s);
    r
}

} // verus!
