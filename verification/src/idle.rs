//! Auto-idle behavior: when a character has nothing queued, it plays idle animations that
//! escalate through `IDLINGLEVEL1` to `2` to `3` the longer it stays idle.
//!
//! This is the decision of which idle animation plays next, not a timer: the host asks
//! when the current clip ends, and the director picks the next animation name, escalating
//! the level over successive turns.

use crate::acs::AcsView;
use crate::character::{anim_named, state_names, Character};
use crate::rng::BranchRng;
use crate::textutil::{copy_string, decimal, push_char, push_str};
use vstd::prelude::*;

verus! {

/// The idle state of a level: `IDLINGLEVEL` followed by the level in decimal.
pub open spec fn idle_state(level: nat) -> Seq<char> {
    "IDLINGLEVEL"@ + decimal(level)
}

/// Whether the character lists at least one animation for idle level `level`.
pub open spec fn has_idle_level(v: AcsView, level: nat) -> bool {
    state_names(v, idle_state(level)) matches Some(ns) && ns.len() > 0
}

/// The highest idle level (1 to 3) the character populates, 1 if none.
pub open spec fn detected_levels(v: AcsView) -> u8 {
    if has_idle_level(v, 3) {
        3
    } else if has_idle_level(v, 2) {
        2
    } else {
        1
    }
}

/// The names among `names[..n]` that resolve to an animation, in order.
pub open spec fn resolving(v: AcsView, names: Seq<Seq<char>>, n: nat) -> Seq<Seq<char>>
    decreases n,
{
    if n == 0 {
        Seq::empty()
    } else {
        let prev = resolving(v, names, (n - 1) as nat);
        if anim_named(v, names[n - 1]) is Some {
            prev.push(names[n - 1])
        } else {
            prev
        }
    }
}

/// The idle candidates at `level`: the level's animations that resolve.
pub open spec fn candidates(v: AcsView, level: nat) -> Seq<Seq<char>> {
    match state_names(v, idle_state(level)) {
        Some(ns) => resolving(v, ns, ns.len()),
        None => Seq::empty(),
    }
}

/// The idle animation picked at `level` with `roll`: from the first level at or below it
/// (down to 1) that has candidates, the candidate `(roll - 1) % count`.
pub open spec fn idle_choice(v: AcsView, level: nat, roll: int) -> Option<Seq<char>>
    decreases level,
{
    let c = candidates(v, level);
    if c.len() > 0 {
        Some(c[(roll - 1) % (c.len() as int)])
    } else if level <= 1 {
        None
    } else {
        idle_choice(v, (level - 1) as nat, roll)
    }
}

proof fn lemma_resolving_members(v: AcsView, names: Seq<Seq<char>>, n: nat)
    requires
        n <= names.len(),
    ensures
        forall|i: int| 0 <= i < resolving(v, names, n).len() ==> anim_named(v, #[trigger] resolving(v, names, n)[i]) is Some
            && names.take(n as int).contains(resolving(v, names, n)[i]),
        forall|j: int| 0 <= j < n && anim_named(v, #[trigger] names[j]) is Some ==> resolving(v, names, n).contains(names[j]),
    decreases n,
{
    if n > 0 {
        lemma_resolving_members(v, names, (n - 1) as nat);
        let prev = resolving(v, names, (n - 1) as nat);
        let cur = resolving(v, names, n);
        assert forall|i: int| 0 <= i < cur.len() implies anim_named(v, #[trigger] cur[i]) is Some
            && names.take(n as int).contains(cur[i]) by {
            if i < prev.len() {
                assert(cur[i] == prev[i]);
                let w = choose|w: int| 0 <= w < names.take(n - 1).len() && #[trigger] names.take(n - 1)[w] == prev[i];
                assert(names.take(n as int)[w] == prev[i]);
            } else {
                assert(names.take(n as int)[n - 1] == names[n - 1]);
            }
        }
        assert forall|j: int| 0 <= j < n && anim_named(v, #[trigger] names[j]) is Some implies cur.contains(names[j]) by {
            if j < n - 1 {
                let w = choose|w: int| 0 <= w < prev.len() && #[trigger] prev[w] == names[j];
                if anim_named(v, names[n - 1]) is Some {
                    assert(cur[w] == prev[w]);
                }
            } else {
                assert(cur[cur.len() - 1] == names[n - 1]);
            }
        }
    }
}

/// An idle level's candidates are exactly the animations its `IDLINGLEVEL` state lists
/// that exist: each candidate is listed there and names an animation, and each listed
/// name that names an animation is a candidate.
pub proof fn lemma_idle_candidates_listed(v: AcsView, level: nat)
    ensures
        forall|i: int| 0 <= i < candidates(v, level).len() ==> (anim_named(v, #[trigger] candidates(v, level)[i]) is Some
            && (state_names(v, idle_state(level)) matches Some(ns) && ns.contains(candidates(v, level)[i]))),
        state_names(v, idle_state(level)) matches Some(ns) ==> forall|j: int|
            0 <= j < ns.len() && anim_named(v, #[trigger] ns[j]) is Some ==> candidates(v, level).contains(ns[j]),
{
    match state_names(v, idle_state(level)) {
        Some(ns) => {
            lemma_resolving_members(v, ns, ns.len());
            assert(ns.take(ns.len() as int) =~= ns);
        },
        None => {},
    }
}

/// Every idle candidate of a level is picked by some roll: with candidates at `level`, a
/// roll of `i + 1` picks candidate `i` (for the first 100); the picks cycle through the
/// candidates, a roll `count` higher picking the same one; and a level without candidates
/// picks as the level below it.
pub proof fn lemma_idle_candidates_reachable(v: AcsView, level: nat)
    ensures
        forall|i: int|
            0 <= i < candidates(v, level).len() && i < 100 ==> #[trigger] idle_choice(v, level, i + 1)
                == Some(candidates(v, level)[i]),
        forall|r: int|
            candidates(v, level).len() > 0 ==> #[trigger] idle_choice(v, level, r + candidates(v, level).len())
                == idle_choice(v, level, r),
        candidates(v, level).len() == 0 && level > 1 ==> forall|r: int|
            #[trigger] idle_choice(v, level, r) == idle_choice(v, (level - 1) as nat, r),
{
    let c = candidates(v, level);
    assert forall|i: int| 0 <= i < c.len() && i < 100 implies #[trigger] idle_choice(v, level, i + 1)
        == Some(c[i]) by {
        vstd::arithmetic::div_mod::lemma_small_mod(i as nat, c.len());
    }
    assert forall|r: int| c.len() > 0 implies #[trigger] idle_choice(v, level, r + c.len()) == idle_choice(
        v,
        level,
        r,
    ) by {
        vstd::arithmetic::div_mod::lemma_mod_add_multiples_vanish(r - 1, c.len() as int);
        assert(r + c.len() - 1 == c.len() + (r - 1));
    }
}

/// Picks escalating idle animations for a character.
#[derive(Debug)]
pub struct IdleDirector {
    level: u8,
    max_level: u8,
    turns_at_level: u32,
    escalate_after: u32,
}

/// A director as plain values.
pub struct IdleView {
    pub level: u8,
    pub max_level: u8,
    pub turns_at_level: u32,
    pub escalate_after: u32,
}

/// The director after one more idle turn: a level up (turn count reset) once the level
/// has lasted `escalate_after` turns, unless already at the top.
pub open spec fn escalated(d: IdleView) -> IdleView {
    let turns = if d.turns_at_level < u32::MAX {
        (d.turns_at_level + 1) as u32
    } else {
        u32::MAX
    };
    if turns >= d.escalate_after && d.level < d.max_level {
        IdleView { level: (d.level + 1) as u8, turns_at_level: 0, ..d }
    } else {
        IdleView { turns_at_level: turns, ..d }
    }
}

/// The director after `k` idle turns.
pub open spec fn turns(d: IdleView, k: nat) -> IdleView
    decreases k,
{
    if k == 0 {
        d
    } else {
        escalated(turns(d, (k - 1) as nat))
    }
}

proof fn lemma_turns_below(d: IdleView, k: nat)
    requires
        d.turns_at_level == 0,
        d.level < d.max_level,
        k < d.escalate_after,
    ensures
        turns(d, k) == (IdleView { turns_at_level: k as u32, ..d }),
    decreases k,
{
    if k > 0 {
        lemma_turns_below(d, (k - 1) as nat);
    }
}

/// Idle levels escalate by turns: a director just arrived at a level below its highest
/// stays there for `escalate_after - 1` turns and moves up exactly one level on the
/// `escalate_after`-th, starting that level afresh; at its highest level it stays put.
pub proof fn lemma_escalates_after_turns(d: IdleView)
    requires
        d.turns_at_level == 0,
        d.escalate_after >= 1,
    ensures
        d.level < d.max_level ==> turns(d, (d.escalate_after - 1) as nat).level == d.level,
        d.level < d.max_level ==> turns(d, d.escalate_after as nat) == (IdleView {
            level: (d.level + 1) as u8,
            turns_at_level: 0,
            ..d
        }),
        d.level >= d.max_level ==> forall|k: nat| #[trigger] turns(d, k).level == d.level,
{
    if d.level < d.max_level {
        lemma_turns_below(d, (d.escalate_after - 1) as nat);
    } else {
        assert forall|k: nat| #[trigger] turns(d, k).level == d.level by {
            lemma_turns_stay(d, k);
        }
    }
}

proof fn lemma_turns_stay(d: IdleView, k: nat)
    requires
        d.level >= d.max_level,
    ensures
        turns(d, k).level == d.level,
        turns(d, k).max_level == d.max_level,
    decreases k,
{
    if k > 0 {
        lemma_turns_stay(d, (k - 1) as nat);
    }
}

/// A director's level lies in `1..=max_level` and escalation takes at least one turn.
pub open spec fn idle_wf(d: IdleView) -> bool {
    1 <= d.level <= d.max_level && d.escalate_after >= 1
}

impl View for IdleDirector {
    type V = IdleView;

    closed spec fn view(&self) -> IdleView {
        IdleView {
            level: self.level,
            max_level: self.max_level,
            turns_at_level: self.turns_at_level,
            escalate_after: self.escalate_after,
        }
    }
}

/// The idle state name of a level.
fn idle_state_name(level: u8) -> (s: String)
    ensures
        s@ == idle_state(level as nat),
{
    let mut s = String::new();
    push_str(&mut s, "IDLINGLEVEL");
    proof {
        reveal_strlit("IDLINGLEVEL");
    }
    if level >= 100 {
        push_char(&mut s, ((48u8 + level / 100) as char));
    }
    if level >= 10 {
        push_char(&mut s, ((48u8 + (level / 10) % 10) as char));
    }
    push_char(&mut s, ((48u8 + level % 10) as char));
    proof {
        let n = level as nat;
        if n >= 100 {
            assert(decimal(n / 100) == seq![(('0' as u32) + n / 100) as char]);
            assert(decimal(n / 10) == decimal(n / 100).push((('0' as u32) + (n / 10) % 10) as char));
        } else if n >= 10 {
            assert(decimal(n / 10) == seq![(('0' as u32) + n / 10) as char]);
        }
        assert(s@ =~= idle_state(n));
    }
    s
}

impl IdleDirector {
    #[verifier::type_invariant]
    spec fn inv(&self) -> bool {
        idle_wf(self@)
    }

    /// Create a director for `character`, detecting the highest populated
    /// `IDLINGLEVEL` state (1 to 3). Escalates a level every 3 idle turns.
    pub fn new(character: &Character) -> (d: IdleDirector)
        ensures
            d@ == (IdleView {
                level: 1,
                max_level: detected_levels(character@),
                turns_at_level: 0,
                escalate_after: 3,
            }),
    {
        let mut max_level: u8 = 1;
        let mut lvl: u8 = 1;
        while lvl <= 3
            invariant
                1 <= lvl <= 4,
                max_level == (if lvl > 3 && has_idle_level(character@, 3) {
                    3
                } else if lvl > 2 && has_idle_level(character@, 2) {
                    2
                } else {
                    1u8
                }),
            decreases 4 - lvl,
        {
            let name = idle_state_name(lvl);
            let populated = match character.state_animations(name.as_str()) {
                Some(a) => a.len() > 0,
                None => false,
            };
            if populated {
                max_level = lvl;
            }
            lvl += 1;
        }
        IdleDirector { level: 1, max_level, turns_at_level: 0, escalate_after: 3 }
    }

    /// Create a director with an explicit maximum level (at least 1).
    pub fn with_levels(max_level: u8) -> (d: IdleDirector)
        ensures
            d@ == (IdleView {
                level: 1,
                max_level: if max_level < 1 { 1 } else { max_level },
                turns_at_level: 0,
                escalate_after: 3,
            }),
    {
        IdleDirector {
            level: 1,
            max_level: if max_level < 1 { 1 } else { max_level },
            turns_at_level: 0,
            escalate_after: 3,
        }
    }

    /// Set how many idle turns play before escalating a level (at least 1).
    pub fn escalate_after(self, turns: u32) -> (d: Self)
        ensures
            d@ == (IdleView { escalate_after: if turns < 1 { 1 } else { turns }, ..self@ }),
    {
        proof {
            use_type_invariant(&self);
        }
        IdleDirector { escalate_after: if turns < 1 { 1 } else { turns }, ..self }
    }

    /// The current idle level (1-based).
    pub fn level(&self) -> (l: u8)
        ensures
            l == self@.level,
            1 <= l <= self@.max_level,
    {
        proof {
            use_type_invariant(self);
        }
        self.level
    }

    /// The highest idle level this character defines.
    pub fn max_level(&self) -> (l: u8)
        ensures
            l == self@.max_level,
    {
        self.max_level
    }

    /// Count one idle turn, escalating a level once the current one has lasted its turns.
    pub fn escalate(&mut self)
        ensures
            final(self)@ == escalated(old(self)@),
            old(self)@.level <= final(self)@.level <= final(self)@.max_level,
    {
        proof {
            use_type_invariant(&*self);
        }
        let turns = self.turns_at_level.saturating_add(1);
        if turns >= self.escalate_after && self.level < self.max_level {
            self.level = self.level + 1;
            self.turns_at_level = 0;
        } else {
            self.turns_at_level = turns;
        }
    }

    /// Choose the next idle animation name, then count the turn. Uses the current level's
    /// `IDLINGLEVEL<n>` state, falling back to lower levels when that state has nothing
    /// that resolves; `None` if no level has. Whatever the roll drawn, the pick is the
    /// one `idle_choice` gives for it.
    pub fn next_idle<R: BranchRng>(&mut self, character: &Character, rng: &mut R) -> (r: Option<
        String,
    >)
        ensures
            final(self)@ == escalated(old(self)@),
            (exists|roll: int|
                1 <= roll <= 100 && match #[trigger] idle_choice(character@, old(self)@.level as nat, roll) {
                    Some(n) => r matches Some(s) && s@ == n,
                    None => r is None,
                }),
            match idle_choice(character@, old(self)@.level as nat, old(rng).next_roll() as int) {
                Some(n) => r matches Some(s) && s@ == n && *final(rng) == old(rng).rolled(),
                None => r is None && *final(rng) == *old(rng),
            },
    {
        proof {
            use_type_invariant(&*self);
        }
        let ghost start = self.level as nat;
        let mut lvl = self.level;
        let mut chosen: Option<String> = None;
        loop
            invariant_except_break
                chosen is None,
                *rng == *old(rng),
            invariant
                1 <= lvl <= start,
                forall|roll: int| #[trigger] idle_choice(character@, start, roll) == idle_choice(character@, lvl as nat, roll),
            ensures
                match idle_choice(character@, start, old(rng).next_roll() as int) {
                    Some(n) => chosen matches Some(s) && s@ == n && *rng == old(rng).rolled(),
                    None => chosen is None && *rng == *old(rng),
                },
                exists|roll: int|
                    1 <= roll <= 100 && match #[trigger] idle_choice(character@, start, roll) {
                        Some(n) => chosen matches Some(s) && s@ == n,
                        None => chosen is None,
                    },
            decreases lvl,
        {
            let name = idle_state_name(lvl);
            let valid = resolving_names(character, name.as_str());
            if valid.len() > 0 {
                let roll = rng.roll_1_100();
                let i = (roll as usize - 1) % valid.len();
                let pick = copy_string(&valid[i]);
                proof {
                    let c = candidates(character@, lvl as nat);
                    assert(c.len() == valid@.len());
                    assert(pick@ == c[(roll - 1) % (c.len() as int)]);
                    assert(idle_choice(character@, lvl as nat, roll as int) == Some(c[(roll - 1) % (c.len() as int)]));
                    assert(1 <= roll as int <= 100 && match idle_choice(character@, start, roll as int) {
                        Some(n) => Some(pick) matches Some(s) && s@ == n,
                        None => Some(pick) is None,
                    });
                }
                chosen = Some(pick);
                break;
            }
            if lvl <= 1 {
                proof {
                    assert(idle_choice(character@, lvl as nat, 1) is None);
                    assert(idle_choice(character@, start, 1) is None);
                    assert(idle_choice(character@, lvl as nat, old(rng).next_roll() as int) is None);
                }
                break;
            }
            lvl = lvl - 1;
        }
        self.escalate();
        chosen
    }
}

/// The animation names of a state that resolve, in order.
fn resolving_names(character: &Character, state: &str) -> (v: Vec<String>)
    ensures
        crate::acs::texts_view(v@) == match state_names(character@, state@) {
            Some(ns) => resolving(character@, ns, ns.len()),
            None => Seq::<Seq<char>>::empty(),
        },
{
    let mut out: Vec<String> = Vec::new();
    let names = match character.state_animations(state) {
        Some(n) => n,
        None => {
            assert(crate::acs::texts_view(out@) =~= Seq::<Seq<char>>::empty());
            return out;
        },
    };
    let ghost ns = state_names(character@, state@).unwrap();
    let mut k: usize = 0;
    while k < names.len()
        invariant
            0 <= k <= names@.len(),
            ns == crate::acs::texts_view(names@),
            crate::acs::texts_view(out@) == resolving(character@, ns, k as nat),
        decreases names@.len() - k,
    {
        let ok = character.animation(names[k].as_str()).is_some();
        proof {
            assert(ns[k as int] == names@[k as int]@);
        }
        if ok {
            out.push(copy_string(&names[k]));
        }
        k += 1;
        assert(crate::acs::texts_view(out@) =~= resolving(character@, ns, k as nat));
    }
    out
}

} // verus!
