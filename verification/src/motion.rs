//! Movement and pointing: choosing directional animation states and interpolating a
//! character's screen position over time.
//!
//! Pure geometry and timing. A move picks a `MOVING{UP,DOWN,LEFT,RIGHT}` state and walks
//! the position linearly; pointing picks a `GESTURING{...}` state toward a point. The
//! direction is the dominant axis of the offset. All arithmetic is exact integer
//! arithmetic: the trip's duration is the travel time rounded to the nearest millisecond
//! and each position is rounded to the nearest pixel, halves away from zero.

use vstd::prelude::*;

verus! {

/// A cardinal direction for `MOVING*` / `GESTURING*` states.
#[derive(Clone, Copy, PartialEq, Eq, Debug, Structural)]
pub enum Direction {
    Up,
    Down,
    Left,
    Right,
}

/// The absolute value of an integer.
pub open spec fn abs(x: int) -> int {
    if x < 0 {
        -x
    } else {
        x
    }
}

/// The direction toward offset `(dx, dy)` (screen coordinates, +y is down): the
/// dominant axis wins, ties favor horizontal.
pub open spec fn toward_spec(dx: int, dy: int) -> Direction {
    if abs(dx) >= abs(dy) {
        if dx >= 0 {
            Direction::Right
        } else {
            Direction::Left
        }
    } else if dy >= 0 {
        Direction::Down
    } else {
        Direction::Up
    }
}

/// [`toward_spec`] on wide offsets.
pub(crate) fn toward_wide(dx: i64, dy: i64) -> (d: Direction)
    requires
        dx > i64::MIN,
        dy > i64::MIN,
    ensures
        d == toward_spec(dx as int, dy as int),
{
    let ax = if dx < 0 { -dx } else { dx };
    let ay = if dy < 0 { -dy } else { dy };
    if ax >= ay {
        if dx >= 0 {
            Direction::Right
        } else {
            Direction::Left
        }
    } else if dy >= 0 {
        Direction::Down
    } else {
        Direction::Up
    }
}

impl Direction {
    /// Pick the direction toward offset `(dx, dy)` (screen coordinates: +y is down). The
    /// dominant axis wins; ties favor horizontal.
    pub fn toward(dx: i32, dy: i32) -> (d: Direction)
        ensures
            d == toward_spec(dx as int, dy as int),
    {
        toward_wide(dx as i64, dy as i64)
    }

    /// The `MOVING*` state name for travel in this (screen) direction. Horizontal is
    /// mirrored: the animations are authored from the character's own perspective, so
    /// travel toward the right of the screen plays `MOVINGLEFT` and vice versa.
    pub fn move_state(self) -> (s: &'static str)
        ensures
            s@ == match self {
                Direction::Up => "MOVINGUP"@,
                Direction::Down => "MOVINGDOWN"@,
                Direction::Left => "MOVINGRIGHT"@,
                Direction::Right => "MOVINGLEFT"@,
            },
    {
        match self {
            Direction::Up => "MOVINGUP",
            Direction::Down => "MOVINGDOWN",
            Direction::Left => "MOVINGRIGHT",
            Direction::Right => "MOVINGLEFT",
        }
    }

    /// The `GESTURING*` state name for this direction (not mirrored: pointing is
    /// described from the viewer's side).
    pub fn gesture_state(self) -> (s: &'static str)
        ensures
            s@ == match self {
                Direction::Up => "GESTURINGUP"@,
                Direction::Down => "GESTURINGDOWN"@,
                Direction::Left => "GESTURINGLEFT"@,
                Direction::Right => "GESTURINGRIGHT"@,
            },
    {
        match self {
            Direction::Up => "GESTURINGUP",
            Direction::Down => "GESTURINGDOWN",
            Direction::Left => "GESTURINGLEFT",
            Direction::Right => "GESTURINGRIGHT",
        }
    }
}

/// The squared distance between two points.
pub open spec fn dist2(a: (i32, i32), b: (i32, i32)) -> int {
    (b.0 - a.0) * (b.0 - a.0) + (b.1 - a.1) * (b.1 - a.1)
}

/// Whether `n` is the nearest whole number of milliseconds to the travel time
/// `1000 * sqrt(d2) / pps`, halves rounded up: `n - 1/2 <= 1000 * sqrt(d2) / pps < n + 1/2`,
/// squared to stay in the integers.
pub open spec fn nearest_ms(d2: int, pps: int, n: int) -> bool {
    &&& n >= 0
    &&& (2 * n - 1 <= 0 || (pps * (2 * n - 1)) * (pps * (2 * n - 1)) <= 4_000_000 * d2)
    &&& 4_000_000 * d2 < (pps * (2 * n + 1)) * (pps * (2 * n + 1))
}

/// `num / den` rounded to the nearest integer, halves away from zero (`den > 0`).
pub open spec fn round_div(num: int, den: int) -> int {
    if num >= 0 {
        (2 * num + den) / (2 * den)
    } else {
        -((2 * (-num) + den) / (2 * den))
    }
}

/// One coordinate of a move `elapsed` milliseconds into `duration`.
pub open spec fn lerp_round(a: i32, b: i32, elapsed: int, duration: int) -> int {
    round_div(a * duration + (b - a) * elapsed, duration)
}

/// The largest `r` with `r * r <= a`.
fn isqrt(a: u128) -> (r: u128)
    requires
        a < 0x100_0000_0000_0000_0000_0000u128,
    ensures
        r * r <= a < (r + 1) * (r + 1),
        r < 0x1000_0000_0000,
{
    let mut lo: u128 = 0;
    let mut hi: u128 = 0x1000_0000_0000;
    assert(hi * hi == 0x100_0000_0000_0000_0000_0000u128) by (nonlinear_arith)
        requires
            hi == 0x1000_0000_0000u128,
    ;
    while hi - lo > 1
        invariant
            lo < hi <= 0x1000_0000_0000,
            lo * lo <= a < hi * hi,
        decreases hi - lo,
    {
        let mid = lo + (hi - lo) / 2;
        assert(mid * mid <= 0x100_0000_0000_0000_0000_0000u128) by (nonlinear_arith)
            requires
                mid < 0x1000_0000_0000u128,
        ;
        if mid * mid <= a {
            lo = mid;
        } else {
            hi = mid;
        }
    }
    assert(hi == lo + 1);
    lo
}

proof fn lemma_nearest(a: int, r: int, pps: int, q: int, n: int)
    requires
        pps >= 1,
        r >= 0,
        r * r <= a < (r + 1) * (r + 1),
        q == r / pps,
        n == (q + 1) / 2,
    ensures
        (2 * n - 1 <= 0 || (pps * (2 * n - 1)) * (pps * (2 * n - 1)) <= a),
        a < (pps * (2 * n + 1)) * (pps * (2 * n + 1)),
        n >= 0,
{
    assert(pps * q <= r < pps * (q + 1)) by (nonlinear_arith)
        requires
            pps >= 1,
            r >= 0,
            q == r / pps,
    ;
    assert(2 * n - 1 <= q && q + 1 <= 2 * n + 1);
    if 2 * n - 1 > 0 {
        assert((pps * (2 * n - 1)) * (pps * (2 * n - 1)) <= r * r) by (nonlinear_arith)
            requires
                pps >= 1,
                2 * n - 1 > 0,
                2 * n - 1 <= q,
                pps * q <= r,
        ;
    }
    assert((r + 1) * (r + 1) <= (pps * (2 * n + 1)) * (pps * (2 * n + 1))) by (nonlinear_arith)
        requires
            pps >= 1,
            r >= 0,
            q + 1 <= 2 * n + 1,
            r < pps * (q + 1),
    ;
}

/// The travel time in milliseconds between `start` and `dest` at `pps` pixels per
/// second, rounded to the nearest millisecond and capped at `u32::MAX`; 0 at zero speed.
fn travel_ms(start: (i32, i32), dest: (i32, i32), pps: u32) -> (ms: u32)
    ensures
        pps == 0 ==> ms == 0,
        pps > 0 ==> (exists|n: int|
            nearest_ms(dist2(start, dest), pps as int, n) && ms == (if n > u32::MAX {
                u32::MAX as int
            } else {
                n
            })),
{
    if pps == 0 {
        return 0;
    }
    let dx = dest.0 as i64 - start.0 as i64;
    let dy = dest.1 as i64 - start.1 as i64;
    let ux = (if dx < 0 { -dx } else { dx }) as u128;
    let uy = (if dy < 0 { -dy } else { dy }) as u128;
    assert(ux * ux <= 0x1_0000_0000_0000_0000u128 && uy * uy <= 0x1_0000_0000_0000_0000u128)
        by (nonlinear_arith)
        requires
            ux <= 0x1_0000_0000u128,
            uy <= 0x1_0000_0000u128,
    ;
    let d2 = ux * ux + uy * uy;
    assert(ux * ux == dx * dx) by (nonlinear_arith)
        requires
            ux == (if dx < 0 { -(dx as int) } else { dx as int }),
    ;
    assert(uy * uy == dy * dy) by (nonlinear_arith)
        requires
            uy == (if dy < 0 { -(dy as int) } else { dy as int }),
    ;
    assert(d2 == dist2(start, dest));
    let a = 4_000_000u128 * d2;
    let r = isqrt(a);
    let q = r / pps as u128;
    assert(q <= r) by (nonlinear_arith)
        requires
            q == (r as int) / (pps as int),
            pps >= 1,
            r >= 0,
    ;
    let n = (q + 1) / 2;
    proof {
        lemma_nearest(a as int, r as int, pps as int, q as int, n as int);
        assert(nearest_ms(dist2(start, dest), pps as int, n as int));
    }
    if n > u32::MAX as u128 {
        u32::MAX
    } else {
        n as u32
    }
}

/// A linear move from a start to a destination over a duration derived from distance.
#[derive(Clone, Copy, Debug)]
pub struct MoveTo {
    start: (i32, i32),
    dest: (i32, i32),
    duration_ms: u32,
    elapsed_ms: u32,
}

/// A move as plain values.
pub struct MoveView {
    pub start: (i32, i32),
    pub dest: (i32, i32),
    pub duration_ms: u32,
    pub elapsed_ms: u32,
}

impl View for MoveTo {
    type V = MoveView;

    closed spec fn view(&self) -> MoveView {
        MoveView {
            start: self.start,
            dest: self.dest,
            duration_ms: self.duration_ms,
            elapsed_ms: self.elapsed_ms,
        }
    }
}

/// Where a move stands `m.elapsed_ms` into its trip: the destination once the duration
/// is zero, otherwise the linear interpolation rounded to the nearest pixel.
pub open spec fn move_position(m: MoveView) -> (int, int) {
    if m.duration_ms == 0 {
        (m.dest.0 as int, m.dest.1 as int)
    } else {
        (
            lerp_round(m.start.0, m.dest.0, m.elapsed_ms as int, m.duration_ms as int),
            lerp_round(m.start.1, m.dest.1, m.elapsed_ms as int, m.duration_ms as int),
        )
    }
}

/// One rounded interpolated coordinate, which lies between the endpoints.
fn lerp_coord(a: i32, b: i32, elapsed: u32, duration: u32) -> (c: i32)
    requires
        duration > 0,
        elapsed <= duration,
    ensures
        c == lerp_round(a, b, elapsed as int, duration as int),
{
    let d = duration as i128;
    assert(-0x1_0000_0000_0000_0000 <= a as i128 * d <= 0x1_0000_0000_0000_0000) by (nonlinear_arith)
        requires
            -0x8000_0000 <= a < 0x8000_0000,
            0 <= d < 0x1_0000_0000,
    ;
    assert(-0x2_0000_0000_0000_0000 <= (b as i128 - a as i128) * elapsed as i128
        <= 0x2_0000_0000_0000_0000) by (nonlinear_arith)
        requires
            -0x1_0000_0000 <= b - a <= 0x1_0000_0000,
            0 <= elapsed < 0x1_0000_0000,
    ;
    let num = a as i128 * d + (b as i128 - a as i128) * elapsed as i128;
    let den2 = 2 * d;
    proof {
        assert(a as int * d + (b - a) * elapsed == a as int * (d - elapsed) + b as int * elapsed) by (nonlinear_arith);
        let lo = if a <= b { a as int } else { b as int };
        let hi = if a <= b { b as int } else { a as int };
        assert(lo * d <= num <= hi * d) by (nonlinear_arith)
            requires
                num == a as int * (d - elapsed) + b as int * elapsed,
                0 <= elapsed <= d,
                lo <= a <= hi,
                lo <= b <= hi,
        ;
    }
    let v: i128 = if num >= 0 {
        (2 * num + d) / den2
    } else {
        -((2 * (-num) + d) / den2)
    };
    proof {
        let lo = if a <= b { a as int } else { b as int };
        let hi = if a <= b { b as int } else { a as int };
        if num >= 0 {
            assert(v <= hi + 1) by (nonlinear_arith)
                requires
                    num <= hi * d,
                    d > 0,
                    v == (2 * num + d) / (2 * d),
            ;
            assert(v >= 0) by (nonlinear_arith)
                requires
                    num >= 0,
                    d > 0,
                    v == (2 * num + d) / (2 * d),
            ;
            assert(v * (2 * d) <= 2 * num + d) by (nonlinear_arith)
                requires
                    d > 0,
                    v == (2 * num + d) / (2 * d),
            ;
            assert(v <= hi) by (nonlinear_arith)
                requires
                    v * (2 * d) <= 2 * num + d,
                    num <= hi * d,
                    d > 0,
            ;
        } else {
            assert(v >= lo) by (nonlinear_arith)
                requires
                    num < 0,
                    lo * d <= num,
                    d > 0,
                    v == -((2 * (-num) + d) / (2 * d)),
            ;
        }
    }
    v as i32
}

impl MoveTo {
    /// Create a move from `start` to `dest` at `pixels_per_sec`; a zero speed means a
    /// teleport (duration 0).
    pub fn new(start: (i32, i32), dest: (i32, i32), pixels_per_sec: u32) -> (m: MoveTo)
        ensures
            m@.start == start,
            m@.dest == dest,
            m@.elapsed_ms == 0,
            pixels_per_sec == 0 ==> m@.duration_ms == 0,
            pixels_per_sec > 0 ==> (exists|n: int|
                nearest_ms(dist2(start, dest), pixels_per_sec as int, n) && m@.duration_ms == (
                if n > u32::MAX {
                    u32::MAX as int
                } else {
                    n
                })),
    {
        let duration_ms = travel_ms(start, dest, pixels_per_sec);
        MoveTo { start, dest, duration_ms, elapsed_ms: 0 }
    }

    /// Direction of travel, for choosing the `MOVING*` state.
    pub fn direction(&self) -> (d: Direction)
        ensures
            d == toward_spec(self@.dest.0 - self@.start.0, self@.dest.1 - self@.start.1),
    {
        toward_wide(
            self.dest.0 as i64 - self.start.0 as i64,
            self.dest.1 as i64 - self.start.1 as i64,
        )
    }

    /// The travel duration (ms).
    pub fn duration_ms(&self) -> (d: u32)
        ensures
            d == self@.duration_ms,
    {
        self.duration_ms
    }

    /// Override the travel duration (ms), keeping start, destination and elapsed time
    /// (clamped to the new duration).
    pub fn retime(&mut self, duration_ms: u32)
        ensures
            final(self)@ == (MoveView {
                duration_ms,
                elapsed_ms: if old(self)@.elapsed_ms < duration_ms {
                    old(self)@.elapsed_ms
                } else {
                    duration_ms
                },
                ..old(self)@
            }),
    {
        self.duration_ms = duration_ms;
        if self.elapsed_ms > duration_ms {
            self.elapsed_ms = duration_ms;
        }
    }

    /// Advance the move clock, stopping at the duration.
    pub fn advance(&mut self, dt_ms: u32)
        ensures
            final(self)@ == (MoveView {
                elapsed_ms: if old(self)@.elapsed_ms + dt_ms < old(self)@.duration_ms {
                    (old(self)@.elapsed_ms + dt_ms) as u32
                } else {
                    old(self)@.duration_ms
                },
                ..old(self)@
            }),
    {
        let e = self.elapsed_ms.saturating_add(dt_ms);
        self.elapsed_ms = if e < self.duration_ms { e } else { self.duration_ms };
    }

    /// The destination.
    pub fn dest(&self) -> (d: (i32, i32))
        ensures
            d == self@.dest,
    {
        self.dest
    }

    /// True once the destination is reached.
    pub fn is_done(&self) -> (r: bool)
        ensures
            r == (self@.elapsed_ms >= self@.duration_ms),
    {
        self.elapsed_ms >= self.duration_ms
    }

    /// The interpolated position at the current elapsed time.
    pub fn position(&self) -> (p: (i32, i32))
        requires
            self@.elapsed_ms <= self@.duration_ms,
        ensures
            (p.0 as int, p.1 as int) == move_position(self@),
    {
        if self.duration_ms == 0 {
            return self.dest;
        }
        (
            lerp_coord(self.start.0, self.dest.0, self.elapsed_ms, self.duration_ms),
            lerp_coord(self.start.1, self.dest.1, self.elapsed_ms, self.duration_ms),
        )
    }
}

proof fn lemma_round_exact(a: int, d: int)
    requires
        d > 0,
    ensures
        round_div(a * d, d) == a,
{
    if a >= 0 {
        assert(a * d >= 0) by (nonlinear_arith)
            requires
                a >= 0,
                d > 0,
        ;
        assert((2 * (a * d) + d) / (2 * d) == a) by (nonlinear_arith)
            requires
                d > 0,
                a >= 0,
        ;
    } else {
        assert(a * d < 0) by (nonlinear_arith)
            requires
                a < 0,
                d > 0,
        ;
        assert((2 * (-(a * d)) + d) / (2 * d) == -a) by (nonlinear_arith)
            requires
                d > 0,
                a < 0,
        ;
    }
}

/// A move starts at its start point and, once its time is up, stands at its destination.
pub proof fn lemma_move_endpoints(m: MoveView)
    requires
        m.duration_ms > 0,
    ensures
        m.elapsed_ms == 0 ==> move_position(m) == (m.start.0 as int, m.start.1 as int),
        m.elapsed_ms == m.duration_ms ==> move_position(m) == (m.dest.0 as int, m.dest.1 as int),
{
    let d = m.duration_ms as int;
    lemma_round_exact(m.start.0 as int, d);
    lemma_round_exact(m.start.1 as int, d);
    lemma_round_exact(m.dest.0 as int, d);
    lemma_round_exact(m.dest.1 as int, d);
    if m.elapsed_ms == m.duration_ms {
        assert(m.start.0 * d + (m.dest.0 - m.start.0) * d == m.dest.0 * d) by (nonlinear_arith);
        assert(m.start.1 * d + (m.dest.1 - m.start.1) * d == m.dest.1 * d) by (nonlinear_arith);
    }
}

} // verus!
