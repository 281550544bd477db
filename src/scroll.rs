//! Touch input and kinetic scrolling.
//!
//! Offsets and velocities are in physical pixels, velocities per tick; times
//! are in microseconds. Friction is the share of velocity that a tick keeps,
//! in thousandths.

use vstd::prelude::*;

use crate::geometry::Point;

verus! {

/// Input settings.
#[derive(Clone, Copy, Debug, PartialEq, Eq)]
pub struct Input {
    /// Square of the largest distance, in physical pixels, that a touch may
    /// travel and still be a tap.
    pub max_tap_distance: u64,
    /// Milliseconds per velocity tick.
    pub velocity_interval: u16,
    /// Thousandths of the velocity that each tick keeps.
    pub velocity_friction: u16,
}

impl Input {
    pub open spec fn wf(&self) -> bool {
        self.velocity_interval >= 1 && self.velocity_friction < 1000
    }

    /// 400 square pixels, 30 ms ticks, 85% kept per tick.
    pub fn new_default() -> (r: Self)
        ensures
            r.wf(),
            r.max_tap_distance == 400,
            r.velocity_interval == 30,
            r.velocity_friction == 850,
    {
        Input { max_tap_distance: 400, velocity_interval: 30, velocity_friction: 850 }
    }
}

/// Phase of the scroll motion.
#[derive(Clone, Copy, Debug, PartialEq, Eq, Structural)]
pub enum ScrollState {
    /// Nothing moves.
    Idle,
    /// A finger is down; the offset follows it.
    Dragging,
    /// Released with velocity, which decays tick by tick.
    Coasting,
}

/// Largest velocity magnitude, in pixels per tick.
pub open spec fn max_velocity() -> int {
    0x2_0000_0000
}

/// One tick of friction, rounding toward zero.
pub open spec fn decay_step(v: int, friction: int) -> int {
    if v >= 0 {
        v * friction / 1000
    } else {
        -((-v) * friction / 1000)
    }
}

/// Velocity after `n` ticks.
pub open spec fn decayed(v: int, friction: int, n: nat) -> int
    decreases n,
{
    if n == 0 {
        v
    } else {
        decay_step(decayed(v, friction, (n - 1) as nat), friction)
    }
}

/// Distance covered in `n` ticks: the velocity at the start of each.
pub open spec fn coast_sum(v: int, friction: int, n: nat) -> int
    decreases n,
{
    if n == 0 {
        0
    } else {
        coast_sum(v, friction, (n - 1) as nat) + decayed(v, friction, (n - 1) as nat)
    }
}

pub open spec fn abs(v: int) -> int {
    if v >= 0 {
        v
    } else {
        -v
    }
}

/// `v` within `[lo, hi]`.
pub open spec fn clamp(v: int, lo: int, hi: int) -> int {
    if v < lo {
        lo
    } else if v > hi {
        hi
    } else {
        v
    }
}

proof fn lemma_decay_shrinks(v: int, friction: int)
    requires
        0 <= friction < 1000,
    ensures
        abs(decay_step(v, friction)) <= abs(v),
        v == 0 ==> decay_step(v, friction) == 0,
        (decay_step(v, friction) >= 0) == (v >= 0) || decay_step(v, friction) == 0,
{
    if v >= 0 {
        assert(v * friction / 1000 <= v) by (nonlinear_arith)
            requires
                v >= 0,
                0 <= friction < 1000,
        ;
        assert(v * friction / 1000 >= 0) by (nonlinear_arith)
            requires
                v >= 0,
                0 <= friction,
        ;
    } else {
        assert((-v) * friction / 1000 <= -v) by (nonlinear_arith)
            requires
                -v >= 0,
                0 <= friction < 1000,
        ;
        assert((-v) * friction / 1000 >= 0) by (nonlinear_arith)
            requires
                -v >= 0,
                0 <= friction,
        ;
    }
}

proof fn lemma_decayed_zero(v: int, friction: int, k: nat, n: nat)
    requires
        0 <= friction < 1000,
        decayed(v, friction, k) == 0,
        k <= n,
    ensures
        decayed(v, friction, n) == 0,
        coast_sum(v, friction, n) == coast_sum(v, friction, k),
    decreases n - k,
{
    if n > k {
        lemma_decayed_zero(v, friction, k, (n - 1) as nat);
        lemma_decay_shrinks(0, friction);
    }
}

/// Whole ticks from `last` to `now`.
pub open spec fn elapsed_ticks(input: Input, last: u64, now: u64) -> int {
    if now >= last {
        (now - last) / (input.velocity_interval as int * 1000)
    } else {
        0
    }
}

/// Velocity state and offset after a redraw at `now`. Only a coasting
/// motion moves: without velocity it stops; the first redraw after a release
/// starts the clock; later ones move the offset by the velocity of each whole
/// tick since the last, decaying it, and stop once it is at most one pixel
/// per tick.
pub open spec fn apply_spec(v: ScrollVelocity, input: Input, now: u64, offset: i64) -> (ScrollVelocity, i64) {
    if v.state != ScrollState::Coasting {
        (v, offset)
    } else if v.velocity == 0 {
        (ScrollVelocity { state: ScrollState::Idle, velocity: 0, last_tick: None }, offset)
    } else if v.last_tick.is_none() {
        (ScrollVelocity { state: v.state, velocity: v.velocity, last_tick: Some(now) }, offset)
    } else {
        let last = v.last_tick.unwrap();
        let ticks = elapsed_ticks(input, last, now);
        let f = input.velocity_friction as int;
        let nv = decayed(v.velocity as int, f, ticks as nat);
        let moved = clamp(offset as int + coast_sum(v.velocity as int, f, ticks as nat), i64::MIN as int, i64::MAX as int) as i64;
        if ticks == 0 {
            (v, offset)
        } else if abs(nv) > 1 {
            (
                ScrollVelocity {
                    state: ScrollState::Coasting,
                    velocity: nv as i64,
                    last_tick: Some((last + ticks * (input.velocity_interval as int * 1000)) as u64),
                },
                moved,
            )
        } else {
            (ScrollVelocity { state: ScrollState::Idle, velocity: 0, last_tick: None }, moved)
        }
    }
}

proof fn lemma_decay_strict(v: int, friction: int)
    requires
        0 <= friction < 1000,
        v != 0,
    ensures
        abs(decay_step(v, friction)) < abs(v),
{
    if v > 0 {
        assert(v * friction / 1000 < v) by (nonlinear_arith)
            requires
                v > 0,
                0 <= friction < 1000,
        ;
        assert(v * friction / 1000 >= 0) by (nonlinear_arith)
            requires
                v > 0,
                0 <= friction,
        ;
    } else {
        assert((-v) * friction / 1000 < -v) by (nonlinear_arith)
            requires
                -v > 0,
                0 <= friction < 1000,
        ;
        assert((-v) * friction / 1000 >= 0) by (nonlinear_arith)
            requires
                -v > 0,
                0 <= friction,
        ;
    }
}

proof fn lemma_decayed_strict(v: int, friction: int, n: nat)
    requires
        0 <= friction < 1000,
        v != 0,
        n >= 1,
    ensures
        abs(decayed(v, friction, n)) < abs(v),
    decreases n,
{
    if n == 1 {
        assert(decayed(v, friction, 0) == v);
        assert(decayed(v, friction, 1) == decay_step(v, friction));
        lemma_decay_strict(v, friction);
    } else {
        lemma_decayed_strict(v, friction, (n - 1) as nat);
        lemma_decay_shrinks(decayed(v, friction, (n - 1) as nat), friction);
    }
}

/// Coasting ends: a redraw a whole tick or more after the last one either
/// stops the motion or leaves it strictly slower, so the velocity reaches
/// zero after finitely many such redraws, and a motion at rest stays put.
pub proof fn lemma_coasting_ends(v: ScrollVelocity, input: Input, now: u64, offset: i64)
    requires
        v.wf(),
        input.wf(),
        v.state == ScrollState::Coasting,
        v.last_tick.is_some(),
        elapsed_ticks(input, v.last_tick.unwrap(), now) >= 1,
    ensures
        ({
            let (v2, o2) = apply_spec(v, input, now, offset);
            (v2.velocity == 0 && v2.state == ScrollState::Idle) || (v2.state == ScrollState::Coasting && abs(
                v2.velocity as int,
            ) < abs(v.velocity as int))
        }),
        forall|w: ScrollVelocity, t: u64, o: i64|
            w.state == ScrollState::Idle ==> #[trigger] apply_spec(w, input, t, o) == (w, o),
{
    if v.velocity != 0 {
        let ticks = elapsed_ticks(input, v.last_tick.unwrap(), now);
        let f = input.velocity_friction as int;
        lemma_decayed_strict(v.velocity as int, f, ticks as nat);
    }
}

/// Kinetic scroll velocity.
#[derive(Clone, Copy, Debug)]
pub struct ScrollVelocity {
    pub state: ScrollState,
    /// Pixels per tick.
    pub velocity: i64,
    /// When velocity was last applied, while coasting.
    pub last_tick: Option<u64>,
}

impl ScrollVelocity {
    pub open spec fn wf(&self) -> bool {
        abs(self.velocity as int) <= max_velocity()
    }

    /// At rest.
    pub fn new() -> (r: Self)
        ensures
            r.wf(),
            r.state == ScrollState::Idle,
            r.velocity == 0,
            r.last_tick.is_none(),
    {
        ScrollVelocity { state: ScrollState::Idle, velocity: 0, last_tick: None }
    }

    /// Whether there is any velocity.
    pub fn is_moving(&self) -> (r: bool)
        ensures
            r == (self.velocity != 0),
    {
        self.velocity != 0
    }

    /// Record a velocity, to be applied from the next tick on.
    pub fn set(&mut self, velocity: i64)
        requires
            abs(velocity as int) <= max_velocity(),
        ensures
            final(self).wf(),
            final(self).velocity == velocity,
            final(self).last_tick.is_none(),
            final(self).state == old(self).state,
    {
        self.velocity = velocity;
        self.last_tick = None;
    }

    /// Advance a coasting motion to time `now`: every whole tick since the
    /// last one moves `offset` by the velocity and then decays it; the motion
    /// stops once the velocity is at most one pixel per tick. The first call
    /// after a release only starts the clock.
    pub fn apply(&mut self, input: &Input, now: u64, offset: &mut i64)
        requires
            old(self).wf(),
            input.wf(),
        ensures
            final(self).wf(),
            (*final(self), *final(offset)) == apply_spec(*old(self), *input, now, *old(offset)),
    {
        if self.state != ScrollState::Coasting {
            return;
        }
        if self.velocity == 0 {
            self.state = ScrollState::Idle;
            self.last_tick = None;
            return;
        }
        let last = match self.last_tick {
            Some(last) => last,
            None => {
                self.last_tick = Some(now);
                return;
            },
        };
        let us: u64 = input.velocity_interval as u64 * 1000;
        let ticks: u64 = if now >= last {
            (now - last) / us
        } else {
            0
        };
        if ticks == 0 {
            return;
        }
        let f = input.velocity_friction as i64;
        let ghost v0 = self.velocity as int;
        let mut v: i64 = self.velocity;
        let mut sum: i128 = 0;
        let mut k: u64 = 0;
        while k < ticks && v != 0
            invariant
                k <= ticks,
                0 <= f < 1000,
                v as int == decayed(v0, f as int, k as nat),
                sum as int == coast_sum(v0, f as int, k as nat),
                abs(v as int) <= max_velocity(),
                abs(sum as int) <= k * max_velocity(),
            decreases ticks - k,
        {
            let ghost s0 = sum as int;
            let ghost vv = v as int;
            assert(abs(s0) + abs(vv) <= 0x1_0000_0000_0000_0000 * 0x2_0000_0000 + 0x2_0000_0000) by (nonlinear_arith)
                requires
                    abs(s0) <= k * max_velocity(),
                    abs(vv) <= max_velocity(),
                    k <= 0xFFFF_FFFF_FFFF_FFFF,
            ;
            sum = sum + v as i128;
            proof {
                lemma_decay_shrinks(v as int, f as int);
            }
            let next: i64 = if v >= 0 {
                assert(v as int * f as int <= max_velocity() * 1000) by (nonlinear_arith)
                    requires
                        0 <= v <= max_velocity(),
                        0 <= f < 1000,
                ;
                v * f / 1000
            } else {
                assert((-(v as int)) * f as int <= max_velocity() * 1000) by (nonlinear_arith)
                    requires
                        0 <= -(v as int) <= max_velocity(),
                        0 <= f < 1000,
                ;
                -((-v) * f / 1000)
            };
            v = next;
            k = k + 1;
            assert(abs(s0 + vv) <= k * max_velocity()) by (nonlinear_arith)
                requires
                    abs(s0) <= (k - 1) * max_velocity(),
                    abs(vv) <= max_velocity(),
            ;
        }
        proof {
            if k < ticks {
                lemma_decayed_zero(v0, f as int, k as nat, ticks as nat);
            }
        }
        let moved: i128 = *offset as i128 + sum;
        *offset = if moved < i64::MIN as i128 {
            i64::MIN
        } else if moved > i64::MAX as i128 {
            i64::MAX
        } else {
            moved as i64
        };
        assert(ticks * us <= now - last) by (nonlinear_arith)
            requires
                ticks as int == (now as int - last as int) / us as int,
                now >= last,
                us >= 1000,
        ;
        if v > 1 || v < -1 {
            self.velocity = v;
            self.last_tick = Some(last + ticks * us);
        } else {
            self.velocity = 0;
            self.state = ScrollState::Idle;
            self.last_tick = None;
        }
    }
}


/// What the current touch sequence is doing.
#[derive(Clone, Copy, Debug, PartialEq, Eq, Structural)]
pub enum TouchAction {
    /// No entry under the touch, or no touch.
    Idle,
    /// Pressed on the entry at this index, not moved beyond the tap distance.
    Tap(usize),
    /// Moved beyond the tap distance: scrolling.
    Drag,
}

/// Scroll offset and the touch sequence that moves it. The offset is at most
/// zero: content moves up as it grows negative.
#[derive(Clone, Copy, Debug)]
pub struct Scroller {
    pub offset: i64,
    pub velocity: ScrollVelocity,
    pub action: TouchAction,
    pub start: Point<i32>,
    pub point: Point<i32>,
}

/// Largest scroll offset for content of `total_height` in a viewport of
/// `viewport_height`: the part of the content that does not fit.
pub fn max_scroll_offset(total_height: u64, viewport_height: u32) -> (r: i64)
    ensures
        r as int == clamp(total_height as int - viewport_height as int, 0, i64::MAX as int),
{
    if total_height <= viewport_height as u64 {
        0
    } else if total_height - viewport_height as u64 > i64::MAX as u64 {
        i64::MAX
    } else {
        (total_height - viewport_height as u64) as i64
    }
}

impl Scroller {
    pub open spec fn wf(&self) -> bool {
        self.velocity.wf()
    }

    /// At the top, at rest.
    pub fn new() -> (r: Self)
        ensures
            r.wf(),
            r.offset == 0,
            r.velocity.state == ScrollState::Idle,
            r.velocity.velocity == 0,
            r.action == TouchAction::Idle,
    {
        Scroller {
            offset: 0,
            velocity: ScrollVelocity::new(),
            action: TouchAction::Idle,
            start: Point::new(0, 0),
            point: Point::new(0, 0),
        }
    }

    /// Keep the offset within `[-max_offset, 0]`. Hitting a limit cancels
    /// the velocity; a coasting motion then stops.
    pub fn clamp_offset(&mut self, max_offset: i64)
        requires
            old(self).wf(),
            max_offset >= 0,
        ensures
            final(self).wf(),
            final(self).offset as int == clamp(old(self).offset as int, -max_offset, 0),
            final(self).action == old(self).action,
            final(self).start == old(self).start,
            final(self).point == old(self).point,
            final(self).offset == old(self).offset ==> final(self).velocity == old(self).velocity,
            final(self).offset != old(self).offset ==> final(self).velocity.velocity == 0
                && final(self).velocity.last_tick.is_none()
                && final(self).velocity.state == if old(self).velocity.state == ScrollState::Dragging {
                    ScrollState::Dragging
                } else {
                    ScrollState::Idle
                },
    {
        let old_offset = self.offset;
        if self.offset < -max_offset {
            self.offset = -max_offset;
        } else if self.offset > 0 {
            self.offset = 0;
        }
        if self.offset != old_offset {
            self.velocity.set(0);
            if self.velocity.state != ScrollState::Dragging {
                self.velocity.state = ScrollState::Idle;
            }
        }
    }

    /// A finger goes down at `point`, over the entry `hit` if any: any
    /// coasting stops and a drag may start.
    pub fn touch_down(&mut self, point: Point<i32>, hit: Option<usize>)
        requires
            old(self).wf(),
        ensures
            final(self).wf(),
            final(self).offset == old(self).offset,
            final(self).velocity.state == ScrollState::Dragging,
            final(self).velocity.velocity == 0,
            final(self).velocity.last_tick.is_none(),
            final(self).start == point,
            final(self).point == point,
            final(self).action == match hit {
                Some(i) => TouchAction::Tap(i),
                None => TouchAction::Idle,
            },
    {
        self.velocity.set(0);
        self.velocity.state = ScrollState::Dragging;
        self.start = point;
        self.point = point;
        self.action = match hit {
            Some(i) => TouchAction::Tap(i),
            None => TouchAction::Idle,
        };
    }

    /// The finger moves to `point`. Within the tap distance of where it went
    /// down nothing scrolls; beyond it the sequence is a drag, the offset
    /// follows the vertical motion one to one (within `[-max_offset, 0]`)
    /// and that motion is kept as the velocity. Returns whether the offset
    /// changed.
    pub fn touch_motion(&mut self, point: Point<i32>, input: &Input, max_offset: i64) -> (r: bool)
        requires
            old(self).wf(),
            max_offset >= 0,
        ensures
            final(self).wf(),
            final(self).point == point,
            final(self).start == old(self).start,
            r == (final(self).offset != old(self).offset),
            ({
                let dx = point.x as int - old(self).start.x as int;
                let dy = point.y as int - old(self).start.y as int;
                let delta = point.y as int - old(self).point.y as int;
                if dx * dx + dy * dy <= input.max_tap_distance as int {
                    final(self).offset == old(self).offset && final(self).velocity == old(self).velocity
                        && final(self).action == old(self).action
                } else {
                    &&& final(self).action == TouchAction::Drag
                    &&& final(self).offset as int == clamp(old(self).offset as int + delta, -max_offset, 0)
                    &&& final(self).velocity.state == old(self).velocity.state
                    &&& final(self).velocity.last_tick.is_none()
                    &&& final(self).velocity.velocity as int == if final(self).offset as int == old(self).offset as int + delta {
                        delta
                    } else {
                        0
                    }
                }
            }),
    {
        let old_point = self.point;
        self.point = point;
        let dx = point.x as i128 - self.start.x as i128;
        let dy = point.y as i128 - self.start.y as i128;
        assert(0 <= dx * dx <= 0x4_0000_0000 * 0x4_0000_0000) by (nonlinear_arith)
            requires
                -0x2_0000_0000 <= dx <= 0x2_0000_0000,
        ;
        assert(0 <= dy * dy <= 0x4_0000_0000 * 0x4_0000_0000) by (nonlinear_arith)
            requires
                -0x2_0000_0000 <= dy <= 0x2_0000_0000,
        ;
        let dx2 = dx * dx;
        let dy2 = dy * dy;
        if dx2 + dy2 <= input.max_tap_distance as i128 {
            return false;
        }
        self.action = TouchAction::Drag;
        let delta = point.y as i64 - old_point.y as i64;
        self.velocity.set(delta);
        let old_offset = self.offset;
        let moved: i128 = self.offset as i128 + delta as i128;
        self.offset = if moved < -(max_offset as i128) {
            -max_offset
        } else if moved > 0 {
            0
        } else {
            moved as i64
        };
        if self.offset as i128 != moved {
            self.velocity.set(0);
        }
        self.offset != old_offset
    }

    /// The finger lifts. A tap hands back the index of the entry it was on;
    /// a drag lets the content coast with the velocity it had.
    pub fn touch_up(&mut self) -> (r: Option<usize>)
        requires
            old(self).wf(),
        ensures
            final(self).wf(),
            final(self).offset == old(self).offset,
            final(self).velocity.velocity == old(self).velocity.velocity,
            final(self).action == TouchAction::Idle,
            r == match old(self).action {
                TouchAction::Tap(i) => Some(i),
                _ => None,
            },
            final(self).velocity.state == if old(self).action == TouchAction::Drag {
                ScrollState::Coasting
            } else {
                ScrollState::Idle
            },
            old(self).action == TouchAction::Drag ==> final(self).velocity.last_tick.is_none(),
    {
        let r = match self.action {
            TouchAction::Tap(i) => Some(i),
            _ => None,
        };
        if self.action == TouchAction::Drag {
            self.velocity.state = ScrollState::Coasting;
            self.velocity.last_tick = None;
        } else {
            self.velocity.state = ScrollState::Idle;
        }
        self.action = TouchAction::Idle;
        r
    }

    /// A redraw at time `now`: apply coasting velocity, then keep the offset
    /// within `[-max_offset, 0]`. Returns whether the content still moves.
    pub fn tick(&mut self, input: &Input, now: u64, max_offset: i64) -> (r: bool)
        requires
            old(self).wf(),
            input.wf(),
            max_offset >= 0,
        ensures
            final(self).wf(),
            r == (final(self).velocity.velocity != 0),
            ({
                let (v1, o1) = apply_spec(old(self).velocity, *input, now, old(self).offset);
                &&& final(self).offset as int == clamp(o1 as int, -max_offset, 0)
                &&& final(self).offset == o1 ==> final(self).velocity == v1
                &&& final(self).offset != o1 ==> final(self).velocity.velocity == 0
                    && final(self).velocity.last_tick.is_none()
                    && final(self).velocity.state == if v1.state == ScrollState::Dragging {
                        ScrollState::Dragging
                    } else {
                        ScrollState::Idle
                    }
            }),
            final(self).action == old(self).action,
    {
        let mut offset = self.offset;
        self.velocity.apply(input, now, &mut offset);
        self.offset = offset;
        self.clamp_offset(max_offset);
        self.velocity.is_moving()
    }
}

} // verus!
