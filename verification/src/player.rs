//! The player controller: kinematic state, the hook state machine, and
//! the per-tick update.
//!
//! The whole tick is modelled by the spec function [`spec_update`]; the
//! executable [`Player::update`] is proved to return exactly that state,
//! so a trajectory is a pure function of the initial state and the input
//! sequence.

use vstd::prelude::*;
use vstd::arithmetic::div_mod::{lemma_div_of0, lemma_div_pos_is_pos, lemma_remainder_lower};
use crate::math::{
    abs_val, div_trunc, div_trunc_wide, int_sqrt, isqrt, lemma_isqrt_bounds, lemma_isqrt_le,
    lemma_isqrt_pos, lemma_mul_bound, lemma_sq_nonneg, lemma_tdiv_mag, tdiv, v_add, v_dot, v_len,
    v_sq, v_sub, Vec2, Vec2View, SCALE,
};

verus! {

/// Crosshair acceleration per tick while a direction is held (0.10 units).
pub const CH_ACCELERATION: i64 = 10;

/// Per-axis crosshair speed cap (2 units/tick).
pub const CH_MAX_SPEED: i64 = 200;

/// Downward pull added every tick (0.15 units/tick^2).
pub const FALL_ACC: i64 = 15;

/// Horizontal speed cap (8 units/tick).
pub const MAX_H_SPEED: i64 = 800;

/// Vertical speed cap (50 units/tick).
pub const MAX_V_SPEED: i64 = 5000;

/// Tether shortening per tick while the winch pulls (2 units/tick).
pub const HOOK_PULL_SPEED: i64 = 200;

/// Smallest tether length the winch reels down to (4 units).
pub const MIN_TETHER: i64 = 400;

/// Side of the actor's square body, in world units.
pub const PLAYER_SIZE: i64 = 10;

/// Half the body side, in fixed-point coordinates (`PLAYER_SIZE` times
/// `SCALE`, halved).
pub const HALF_SIZE: i64 = 500;

/// World extent: positions and crosshair offsets saturate at this
/// magnitude so that every intermediate product stays in range.
pub const COORD_LIMIT: i64 = 0x8000_0000;

/// Upper bound kept on a reeling tether length.
pub const TETHER_LIMIT: i64 = 0x10_0000_0000;

/// Initial crosshair offset, relative to the actor (30, -10 units).
pub const CROSSHAIR_START_X: i64 = 30 * SCALE;

/// Initial crosshair offset, relative to the actor (30, -10 units).
pub const CROSSHAIR_START_Y: i64 = -10 * SCALE;

/// The logical inputs held during one tick, already polled by the host.
#[derive(Clone, Copy, Debug, PartialEq, Eq, Structural)]
pub struct Input {
    /// Steer the crosshair left.
    pub left: bool,
    /// Steer the crosshair right.
    pub right: bool,
    /// Steer the crosshair up.
    pub up: bool,
    /// Steer the crosshair down.
    pub down: bool,
    /// Primary action: fire and hold the hook.
    pub fire: bool,
    /// Secondary action: release an attached hook.
    pub release: bool,
}

impl Input {
    /// An input record with nothing held.
    pub fn none() -> (i: Input)
        ensures
            i == (Input {
                left: false,
                right: false,
                up: false,
                down: false,
                fire: false,
                release: false,
            }),
    {
        Input { left: false, right: false, up: false, down: false, fire: false, release: false }
    }
}

/// The hook lifecycle: exactly one variant is active at a time.
#[derive(Clone, Copy, Debug, PartialEq, Eq, Structural)]
pub enum HookState {
    /// No hook deployed.
    Ready,
    /// The hook has latched onto `anchor` and the winch is reeling the
    /// allowed tether length in toward a small positive floor.
    Pulling { anchor: Vec2, remaining_distance: i64 },
    /// The tether length is frozen at the distance recorded when the
    /// winch action ended.
    Hooked { anchor: Vec2, max_distance: i64 },
}

/// Mathematical value of a [`HookState`].
pub ghost enum HookView {
    Ready,
    Pulling { anchor: Vec2View, remaining: int },
    Hooked { anchor: Vec2View, max: int },
}

impl View for HookState {
    type V = HookView;

    open spec fn view(&self) -> HookView {
        match self {
            HookState::Ready => HookView::Ready,
            HookState::Pulling { anchor, remaining_distance } => HookView::Pulling {
                anchor: anchor@,
                remaining: *remaining_distance as int,
            },
            HookState::Hooked { anchor, max_distance } => HookView::Hooked {
                anchor: anchor@,
                max: *max_distance as int,
            },
        }
    }
}

/// The actor: kinematic state plus the hook state machine.
#[derive(Clone, Copy, Debug, PartialEq, Eq, Structural)]
pub struct Player {
    /// Aim point, relative to the actor's position.
    pub crosshair_pos: Vec2,
    /// Crosshair velocity, units/tick.
    pub crosshair_vel: Vec2,
    /// Hook state machine.
    pub hook_state: HookState,
    /// World-space position of the actor's logical origin (its center).
    pub pos: Vec2,
    /// Linear velocity, units/tick.
    pub speed: Vec2,
    /// True when the jump input was last observed released.  Jump is a
    /// disabled feature: the latch is kept in the data model but never
    /// consulted by the active behavior.
    pub jump_was_released: bool,
    /// Held state of the fire input on the previous tick (edge detection).
    pub fire_was_held: bool,
    /// Held state of the release input on the previous tick (edge detection).
    pub release_was_held: bool,
}

/// Mathematical value of a [`Player`].
pub ghost struct PlayerView {
    pub crosshair_pos: Vec2View,
    pub crosshair_vel: Vec2View,
    pub hook_state: HookView,
    pub pos: Vec2View,
    pub speed: Vec2View,
    pub jump_was_released: bool,
    pub fire_was_held: bool,
    pub release_was_held: bool,
}

impl View for Player {
    type V = PlayerView;

    open spec fn view(&self) -> PlayerView {
        PlayerView {
            crosshair_pos: self.crosshair_pos@,
            crosshair_vel: self.crosshair_vel@,
            hook_state: self.hook_state@,
            pos: self.pos@,
            speed: self.speed@,
            jump_was_released: self.jump_was_released,
            fire_was_held: self.fire_was_held,
            release_was_held: self.release_was_held,
        }
    }
}

/// Clamp `v` to the symmetric range `[-m, m]`.
pub open spec fn clamp_mag_spec(v: int, m: int) -> int {
    if v < -m {
        -m
    } else if v > m {
        m
    } else {
        v
    }
}

/// One axis of crosshair steering: clamp against the held direction,
/// accelerate toward it, or stop dead when neither direction is held.
pub open spec fn steer_axis(v: int, neg_held: bool, pos_held: bool) -> int {
    if neg_held {
        (if v > 0 {
            0
        } else {
            v
        }) - CH_ACCELERATION
    } else if pos_held {
        (if v < 0 {
            0
        } else {
            v
        }) + CH_ACCELERATION
    } else {
        0
    }
}

/// Crosshair velocity after steering and the per-axis speed clamp.
pub open spec fn crosshair_vel_after(p: PlayerView, i: Input) -> Vec2View {
    Vec2View {
        x: clamp_mag_spec(steer_axis(p.crosshair_vel.x, i.left, i.right), CH_MAX_SPEED as int),
        y: clamp_mag_spec(steer_axis(p.crosshair_vel.y, i.up, i.down), CH_MAX_SPEED as int),
    }
}

/// Crosshair offset after this tick's integration (saturated at the
/// world extent).
pub open spec fn crosshair_pos_after(p: PlayerView, i: Input) -> Vec2View {
    let cv = crosshair_vel_after(p, i);
    Vec2View {
        x: clamp_mag_spec(p.crosshair_pos.x + cv.x, COORD_LIMIT as int),
        y: clamp_mag_spec(p.crosshair_pos.y + cv.y, COORD_LIMIT as int),
    }
}

/// One tick of winch reel-in, floored at the minimum tether length.
pub open spec fn reel_in(m: int) -> int {
    if m - HOOK_PULL_SPEED < MIN_TETHER {
        MIN_TETHER as int
    } else {
        m - HOOK_PULL_SPEED
    }
}

/// The tether constraint: when the actor sits further than `m` from
/// `anchor`, pull the position back onto the constraint circle, drop
/// any outward velocity component, and cancel any outward component of
/// the accumulated acceleration.  Inside the circle it is a no-op.
pub open spec fn constraint_after(
    pos: Vec2View,
    vel: Vec2View,
    acc: Vec2View,
    anchor: Vec2View,
    m: int,
) -> (Vec2View, Vec2View, Vec2View) {
    let d = v_sub(anchor, pos);
    let dd = v_sq(d);
    if dd > m * m {
        let dist = isqrt(dd);
        let npos = Vec2View { x: anchor.x - tdiv(d.x * m, dist), y: anchor.y - tdiv(d.y * m, dist) };
        let dv = v_dot(vel, d);
        let nvel = if dv < 0 {
            Vec2View { x: vel.x - tdiv(d.x * dv, dd), y: vel.y - tdiv(d.y * dv, dd) }
        } else {
            vel
        };
        let da = v_dot(acc, d);
        let nacc = if da < 0 {
            Vec2View { x: acc.x - tdiv(d.x * da, dd), y: acc.y - tdiv(d.y * da, dd) }
        } else {
            acc
        };
        (npos, nvel, nacc)
    } else {
        (pos, vel, acc)
    }
}

/// Hook transitions and constraint application for one tick, producing
/// the corrected position, velocity, acceleration, and next hook state.
pub open spec fn hook_phase(p: PlayerView, i: Input) -> (Vec2View, Vec2View, Vec2View, HookView) {
    let acc0 = Vec2View { x: 0, y: FALL_ACC as int };
    let fresh_fire = i.fire && !p.fire_was_held;
    let fresh_release = i.release && !p.release_was_held;
    match p.hook_state {
        HookView::Ready => {
            if fresh_fire {
                let cross = crosshair_pos_after(p, i);
                (
                    p.pos,
                    p.speed,
                    acc0,
                    HookView::Pulling {
                        anchor: v_add(p.pos, cross),
                        remaining: isqrt(v_sq(cross)),
                    },
                )
            } else {
                (p.pos, p.speed, acc0, HookView::Ready)
            }
        },
        HookView::Pulling { anchor, remaining } => {
            let m1 = reel_in(remaining);
            let c = constraint_after(p.pos, p.speed, acc0, anchor, m1);
            if !i.fire {
                (
                    c.0,
                    c.1,
                    c.2,
                    HookView::Hooked { anchor, max: isqrt(v_sq(v_sub(anchor, c.0))) },
                )
            } else {
                (c.0, c.1, c.2, HookView::Pulling { anchor, remaining: m1 })
            }
        },
        HookView::Hooked { anchor, max } => {
            let c = constraint_after(p.pos, p.speed, acc0, anchor, max);
            (
                c.0,
                c.1,
                c.2,
                if fresh_release {
                    HookView::Ready
                } else {
                    HookView::Hooked { anchor, max }
                },
            )
        },
    }
}

/// Position and velocity after the hook phase, the velocity clamps and
/// the position integration, but before ground collision.
pub open spec fn pre_ground_motion(p: PlayerView, i: Input) -> (Vec2View, Vec2View) {
    let h = hook_phase(p, i);
    let v2 = Vec2View {
        x: clamp_mag_spec(h.1.x + h.2.x, MAX_H_SPEED as int),
        y: clamp_mag_spec(h.1.y + h.2.y, MAX_V_SPEED as int),
    };
    let p2 = Vec2View {
        x: clamp_mag_spec(h.0.x + v2.x, COORD_LIMIT as int),
        y: clamp_mag_spec(h.0.y + v2.y, COORD_LIMIT as int),
    };
    (p2, v2)
}

/// The complete tick: crosshair steering and integration, gravity, hook
/// transitions and tether constraint, velocity clamps, position
/// integration, and ground collision.
pub open spec fn spec_update(p: PlayerView, i: Input) -> PlayerView {
    let cv = crosshair_vel_after(p, i);
    let cross = crosshair_pos_after(p, i);
    let h = hook_phase(p, i);
    let mo = pre_ground_motion(p, i);
    let p2 = mo.0;
    let v2 = mo.1;
    let grounded = p2.y + HALF_SIZE > 0;
    PlayerView {
        crosshair_pos: cross,
        crosshair_vel: cv,
        hook_state: h.3,
        pos: if grounded {
            Vec2View { x: p2.x, y: -(HALF_SIZE as int) }
        } else {
            p2
        },
        speed: if grounded {
            Vec2View { x: v2.x, y: 0 }
        } else {
            v2
        },
        jump_was_released: p.jump_was_released,
        fire_was_held: i.fire,
        release_was_held: i.release,
    }
}

/// The state a session starts from.
pub open spec fn initial_player() -> PlayerView {
    PlayerView {
        crosshair_pos: Vec2View { x: CROSSHAIR_START_X as int, y: CROSSHAIR_START_Y as int },
        crosshair_vel: Vec2View { x: 0, y: 0 },
        hook_state: HookView::Ready,
        pos: Vec2View { x: 0, y: 0 },
        speed: Vec2View { x: 0, y: 0 },
        jump_was_released: true,
        fire_was_held: false,
        release_was_held: false,
    }
}

/// Well-formedness of a hook payload: the anchor lies in the doubled
/// world extent and the tether length is a small nonnegative number (a
/// frozen length may exceed the reeling cap by one rounding sub-unit).
pub open spec fn hook_wf(h: HookView) -> bool {
    match h {
        HookView::Ready => true,
        HookView::Pulling { anchor, remaining } => abs_val(anchor.x) <= 2 * COORD_LIMIT
            && abs_val(anchor.y) <= 2 * COORD_LIMIT && 0 <= remaining <= TETHER_LIMIT as int,
        HookView::Hooked { anchor, max } => abs_val(anchor.x) <= 2 * COORD_LIMIT && abs_val(
            anchor.y,
        ) <= 2 * COORD_LIMIT && 0 <= max <= TETHER_LIMIT + 1,
    }
}

/// Well-formedness of the whole controller state: every field within
/// the bounds the update maintains.
pub open spec fn player_wf(p: PlayerView) -> bool {
    abs_val(p.pos.x) <= COORD_LIMIT && abs_val(p.pos.y) <= COORD_LIMIT && abs_val(
        p.crosshair_pos.x,
    ) <= COORD_LIMIT && abs_val(p.crosshair_pos.y) <= COORD_LIMIT && abs_val(p.crosshair_vel.x)
        <= CH_MAX_SPEED && abs_val(p.crosshair_vel.y) <= CH_MAX_SPEED && abs_val(p.speed.x)
        <= MAX_H_SPEED && abs_val(p.speed.y) <= MAX_V_SPEED && hook_wf(p.hook_state)
}

/// Truncated division never grows past the exact quotient:
/// `|t/b| * b <= |t|`.
pub proof fn lemma_tdiv_den(t: int, b: int)
    requires
        b >= 1,
    ensures
        abs_val(tdiv(t, b)) * b <= abs_val(t),
{
    if t >= 0 {
        lemma_div_pos_is_pos(t, b);
        lemma_remainder_lower(t, b);
    } else {
        lemma_div_pos_is_pos(-t, b);
        lemma_remainder_lower(-t, b);
    }
}

/// The projection quotient `(c * o) / dd` is bounded by `|o|` whenever
/// `c^2 <= dd`: one factor of `c` cancels against the denominator.
pub proof fn lemma_proj_bound(c: int, o: int, dd: int)
    requires
        dd >= 1,
        c * c <= dd,
    ensures
        -abs_val(o) <= tdiv(c * o, dd) <= abs_val(o),
{
    if c == 0 {
        assert(c * o == 0) by (nonlinear_arith)
            requires
                c == 0,
        ;
        lemma_div_of0(dd);
    } else {
        let a = abs_val(c);
        let ao = abs_val(o);
        assert(a * a <= dd) by (nonlinear_arith)
            requires
                (a == c || a == -c),
                c * c <= dd,
        ;
        assert(a <= dd) by (nonlinear_arith)
            requires
                a >= 1,
                a * a <= dd,
        ;
        assert(-(dd * ao) <= c * o <= dd * ao) by (nonlinear_arith)
            requires
                -dd <= c <= dd,
                ao >= 0,
                (o == ao || o == -ao),
        ;
        lemma_tdiv_mag(c * o, dd, ao);
    }
}

/// After the constraint step the actor sits within `m + 1` of the
/// anchor (the extra sub-unit absorbs the floor square root and the
/// truncated divisions).
pub proof fn lemma_constraint_radius(
    pos: Vec2View,
    vel: Vec2View,
    acc: Vec2View,
    anchor: Vec2View,
    m: int,
)
    requires
        m >= 0,
    ensures
        v_sq(v_sub(anchor, constraint_after(pos, vel, acc, anchor, m).0)) <= (m + 1) * (m + 1),
{
    let d = v_sub(anchor, pos);
    let dd = v_sq(d);
    lemma_sq_nonneg(d.x);
    lemma_sq_nonneg(d.y);
    lemma_sq_nonneg(m);
    if dd > m * m {
        let dist = isqrt(dd);
        lemma_isqrt_bounds(dd);
        lemma_isqrt_pos(dd);
        assert(m <= dist) by (nonlinear_arith)
            requires
                m >= 0,
                dist >= 0,
                m * m < dd,
                dd < (dist + 1) * (dist + 1),
        ;
        let qx = tdiv(d.x * m, dist);
        let qy = tdiv(d.y * m, dist);
        let dist2 = dist * dist;
        let m2 = m * m;
        lemma_tdiv_den(d.x * m, dist);
        lemma_tdiv_den(d.y * m, dist);
        assert(qx * qx * dist2 <= (d.x * m) * (d.x * m)) by (nonlinear_arith)
            requires
                dist >= 1,
                dist2 == dist * dist,
                abs_val(qx) * dist <= abs_val(d.x * m),
                abs_val(qx) >= 0,
                (qx == abs_val(qx) || qx == -abs_val(qx)),
                (d.x * m == abs_val(d.x * m) || d.x * m == -abs_val(d.x * m)),
                abs_val(d.x * m) >= 0,
        ;
        assert(qy * qy * dist2 <= (d.y * m) * (d.y * m)) by (nonlinear_arith)
            requires
                dist >= 1,
                dist2 == dist * dist,
                abs_val(qy) * dist <= abs_val(d.y * m),
                abs_val(qy) >= 0,
                (qy == abs_val(qy) || qy == -abs_val(qy)),
                (d.y * m == abs_val(d.y * m) || d.y * m == -abs_val(d.y * m)),
                abs_val(d.y * m) >= 0,
        ;
        let qq = qx * qx + qy * qy;
        lemma_sq_nonneg(qx);
        lemma_sq_nonneg(qy);
        assert((d.x * m) * (d.x * m) == (d.x * d.x) * m2) by (nonlinear_arith)
            requires
                m2 == m * m,
        ;
        assert((d.y * m) * (d.y * m) == (d.y * d.y) * m2) by (nonlinear_arith)
            requires
                m2 == m * m,
        ;
        assert(qq * dist2 == qx * qx * dist2 + qy * qy * dist2) by (nonlinear_arith)
            requires
                qq == qx * qx + qy * qy,
        ;
        assert(dd * m2 == (d.x * d.x) * m2 + (d.y * d.y) * m2) by (nonlinear_arith)
            requires
                dd == d.x * d.x + d.y * d.y,
        ;
        assert(qq * dist2 <= dd * m2);
        if m == 0 {
            assert(d.x * m == 0) by (nonlinear_arith)
                requires
                    m == 0,
            ;
            assert(d.y * m == 0) by (nonlinear_arith)
                requires
                    m == 0,
            ;
            lemma_div_of0(dist);
            assert(qq <= (m + 1) * (m + 1));
        } else {
            assert(dd <= dist2 + 2 * dist) by (nonlinear_arith)
                requires
                    dist2 == dist * dist,
                    dd < (dist + 1) * (dist + 1),
            ;
            if qq > m2 + 2 * m {
                assert(qq * dist2 >= (m2 + 2 * m + 1) * dist2) by (nonlinear_arith)
                    requires
                        qq >= m2 + 2 * m + 1,
                        dist2 >= 0,
                ;
                assert((m2 + 2 * m + 1) * dist2 == m2 * dist2 + 2 * (m * dist2) + dist2)
                    by (nonlinear_arith);
                assert(dd * m2 <= m2 * dist2 + 2 * (m2 * dist)) by (nonlinear_arith)
                    requires
                        dd <= dist2 + 2 * dist,
                        m2 >= 0,
                ;
                assert(2 * (m * dist2) + dist2 <= 2 * (m2 * dist));
                assert(false) by (nonlinear_arith)
                    requires
                        2 * (m * dist2) + dist2 <= 2 * (m2 * dist),
                        dist2 == dist * dist,
                        m2 == m * m,
                        m <= dist,
                        1 <= m,
                        1 <= dist,
                ;
            }
            assert(qq <= (m + 1) * (m + 1)) by (nonlinear_arith)
                requires
                    qq <= m2 + 2 * m,
                    m2 == m * m,
            ;
        }
        assert(v_sub(anchor, constraint_after(pos, vel, acc, anchor, m).0) == (Vec2View {
            x: qx,
            y: qy,
        }));
    } else {
        assert(m * m <= (m + 1) * (m + 1)) by (nonlinear_arith)
            requires
                m >= 0,
        ;
    }
}

/// Clamp `v` to `[-m, m]`.
pub fn clamp_mag(v: i64, m: i64) -> (r: i64)
    requires
        m >= 0,
    ensures
        r == clamp_mag_spec(v as int, m as int),
{
    if v < -m {
        -m
    } else if v > m {
        m
    } else {
        v
    }
}

/// Apply the tether constraint (see [`constraint_after`]) with exact
/// fixed-point arithmetic.
pub fn apply_hook_constraint(pos: Vec2, speed: Vec2, acc: Vec2, anchor: Vec2, max_dist: i64) -> (r:
    (Vec2, Vec2, Vec2))
    requires
        abs_val(pos@.x) <= COORD_LIMIT,
        abs_val(pos@.y) <= COORD_LIMIT,
        abs_val(anchor@.x) <= 2 * COORD_LIMIT,
        abs_val(anchor@.y) <= 2 * COORD_LIMIT,
        0 <= max_dist <= TETHER_LIMIT + 1,
        abs_val(speed@.x) <= MAX_V_SPEED,
        abs_val(speed@.y) <= MAX_V_SPEED,
        abs_val(acc@.x) <= 1000,
        abs_val(acc@.y) <= 1000,
    ensures
        (r.0@, r.1@, r.2@) == constraint_after(pos@, speed@, acc@, anchor@, max_dist as int),
        abs_val(r.0@.x) <= 5 * COORD_LIMIT,
        abs_val(r.0@.y) <= 5 * COORD_LIMIT,
        abs_val(r.1@.x) <= 0x1_0000_0000_0000,
        abs_val(r.1@.y) <= 0x1_0000_0000_0000,
        abs_val(r.2@.x) <= 0x1_0000_0000_0000,
        abs_val(r.2@.y) <= 0x1_0000_0000_0000,
{
    let dx: i64 = anchor.x - pos.x;
    let dy: i64 = anchor.y - pos.y;
    proof {
        lemma_sq_nonneg(dx as int);
        lemma_sq_nonneg(dy as int);
        lemma_sq_nonneg(max_dist as int);
        lemma_mul_bound(dx as int, dx as int, 0x1_8000_0000, 0x1_8000_0000);
        lemma_mul_bound(dy as int, dy as int, 0x1_8000_0000, 0x1_8000_0000);
        lemma_mul_bound(max_dist as int, max_dist as int, 0x10_0000_0001, 0x10_0000_0001);
    }
    let dd: i128 = (dx as i128) * (dx as i128) + (dy as i128) * (dy as i128);
    let mm: i128 = (max_dist as i128) * (max_dist as i128);
    if dd > mm {
        proof {
            lemma_isqrt_le(dd as int, 0x4_0000_0000);
            lemma_isqrt_pos(dd as int);
        }
        let dist: i64 = int_sqrt(dd as u128) as i64;
        proof {
            lemma_isqrt_bounds(dd as int);
            assert(max_dist as int <= dist as int) by (nonlinear_arith)
                requires
                    max_dist >= 0,
                    dist as int >= 0,
                    (max_dist as int) * (max_dist as int) < dd as int,
                    (dd as int) < (dist as int + 1) * (dist as int + 1),
            ;
            lemma_mul_bound(dx as int, max_dist as int, 0x1_8000_0000, 0x10_0000_0001);
            lemma_mul_bound(dy as int, max_dist as int, 0x1_8000_0000, 0x10_0000_0001);
            lemma_mul_bound(abs_val(dx as int), dist as int, 0x1_8000_0000, 0x4_0000_0000);
            lemma_mul_bound(abs_val(dy as int), dist as int, 0x1_8000_0000, 0x4_0000_0000);
            assert(-(dist as int * abs_val(dx as int)) <= dx as int * (max_dist as int) <= dist
                as int * abs_val(dx as int)) by (nonlinear_arith)
                requires
                    0 <= max_dist as int <= dist as int,
                    abs_val(dx as int) >= 0,
                    (dx as int == abs_val(dx as int) || dx as int == -abs_val(dx as int)),
            ;
            assert(-(dist as int * abs_val(dy as int)) <= dy as int * (max_dist as int) <= dist
                as int * abs_val(dy as int)) by (nonlinear_arith)
                requires
                    0 <= max_dist as int <= dist as int,
                    abs_val(dy as int) >= 0,
                    (dy as int == abs_val(dy as int) || dy as int == -abs_val(dy as int)),
            ;
            lemma_tdiv_mag(dx as int * (max_dist as int), dist as int, abs_val(dx as int));
            lemma_tdiv_mag(dy as int * (max_dist as int), dist as int, abs_val(dy as int));
        }
        let cx: i64 = div_trunc_wide((dx as i128) * (max_dist as i128), dist as i128) as i64;
        let cy: i64 = div_trunc_wide((dy as i128) * (max_dist as i128), dist as i128) as i64;
        let npos = Vec2 { x: anchor.x - cx, y: anchor.y - cy };
        proof {
            lemma_mul_bound(speed@.x, dx as int, 5000, 0x1_8000_0000);
            lemma_mul_bound(speed@.y, dy as int, 5000, 0x1_8000_0000);
        }
        let dv: i128 = (speed.x as i128) * (dx as i128) + (speed.y as i128) * (dy as i128);
        let nvel: Vec2 = if dv < 0 {
            proof {
                lemma_proj_bound(dx as int, dv as int, dd as int);
                lemma_proj_bound(dy as int, dv as int, dd as int);
                lemma_mul_bound(dx as int, dv as int, 0x1_8000_0000, 0x4000_0000_0000);
                lemma_mul_bound(dy as int, dv as int, 0x1_8000_0000, 0x4000_0000_0000);
            }
            let wx: i64 = div_trunc_wide((dx as i128) * dv, dd) as i64;
            let wy: i64 = div_trunc_wide((dy as i128) * dv, dd) as i64;
            Vec2 { x: speed.x - wx, y: speed.y - wy }
        } else {
            speed
        };
        proof {
            lemma_mul_bound(acc@.x, dx as int, 1000, 0x1_8000_0000);
            lemma_mul_bound(acc@.y, dy as int, 1000, 0x1_8000_0000);
        }
        let da: i128 = (acc.x as i128) * (dx as i128) + (acc.y as i128) * (dy as i128);
        let nacc: Vec2 = if da < 0 {
            proof {
                lemma_proj_bound(dx as int, da as int, dd as int);
                lemma_proj_bound(dy as int, da as int, dd as int);
                lemma_mul_bound(dx as int, da as int, 0x1_8000_0000, 0x1000_0000_0000);
                lemma_mul_bound(dy as int, da as int, 0x1_8000_0000, 0x1000_0000_0000);
            }
            let wx: i64 = div_trunc_wide((dx as i128) * da, dd) as i64;
            let wy: i64 = div_trunc_wide((dy as i128) * da, dd) as i64;
            Vec2 { x: acc.x - wx, y: acc.y - wy }
        } else {
            acc
        };
        (npos, nvel, nacc)
    } else {
        (pos, speed, acc)
    }
}

impl Player {
    /// A fresh actor: at the origin, at rest, hook ready, crosshair at
    /// its fixed initial offset.
    pub fn new() -> (p: Player)
        ensures
            p@ == initial_player(),
            player_wf(p@),
    {
        Player {
            crosshair_pos: Vec2 { x: CROSSHAIR_START_X, y: CROSSHAIR_START_Y },
            crosshair_vel: Vec2 { x: 0, y: 0 },
            hook_state: HookState::Ready,
            pos: Vec2 { x: 0, y: 0 },
            speed: Vec2 { x: 0, y: 0 },
            jump_was_released: true,
            fire_was_held: false,
            release_was_held: false,
        }
    }

    /// Advance the simulation by one tick under the given held inputs.
    /// The new state is exactly [`spec_update`] of the old state, so
    /// trajectories are a pure function of state and inputs.
    #[verifier::rlimit(100)]
    pub fn update(&mut self, input: Input)
        requires
            player_wf(old(self)@),
        ensures
            final(self)@ == spec_update(old(self)@, input),
            player_wf(final(self)@),
    {
        let ghost p0: PlayerView = self@;

        // Crosshair steering: clamp against the held direction, then
        // accelerate; stop dead when neither direction is held.
        let mut cvx: i64 = self.crosshair_vel.x;
        if input.left {
            if cvx > 0 {
                cvx = 0;
            }
            cvx = cvx - CH_ACCELERATION;
        } else if input.right {
            if cvx < 0 {
                cvx = 0;
            }
            cvx = cvx + CH_ACCELERATION;
        } else {
            cvx = 0;
        }
        let mut cvy: i64 = self.crosshair_vel.y;
        if input.up {
            if cvy > 0 {
                cvy = 0;
            }
            cvy = cvy - CH_ACCELERATION;
        } else if input.down {
            if cvy < 0 {
                cvy = 0;
            }
            cvy = cvy + CH_ACCELERATION;
        } else {
            cvy = 0;
        }
        let cvx: i64 = clamp_mag(cvx, CH_MAX_SPEED);
        let cvy: i64 = clamp_mag(cvy, CH_MAX_SPEED);
        assert(cvx == crosshair_vel_after(p0, input).x);
        assert(cvy == crosshair_vel_after(p0, input).y);
        let cross1 = Vec2 {
            x: clamp_mag(self.crosshair_pos.x + cvx, COORD_LIMIT),
            y: clamp_mag(self.crosshair_pos.y + cvy, COORD_LIMIT),
        };
        assert(cross1@ == crosshair_pos_after(p0, input));

        let fresh_fire: bool = input.fire && !self.fire_was_held;
        let fresh_release: bool = input.release && !self.release_was_held;
        let acc0 = Vec2 { x: 0, y: FALL_ACC };

        // Hook transitions and tether constraint.
        let hs: HookState = self.hook_state;
        let (hp, hv, ha, nhook): (Vec2, Vec2, Vec2, HookState) = match hs {
            HookState::Ready => {
                if fresh_fire {
                    let anchor: Vec2 = self.pos.add(cross1);
                    let rem: i64 = cross1.length();
                    proof {
                        lemma_mul_bound(cross1@.x, cross1@.x, 0x8000_0000, 0x8000_0000);
                        lemma_mul_bound(cross1@.y, cross1@.y, 0x8000_0000, 0x8000_0000);
                        lemma_sq_nonneg(cross1@.x);
                        lemma_sq_nonneg(cross1@.y);
                        lemma_isqrt_le(v_sq(cross1@), 0x10_0000_0000);
                    }
                    (
                        self.pos,
                        self.speed,
                        acc0,
                        HookState::Pulling { anchor, remaining_distance: rem },
                    )
                } else {
                    (self.pos, self.speed, acc0, HookState::Ready)
                }
            },
            HookState::Pulling { anchor, remaining_distance } => {
                let m1: i64 = if remaining_distance - HOOK_PULL_SPEED < MIN_TETHER {
                    MIN_TETHER
                } else {
                    remaining_distance - HOOK_PULL_SPEED
                };
                let (p1, v1, a1) = apply_hook_constraint(self.pos, self.speed, acc0, anchor, m1);
                if !input.fire {
                    proof {
                        lemma_constraint_radius(p0.pos, p0.speed, acc0@, anchor@, m1 as int);
                        let dq = v_sub(anchor@, p1@);
                        lemma_sq_nonneg(dq.x);
                        lemma_sq_nonneg(dq.y);
                        assert((m1 + 1) * (m1 + 1) < (m1 + 2) * (m1 + 2)) by (nonlinear_arith)
                            requires
                                m1 >= 0,
                        ;
                        lemma_isqrt_le(v_sq(dq), m1 + 1);
                    }
                    let md: i64 = anchor.sub(p1).length();
                    (p1, v1, a1, HookState::Hooked { anchor, max_distance: md })
                } else {
                    (p1, v1, a1, HookState::Pulling { anchor, remaining_distance: m1 })
                }
            },
            HookState::Hooked { anchor, max_distance } => {
                let (p1, v1, a1) = apply_hook_constraint(
                    self.pos,
                    self.speed,
                    acc0,
                    anchor,
                    max_distance,
                );
                (
                    p1,
                    v1,
                    a1,
                    if fresh_release {
                        HookState::Ready
                    } else {
                        HookState::Hooked { anchor, max_distance }
                    },
                )
            },
        };
        assert(hp@ == hook_phase(p0, input).0);
        assert(hv@ == hook_phase(p0, input).1);
        assert(ha@ == hook_phase(p0, input).2);
        assert(nhook@ == hook_phase(p0, input).3);
        assert(hook_wf(nhook@));

        // Integrate base motion under the clamps, in fixed-point.
        let nvx: i64 = clamp_mag(hv.x + ha.x, MAX_H_SPEED);
        let nvy: i64 = clamp_mag(hv.y + ha.y, MAX_V_SPEED);
        let px1: i64 = clamp_mag(hp.x + nvx, COORD_LIMIT);
        let py1: i64 = clamp_mag(hp.y + nvy, COORD_LIMIT);

        // Ground collision: hard floor at world y = 0.
        let (fy, fvy): (i64, i64) = if py1 + HALF_SIZE > 0 {
            (-HALF_SIZE, 0)
        } else {
            (py1, nvy)
        };

        self.crosshair_vel = Vec2 { x: cvx, y: cvy };
        self.crosshair_pos = cross1;
        self.hook_state = nhook;
        self.speed = Vec2 { x: nvx, y: fvy };
        self.pos = Vec2 { x: px1, y: fy };
        self.fire_was_held = input.fire;
        self.release_was_held = input.release;

        proof {
            assert(self@ == spec_update(p0, input));
            assert(player_wf(self@));
        }
    }

    /// The point the camera follows.
    pub fn get_center(&self) -> (c: Vec2)
        ensures
            c@ == self@.pos,
    {
        self.pos
    }

    /// The actor's bottom-center point, used for ground contact.
    pub fn get_bottom_center(&self) -> (c: Vec2)
        requires
            self@.pos.y + HALF_SIZE <= i64::MAX,
        ensures
            c@ == (Vec2View { x: self@.pos.x, y: self@.pos.y + HALF_SIZE }),
    {
        Vec2 { x: self.pos.x, y: self.pos.y + HALF_SIZE }
    }

    /// Frame geometry for the given camera offset: the body square, the
    /// crosshair glyph center, and the tether segment when the hook is
    /// out.  World coordinates are truncated to whole screen pixels at
    /// this boundary only.
    pub fn draw(&self, pos_offset: Vec2) -> (d: DrawData)
        requires
            player_wf(self@),
            abs_val(pos_offset@.x) <= COORD_LIMIT,
            abs_val(pos_offset@.y) <= COORD_LIMIT,
        ensures
            d.body_size == PLAYER_SIZE,
            d.cross_arm == CROSSHAIR_ARM,
            d.body_x as int == to_screen(self@.pos.x + pos_offset@.x) - 5,
            d.body_y as int == to_screen(self@.pos.y + pos_offset@.y) - 5,
            d.cross_x as int == to_screen(self@.pos.x + pos_offset@.x + self@.crosshair_pos.x),
            d.cross_y as int == to_screen(self@.pos.y + pos_offset@.y + self@.crosshair_pos.y),
            match self@.hook_state {
                HookView::Ready => d.tether is None,
                HookView::Pulling { anchor, remaining } => d.tether matches Some(seg)
                    && seg.x0 as int == to_screen(anchor.x + pos_offset@.x) && seg.y0 as int
                    == to_screen(anchor.y + pos_offset@.y) && seg.x1 as int == to_screen(
                    self@.pos.x + pos_offset@.x,
                ) && seg.y1 as int == to_screen(self@.pos.y + pos_offset@.y),
                HookView::Hooked { anchor, max } => d.tether matches Some(seg) && seg.x0 as int
                    == to_screen(anchor.x + pos_offset@.x) && seg.y0 as int == to_screen(
                    anchor.y + pos_offset@.y,
                ) && seg.x1 as int == to_screen(self@.pos.x + pos_offset@.x) && seg.y1 as int
                    == to_screen(self@.pos.y + pos_offset@.y),
            },
    {
        let sx: i64 = div_trunc(self.pos.x + pos_offset.x, SCALE);
        let sy: i64 = div_trunc(self.pos.y + pos_offset.y, SCALE);
        let cx: i64 = div_trunc(self.pos.x + pos_offset.x + self.crosshair_pos.x, SCALE);
        let cy: i64 = div_trunc(self.pos.y + pos_offset.y + self.crosshair_pos.y, SCALE);
        let tether: Option<Segment> = match self.hook_state {
            HookState::Ready => None,
            HookState::Pulling { anchor, .. } | HookState::Hooked { anchor, .. } => Some(
                Segment {
                    x0: div_trunc(anchor.x + pos_offset.x, SCALE),
                    y0: div_trunc(anchor.y + pos_offset.y, SCALE),
                    x1: sx,
                    y1: sy,
                },
            ),
        };
        DrawData {
            body_x: sx - 5,
            body_y: sy - 5,
            body_size: PLAYER_SIZE,
            cross_x: cx,
            cross_y: cy,
            cross_arm: CROSSHAIR_ARM,
            tether,
        }
    }
}

/// Half-length of each crosshair arm, in screen pixels.
pub const CROSSHAIR_ARM: i64 = 4;

/// World fixed-point coordinate to screen pixel: truncation toward zero.
pub open spec fn to_screen(w: int) -> int {
    tdiv(w, SCALE as int)
}

/// A line segment in integer screen coordinates.
#[derive(Clone, Copy, Debug, PartialEq, Eq, Structural)]
pub struct Segment {
    pub x0: i64,
    pub y0: i64,
    pub x1: i64,
    pub y1: i64,
}

/// Geometry of one frame, in integer screen coordinates: a filled
/// square for the body, a crosshair glyph, and an optional tether line.
#[derive(Clone, Copy, Debug, PartialEq, Eq, Structural)]
pub struct DrawData {
    /// Left edge of the body square.
    pub body_x: i64,
    /// Top edge of the body square.
    pub body_y: i64,
    /// Side of the body square.
    pub body_size: i64,
    /// Crosshair glyph center.
    pub cross_x: i64,
    /// Crosshair glyph center.
    pub cross_y: i64,
    /// Half-length of each crosshair arm.
    pub cross_arm: i64,
    /// Anchor-to-body line while the hook is out.
    pub tether: Option<Segment>,
}

/// Idle decay: when no steering input is held the crosshair velocity is
/// exactly zero after the tick, with no residual inertia.
pub proof fn lemma_idle_crosshair_decay(p: PlayerView, i: Input)
    requires
        !i.left,
        !i.right,
        !i.up,
        !i.down,
    ensures
        spec_update(p, i).crosshair_vel == (Vec2View { x: 0, y: 0 }),
{
}

/// Speed clamps: after any tick from any state, both velocity axes and
/// both crosshair velocity axes are within their fixed caps.
pub proof fn lemma_speed_clamps(p: PlayerView, i: Input)
    ensures
        abs_val(spec_update(p, i).speed.x) <= MAX_H_SPEED,
        abs_val(spec_update(p, i).speed.y) <= MAX_V_SPEED,
        abs_val(spec_update(p, i).crosshair_vel.x) <= CH_MAX_SPEED,
        abs_val(spec_update(p, i).crosshair_vel.y) <= CH_MAX_SPEED,
{
}

/// Ground floor: after any tick the actor's bottom-center never sits
/// below the ground line, and on the tick contact occurs the vertical
/// velocity is exactly zero.
pub proof fn lemma_ground_floor(p: PlayerView, i: Input)
    ensures
        spec_update(p, i).pos.y + HALF_SIZE <= 0,
        pre_ground_motion(p, i).0.y + HALF_SIZE > 0 ==> spec_update(p, i).speed.y == 0
            && spec_update(p, i).pos.y == -(HALF_SIZE as int),
{
}

/// Firing: a fresh press of the fire input in `Ready` deploys the hook
/// at the absolute point the crosshair aims at, with the tether exactly
/// the aim distance.
pub proof fn lemma_fire_transition(p: PlayerView, i: Input)
    requires
        p.hook_state is Ready,
        i.fire,
        !p.fire_was_held,
    ensures
        spec_update(p, i).hook_state == (HookView::Pulling {
            anchor: v_add(p.pos, crosshair_pos_after(p, i)),
            remaining: v_len(crosshair_pos_after(p, i)),
        }),
{
}

/// Releasing the fire input while `Pulling` freezes the tether at the
/// actor's distance to the anchor right after this tick's constraint.
pub proof fn lemma_hooked_transition(p: PlayerView, i: Input, a: Vec2View, m: int)
    requires
        p.hook_state == (HookView::Pulling { anchor: a, remaining: m }),
        !i.fire,
    ensures
        spec_update(p, i).hook_state == (HookView::Hooked {
            anchor: a,
            max: v_len(
                v_sub(
                    a,
                    constraint_after(
                        p.pos,
                        p.speed,
                        Vec2View { x: 0, y: FALL_ACC as int },
                        a,
                        reel_in(m),
                    ).0,
                ),
            ),
        }),
{
}

/// A fresh press of the release input while `Hooked` detaches the hook
/// completely.
pub proof fn lemma_release_transition(p: PlayerView, i: Input)
    requires
        p.hook_state matches HookView::Hooked { .. },
        i.release,
        !p.release_was_held,
    ensures
        spec_update(p, i).hook_state is Ready,
{
}

/// Both axes of a vector are bounded by any Euclidean bound on it.
pub proof fn lemma_axis_bound(u: Vec2View, a: int)
    requires
        v_sq(u) <= a * a,
        a >= 0,
    ensures
        abs_val(u.x) <= a,
        abs_val(u.y) <= a,
{
    lemma_sq_nonneg(u.x);
    lemma_sq_nonneg(u.y);
    let ax = abs_val(u.x);
    let ay = abs_val(u.y);
    assert(ax <= a) by (nonlinear_arith)
        requires
            (ax == u.x || ax == -u.x),
            ax >= 0,
            a >= 0,
            u.x * u.x + u.y * u.y <= a * a,
            u.y * u.y >= 0,
    ;
    assert(ay <= a) by (nonlinear_arith)
        requires
            (ay == u.y || ay == -u.y),
            ay >= 0,
            a >= 0,
            u.x * u.x + u.y * u.y <= a * a,
            u.x * u.x >= 0,
    ;
}

/// The squared length of a difference does not depend on its order.
pub proof fn lemma_sq_sub_sym(a: Vec2View, b: Vec2View)
    ensures
        v_sq(v_sub(a, b)) == v_sq(v_sub(b, a)),
{
    assert((a.x - b.x) * (a.x - b.x) == (b.x - a.x) * (b.x - a.x)) by (nonlinear_arith);
    assert((a.y - b.y) * (a.y - b.y) == (b.y - a.y) * (b.y - a.y)) by (nonlinear_arith);
}

/// Lagrange's identity in two dimensions: the square of the dot product
/// plus the square of the cross product is the product of the squared
/// lengths.
pub proof fn lemma_lagrange_identity(ux: int, uy: int, wx: int, wy: int)
    ensures
        (ux * wx + uy * wy) * (ux * wx + uy * wy) + (ux * wy - uy * wx) * (ux * wy - uy * wx) == (
        ux * ux + uy * uy) * (wx * wx + wy * wy),
{
    let a = ux * wx;
    let b = uy * wy;
    let c = ux * wy;
    let d = uy * wx;
    assert((a + b) * (a + b) == a * a + 2 * (a * b) + b * b) by (nonlinear_arith);
    assert((c - d) * (c - d) == c * c - 2 * (c * d) + d * d) by (nonlinear_arith);
    assert(a * b == c * d) by (nonlinear_arith)
        requires
            a == ux * wx,
            b == uy * wy,
            c == ux * wy,
            d == uy * wx,
    ;
    assert(a * a == (ux * ux) * (wx * wx)) by (nonlinear_arith)
        requires
            a == ux * wx,
    ;
    assert(b * b == (uy * uy) * (wy * wy)) by (nonlinear_arith)
        requires
            b == uy * wy,
    ;
    assert(c * c == (ux * ux) * (wy * wy)) by (nonlinear_arith)
        requires
            c == ux * wy,
    ;
    assert(d * d == (uy * uy) * (wx * wx)) by (nonlinear_arith)
        requires
            d == uy * wx,
    ;
    assert((ux * ux + uy * uy) * (wx * wx + wy * wy) == (ux * ux) * (wx * wx) + (ux * ux) * (wy
        * wy) + (uy * uy) * (wx * wx) + (uy * uy) * (wy * wy)) by (nonlinear_arith);
}

/// Triangle inequality on exact squared lengths: Euclidean bounds on
/// two vectors add up for their sum.
pub proof fn lemma_sq_triangle(u: Vec2View, w: Vec2View, a: int, b: int)
    requires
        v_sq(u) <= a * a,
        v_sq(w) <= b * b,
        a >= 0,
        b >= 0,
    ensures
        v_sq(v_add(u, w)) <= (a + b) * (a + b),
{
    lemma_sq_nonneg(u.x);
    lemma_sq_nonneg(u.y);
    lemma_sq_nonneg(w.x);
    lemma_sq_nonneg(w.y);
    let duw = v_dot(u, w);
    let cross = u.x * w.y - u.y * w.x;
    lemma_lagrange_identity(u.x, u.y, w.x, w.y);
    assert(duw * duw + cross * cross == (u.x * u.x + u.y * u.y) * (w.x * w.x + w.y * w.y));
    lemma_sq_nonneg(cross);
    assert((u.x * u.x + u.y * u.y) * (w.x * w.x + w.y * w.y) <= (a * a) * (b * b))
        by (nonlinear_arith)
        requires
            0 <= u.x * u.x + u.y * u.y,
            u.x * u.x + u.y * u.y <= a * a,
            0 <= w.x * w.x + w.y * w.y,
            w.x * w.x + w.y * w.y <= b * b,
    ;
    assert((a * a) * (b * b) == (a * b) * (a * b)) by (nonlinear_arith);
    assert(duw <= a * b) by (nonlinear_arith)
        requires
            duw * duw <= (a * b) * (a * b),
            a >= 0,
            b >= 0,
    ;
    assert(v_sq(v_add(u, w)) == v_sq(u) + 2 * duw + v_sq(w)) by (nonlinear_arith)
        requires
            duw == u.x * w.x + u.y * w.y,
            v_sq(v_add(u, w)) == (u.x + w.x) * (u.x + w.x) + (u.y + w.y) * (u.y + w.y),
            v_sq(u) == u.x * u.x + u.y * u.y,
            v_sq(w) == w.x * w.x + w.y * w.y,
    ;
    assert((a + b) * (a + b) == a * a + 2 * (a * b) + b * b) by (nonlinear_arith);
}

/// One tick of clamped movement plus the rounding of the constraint
/// solver: the slack admitted by the hook radius law.
pub const HOOK_SLACK: i64 = 5065;

/// Common tail of the radius law: from a bound right after the hook
/// phase to a bound on the returned position, across integration, the
/// (inactive) world-extent saturation, and ground collision.
proof fn lemma_radius_tail(p: PlayerView, i: Input, anchor: Vec2View, tl: int)
    requires
        v_sq(v_sub(hook_phase(p, i).0, anchor)) <= (tl + 1) * (tl + 1),
        0 <= tl <= 0x1800_0000,
        abs_val(anchor.x) <= 0x2000_1000,
        abs_val(anchor.y) <= 0x2000_1000,
        anchor.y <= -(HALF_SIZE as int),
    ensures
        v_sq(v_sub(spec_update(p, i).pos, anchor)) <= (tl + HOOK_SLACK) * (tl + HOOK_SLACK),
{
    let h0 = hook_phase(p, i).0;
    let mo = pre_ground_motion(p, i);
    let v2 = mo.1;
    lemma_mul_bound(v2.x, v2.x, 800, 800);
    lemma_mul_bound(v2.y, v2.y, 5000, 5000);
    assert(v_sq(v2) <= 5064 * 5064);
    lemma_axis_bound(v_sub(h0, anchor), tl + 1);
    assert(mo.0.x == h0.x + v2.x);
    assert(mo.0.y == h0.y + v2.y);
    lemma_sq_triangle(v_sub(h0, anchor), v2, tl + 1, 5064);
    assert(v_sub(mo.0, anchor) == v_add(v_sub(h0, anchor), v2));
    assert(v_sq(v_sub(mo.0, anchor)) <= (tl + 5065) * (tl + 5065));
    let fin = spec_update(p, i).pos;
    if mo.0.y + HALF_SIZE > 0 {
        let fy = -(HALF_SIZE as int);
        assert((fy - anchor.y) * (fy - anchor.y) <= (mo.0.y - anchor.y) * (mo.0.y - anchor.y))
            by (nonlinear_arith)
            requires
                0 <= fy - anchor.y,
                fy - anchor.y <= mo.0.y - anchor.y,
        ;
        assert(v_sq(v_sub(fin, anchor)) <= v_sq(v_sub(mo.0, anchor)));
    }
}

/// Hook radius: whenever a tick ends with the hook out, the actor sits
/// within the tether length plus [`HOOK_SLACK`] of the anchor (one tick
/// of clamped movement plus the solver's sub-unit rounding).  Stated
/// away from the world-extent saturation boundary and for anchors at or
/// above the ground line, where the floor cannot push the actor back
/// outside the circle.
pub proof fn lemma_hook_radius(p: PlayerView, i: Input)
    requires
        player_wf(p),
        abs_val(p.pos.x) <= 0x1000_0000,
        abs_val(p.pos.y) <= 0x1000_0000,
        abs_val(p.crosshair_pos.x) <= 0x1000_0000,
        abs_val(p.crosshair_pos.y) <= 0x1000_0000,
        match p.hook_state {
            HookView::Ready => true,
            HookView::Pulling { anchor, remaining } => abs_val(anchor.x) <= 0x2000_0000 && abs_val(
                anchor.y,
            ) <= 0x2000_0000 && remaining <= 0x1000_0000,
            HookView::Hooked { anchor, max } => abs_val(anchor.x) <= 0x2000_0000 && abs_val(
                anchor.y,
            ) <= 0x2000_0000 && max <= 0x1000_0000,
        },
        match spec_update(p, i).hook_state {
            HookView::Ready => true,
            HookView::Pulling { anchor, remaining } => anchor.y <= -(HALF_SIZE as int),
            HookView::Hooked { anchor, max } => anchor.y <= -(HALF_SIZE as int),
        },
    ensures
        match spec_update(p, i).hook_state {
            HookView::Ready => true,
            HookView::Pulling { anchor, remaining } => v_sq(v_sub(spec_update(p, i).pos, anchor))
                <= (remaining + HOOK_SLACK) * (remaining + HOOK_SLACK),
            HookView::Hooked { anchor, max } => v_sq(v_sub(spec_update(p, i).pos, anchor)) <= (max
                + HOOK_SLACK) * (max + HOOK_SLACK),
        },
{
    let acc0 = Vec2View { x: 0, y: FALL_ACC as int };
    let h = hook_phase(p, i);
    match p.hook_state {
        HookView::Ready => {
            if i.fire && !p.fire_was_held {
                let cross = crosshair_pos_after(p, i);
                let anchor = v_add(p.pos, cross);
                lemma_sq_nonneg(cross.x);
                lemma_sq_nonneg(cross.y);
                let rem = isqrt(v_sq(cross));
                lemma_isqrt_bounds(v_sq(cross));
                let s = v_sub(p.pos, anchor);
                assert(v_sq(s) == v_sq(cross)) by (nonlinear_arith)
                    requires
                        s.x == -cross.x,
                        s.y == -cross.y,
                        v_sq(s) == s.x * s.x + s.y * s.y,
                        v_sq(cross) == cross.x * cross.x + cross.y * cross.y,
                ;
                lemma_mul_bound(cross.x, cross.x, 0x1000_00c8, 0x1000_00c8);
                lemma_mul_bound(cross.y, cross.y, 0x1000_00c8, 0x1000_00c8);
                lemma_isqrt_le(v_sq(cross), 0x1800_0000);
                lemma_radius_tail(p, i, anchor, rem);
            }
        },
        HookView::Pulling { anchor, remaining } => {
            let m1 = reel_in(remaining);
            let c0 = constraint_after(p.pos, p.speed, acc0, anchor, m1).0;
            lemma_constraint_radius(p.pos, p.speed, acc0, anchor, m1);
            lemma_sq_sub_sym(anchor, c0);
            if !i.fire {
                let dq = v_sub(anchor, c0);
                lemma_sq_nonneg(dq.x);
                lemma_sq_nonneg(dq.y);
                let m2 = isqrt(v_sq(dq));
                lemma_isqrt_bounds(v_sq(dq));
                assert((m1 + 1) * (m1 + 1) < (m1 + 2) * (m1 + 2)) by (nonlinear_arith)
                    requires
                        m1 >= 0,
                ;
                lemma_isqrt_le(v_sq(dq), m1 + 1);
                lemma_radius_tail(p, i, anchor, m2);
            } else {
                lemma_radius_tail(p, i, anchor, m1);
            }
        },
        HookView::Hooked { anchor, max } => {
            if i.release && !p.release_was_held {
            } else {
                let c0 = constraint_after(p.pos, p.speed, acc0, anchor, max).0;
                lemma_constraint_radius(p.pos, p.speed, acc0, anchor, max);
                lemma_sq_sub_sym(anchor, c0);
                lemma_radius_tail(p, i, anchor, max);
            }
        },
    }
}

/// Determinism: the tick is a pure function of the previous state and
/// the held inputs, so identical input sequences from identical initial
/// states give identical trajectories.
pub proof fn lemma_deterministic(p1: PlayerView, p2: PlayerView, i: Input)
    requires
        p1 == p2,
    ensures
        spec_update(p1, i) == spec_update(p2, i),
{
}

} // verus!
