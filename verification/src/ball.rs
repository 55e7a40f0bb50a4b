use vstd::prelude::*;
use vstd::arithmetic::div_mod::lemma_fundamental_div_mod;
use crate::geom::{Circle, Vec2i};
use crate::unitvec::{
    is_unit, lemma_isqrt_bounds, lemma_tdiv_sign_bound, norm2, normalize, scaled_x, scaled_y,
    tdiv, tdiv_exec, vel_ok, UNIT,
};
use crate::rng::gen_range_i64;
use crate::screen_ok;

verus! {

/// A ball: a circle moving with a fixed-point unit direction at a scalar
/// speed given in grid units per second.
#[derive(Clone, Copy, PartialEq, Eq, Structural, Debug)]
pub struct Ball {
    pub circle: Circle,
    pub vel: Vec2i,
    pub ball_radius: i64,
    pub ball_speed: i64,
}

/// Shape and speed sanity of one ball against the screen it plays on.
pub open spec fn ball_wf(b: Ball, sw: int, sh: int) -> bool {
    &&& vel_ok(b.vel)
    &&& b.ball_radius == b.circle.r
    &&& 1 <= b.circle.r
    &&& 4 * b.circle.r <= sw
    &&& 4 * b.circle.r <= sh
    &&& 0 <= b.ball_speed <= sh
}

/// How far one tick can carry a ball: velocity up to twice `UNIT` times a
/// speed of at most the screen height, over at most `DT_MAX` milliseconds,
/// comes to 920 times the speed cap.
pub open spec fn play_margin(sw: int, sh: int) -> int {
    920 * (sw + sh)
}

/// Where a live ball can be between ticks: near the screen, and when it
/// sticks out past a wall it is either freshly pushed there by a collision
/// (within three radii) or already heading back in.
pub open spec fn ball_in_play(b: Ball, sw: int, sh: int) -> bool {
    let r = b.circle.r as int;
    let m = play_margin(sw, sh);
    &&& -(3 * r + m) <= b.circle.x <= sw + 3 * r + m
    &&& -(3 * r + m) <= b.circle.y <= sh
    &&& (b.circle.x + r > sw ==> (b.vel.x < 0 || b.circle.x <= sw + 3 * r))
    &&& (b.circle.x - r < 0 ==> (b.vel.x > 0 || b.circle.x >= -(3 * r)))
    &&& (b.circle.y - r < 0 ==> (b.vel.y > 0 || b.circle.y >= -(3 * r)))
}

/// Displacement of one component over a tick: velocity times speed times
/// frame time, brought back from the product scale (`UNIT` times the 1000
/// milliseconds of a second).
pub open spec fn move_delta(v: int, speed: int, dt: int) -> int {
    tdiv(v * speed * dt, 10_000_000)
}

pub open spec fn moved_circle(c: Circle, v: Vec2i, speed: int, dt: int) -> Circle {
    Circle {
        x: (c.x + move_delta(v.x as int, speed, dt)) as i64,
        y: (c.y + move_delta(v.y as int, speed, dt)) as i64,
        r: c.r,
    }
}

/// The wall bounces: past the left wall the ball is sent right, past the
/// right wall left (the right wall wins if both fire), past the top down.
/// Exiting the bottom is not a bounce; the round logic drops the ball there.
pub open spec fn bounced_vel(c: Circle, v: Vec2i, sw: int) -> Vec2i {
    let vx1: int = if c.x - c.r < 0 {
        UNIT as int
    } else {
        v.x as int
    };
    let vx2: int = if c.x + c.r > sw {
        -(UNIT as int)
    } else {
        vx1
    };
    let vy2: int = if c.y - c.r < 0 {
        UNIT as int
    } else {
        v.y as int
    };
    Vec2i { x: vx2 as i64, y: vy2 as i64 }
}

/// A ball after its per-frame update: moved, then wall-bounced.
pub open spec fn updated_ball(b: Ball, dt: int, sw: int) -> Ball {
    let c = moved_circle(b.circle, b.vel, b.ball_speed as int, dt);
    Ball {
        circle: c,
        vel: bounced_vel(c, b.vel, sw),
        ball_radius: b.ball_radius,
        ball_speed: b.ball_speed,
    }
}

impl Ball {
    /// Advance the ball by one frame and apply the wall bounces.
    pub fn update(&mut self, dt_ms: i64, screen_w: i64)
        requires
            vel_ok(old(self).vel),
            0 <= dt_ms <= crate::DT_MAX,
            0 <= old(self).ball_speed <= 1_000_000_000,
            1 <= old(self).circle.r <= 1_000_000_000,
            -4_000_000_000_000 <= old(self).circle.x <= 4_000_000_000_000,
            -4_000_000_000_000 <= old(self).circle.y <= 4_000_000_000_000,
            0 <= screen_w <= 1_000_000_000,
        ensures
            *final(self) == updated_ball(*old(self), dt_ms as int, screen_w as int),
            final(self).circle == moved_circle(
                old(self).circle,
                old(self).vel,
                old(self).ball_speed as int,
                dt_ms as int,
            ),
            final(self).vel == bounced_vel(final(self).circle, old(self).vel, screen_w as int),
            final(self).ball_radius == old(self).ball_radius,
            final(self).ball_speed == old(self).ball_speed,
            vel_ok(final(self).vel),
            -920 * old(self).ball_speed <= final(self).circle.x - old(self).circle.x
                <= 920 * old(self).ball_speed,
            -920 * old(self).ball_speed <= final(self).circle.y - old(self).circle.y
                <= 920 * old(self).ball_speed,
            old(self).vel.x >= 0 ==> final(self).circle.x >= old(self).circle.x,
            old(self).vel.x <= 0 ==> final(self).circle.x <= old(self).circle.x,
            old(self).vel.y >= 0 ==> final(self).circle.y >= old(self).circle.y,
            old(self).vel.y <= 0 ==> final(self).circle.y <= old(self).circle.y,
    {
        let speed = self.ball_speed;
        proof {
            let vx = self.vel.x as int;
            let vy = self.vel.y as int;
            assert(-(20000int * 1_000_000_000 * 460_000) <= vx * speed * dt_ms <= 20000int
                * 1_000_000_000 * 460_000) by (nonlinear_arith)
                requires
                    -20000 <= vx <= 20000,
                    0 <= speed <= 1_000_000_000,
                    0 <= dt_ms <= 460_000,
            ;
            assert(-(20000int * 1_000_000_000 * 460_000) <= vy * speed * dt_ms <= 20000int
                * 1_000_000_000 * 460_000) by (nonlinear_arith)
                requires
                    -20000 <= vy <= 20000,
                    0 <= speed <= 1_000_000_000,
                    0 <= dt_ms <= 460_000,
            ;
            assert(-(920 * speed * 10_000_000) <= vx * speed * dt_ms <= 920 * speed * 10_000_000)
                by (nonlinear_arith)
                requires
                    -20000 <= vx <= 20000,
                    0 <= speed,
                    0 <= dt_ms <= 460_000,
            ;
            assert(-(920 * speed * 10_000_000) <= vy * speed * dt_ms <= 920 * speed * 10_000_000)
                by (nonlinear_arith)
                requires
                    -20000 <= vy <= 20000,
                    0 <= speed,
                    0 <= dt_ms <= 460_000,
            ;
            assert(-(20000int * 1_000_000_000) <= vx * speed <= 20000int * 1_000_000_000)
                by (nonlinear_arith)
                requires
                    -20000 <= vx <= 20000,
                    0 <= speed <= 1_000_000_000,
            ;
            assert(-(20000int * 1_000_000_000) <= vy * speed <= 20000int * 1_000_000_000)
                by (nonlinear_arith)
                requires
                    -20000 <= vy <= 20000,
                    0 <= speed <= 1_000_000_000,
            ;
            assert((vx <= 0 ==> vx * speed * dt_ms <= 0) && (vx >= 0 ==> vx * speed * dt_ms >= 0))
                by (nonlinear_arith)
                requires
                    0 <= speed,
                    0 <= dt_ms,
            ;
            assert((vy <= 0 ==> vy * speed * dt_ms <= 0) && (vy >= 0 ==> vy * speed * dt_ms >= 0))
                by (nonlinear_arith)
                requires
                    0 <= speed,
                    0 <= dt_ms,
            ;
            lemma_tdiv_sign_bound(vx * speed * dt_ms, 10_000_000, 920 * speed);
            lemma_tdiv_sign_bound(vy * speed * dt_ms, 10_000_000, 920 * speed);
        }
        let dx = tdiv_exec(self.vel.x * speed * dt_ms, 10_000_000);
        let dy = tdiv_exec(self.vel.y * speed * dt_ms, 10_000_000);
        self.circle.x = self.circle.x + dx;
        self.circle.y = self.circle.y + dy;
        if self.circle.x - self.circle.r < 0 {
            self.vel.x = UNIT;
        }
        if self.circle.x + self.circle.r > screen_w {
            self.vel.x = -UNIT;
        }
        if self.circle.y - self.circle.r < 0 {
            self.vel.y = UNIT;
        }
        proof {
            let v = self.vel;
            assert(v.x * v.x >= 0 && v.y * v.y >= 0) by (nonlinear_arith);
            if v.x == UNIT as int || v.x == -(UNIT as int) {
                assert(norm2(v.x as int, v.y as int) >= 100_000_000) by (nonlinear_arith)
                    requires
                        v.x == 10000 || v.x == -10000,
                        v.y * v.y >= 0,
                ;
            }
            if v.y == UNIT as int {
                assert(norm2(v.x as int, v.y as int) >= 100_000_000) by (nonlinear_arith)
                    requires
                        v.y == 10000,
                        v.x * v.x >= 0,
                ;
            }
        }
    }

    /// Build a ball at `pos` whose direction is `(dir_x, UNIT)` rescaled to
    /// unit length: some slant between the two diagonals, always downward.
    pub fn from_dir(pos: Vec2i, dir_x: i64, screen_w: i64, screen_h: i64) -> (b: Ball)
        requires
            screen_ok(screen_w as int, screen_h as int),
            -10000 <= dir_x < 10000,
            -1_000_000_000 <= pos.x <= 1_000_000_000,
            -1_000_000_000 <= pos.y <= 1_000_000_000,
        ensures
            b.circle.x == pos.x,
            b.circle.y == pos.y,
            b.circle.r == (screen_w + screen_h) * 2 / 100,
            b.ball_radius == b.circle.r,
            b.ball_speed == screen_h * 84 / 100,
            b.vel.x == scaled_x(dir_x as int, UNIT as int),
            b.vel.y == scaled_y(dir_x as int, UNIT as int),
            is_unit(b.vel.x as int, b.vel.y as int),
            vel_ok(b.vel),
            b.vel.y >= 1,
            ball_wf(b, screen_w as int, screen_h as int),
    {
        let ball_radius = (screen_w + screen_h) * 2 / 100;
        let ball_speed = screen_h * 84 / 100;
        proof {
            let d = dir_x as int;
            assert(0 <= d * d <= 100_000_000) by (nonlinear_arith)
                requires
                    -10000 <= d <= 10000,
            ;
            assert(norm2(d, UNIT as int) == d * d + 100_000_000);
        }
        let vel = normalize(dir_x, UNIT);
        proof {
            // The y component cannot truncate to zero: the squared length is
            // at most 2 * UNIT^2, so its root is under 15000, while the
            // scaled dividend is UNIT * UNIT.
            let m = norm2(dir_x as int, UNIT as int);
            lemma_isqrt_bounds(m as nat);
            let n = isqrt_int(m);
            if n >= 15000 {
                assert(n * n >= 15000 * 15000) by (nonlinear_arith)
                    requires
                        n >= 15000,
                ;
                assert(false);
            }
            if n < 10000 {
                assert((n + 1) * (n + 1) <= 10000 * 10000) by (nonlinear_arith)
                    requires
                        0 <= n,
                        n + 1 <= 10000,
                ;
                assert(false);
            }
            lemma_fundamental_div_mod(100_000_000, n);
            assert(vel.y == tdiv(10000 * (UNIT as int), n));
            assert(10000 * (UNIT as int) == 100_000_000);
            assert(vel.y == 100_000_000int / n);
            if vel.y == 0 {
                assert(100_000_000int == n * 0 + 100_000_000int % n);
                assert(false);
            }
            assert(vel.y >= 1);
        }
        Ball { circle: Circle { x: pos.x, y: pos.y, r: ball_radius }, vel, ball_radius, ball_speed }
    }

    /// Build a ball at `pos` with a randomly slanted downward direction.
    pub fn new(pos: Vec2i, screen_w: i64, screen_h: i64) -> (b: Ball)
        requires
            screen_ok(screen_w as int, screen_h as int),
            -1_000_000_000 <= pos.x <= 1_000_000_000,
            -1_000_000_000 <= pos.y <= 1_000_000_000,
        ensures
            b.circle.x == pos.x,
            b.circle.y == pos.y,
            b.circle.r == (screen_w + screen_h) * 2 / 100,
            b.ball_radius == b.circle.r,
            b.ball_speed == screen_h * 84 / 100,
            is_unit(b.vel.x as int, b.vel.y as int),
            vel_ok(b.vel),
            b.vel.y >= 1,
            ball_wf(b, screen_w as int, screen_h as int),
    {
        let dir_x = gen_range_i64(-10000, 10000);
        Ball::from_dir(pos, dir_x, screen_w, screen_h)
    }
}

/// The integer square root of a squared length, as an `int` for proofs.
pub open spec fn isqrt_int(m: int) -> int {
    crate::unitvec::isqrt_spec(m as nat) as int
}

} // verus!
