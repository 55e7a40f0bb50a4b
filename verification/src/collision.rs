use vstd::prelude::*;
use crate::geom::{overlap_rect, rect_intersection, rect_wf, rects_overlap, sgn, Circle, Rect,
    Vec2i};
use crate::unitvec::{is_unit, norm2, rotate15, rotated_unit, vel_ok};

verus! {

/// The ball is tested against rectangles through its bounding square: side
/// 1.8 radii, anchored one radius up and left of the centre.
pub open spec fn ball_square(c: Circle) -> Rect {
    Rect { x: (c.x - c.r) as i64, y: (c.y - c.r) as i64, w: (c.r * 18 / 10) as i64, h: (c.r * 18 / 10) as i64 }
}

/// Whether the ball's bounding square overlaps the object.
pub open spec fn hits(c: Circle, o: Rect) -> bool {
    rects_overlap(ball_square(c), o)
}

pub open spec fn obj_center_x(o: Rect) -> int {
    o.x + o.w / 2
}

pub open spec fn obj_center_y(o: Rect) -> int {
    o.y + o.h / 2
}

pub open spec fn iabs(a: int) -> int {
    if a >= 0 {
        a
    } else {
        -a
    }
}

/// The perturbation step: a ball falling near-vertically (downward
/// component above 0.8) is rotated by just under 15 degrees, away from the
/// side of the object its centre is on, so it cannot settle into a vertical
/// loop.
pub open spec fn perturbed_vel(c: Circle, v: Vec2i, o: Rect) -> Vec2i {
    if v.y > 8000 {
        if c.x < obj_center_x(o) {
            rotated_unit(v, true)
        } else {
            rotated_unit(v, false)
        }
    } else {
        v
    }
}

/// Where the ball centre is pushed on a hit: out along the shorter axis of
/// the overlap, away from the object centre. A strictly wider-than-tall
/// overlap resolves vertically; ties resolve horizontally.
pub open spec fn resolved_circle(c: Circle, o: Rect) -> Circle {
    let inter = overlap_rect(ball_square(c), o);
    let sx = sgn(obj_center_x(o) - c.x);
    let sy = sgn(obj_center_y(o) - c.y);
    if inter.w > inter.h {
        Circle { x: c.x, y: (c.y - sy * inter.h) as i64, r: c.r }
    } else {
        Circle { x: (c.x - sx * inter.w) as i64, y: c.y, r: c.r }
    }
}

/// The velocity after a hit: perturbed if falling near-vertically, then the
/// component on the resolution axis forced to point away from the object.
pub open spec fn resolved_vel(c: Circle, v: Vec2i, o: Rect) -> Vec2i {
    let inter = overlap_rect(ball_square(c), o);
    let sx = sgn(obj_center_x(o) - c.x);
    let sy = sgn(obj_center_y(o) - c.y);
    let p = perturbed_vel(c, v, o);
    if inter.w > inter.h {
        Vec2i {
            x: p.x,
            y: if sy > 0 {
                (-iabs(p.y as int)) as i64
            } else {
                iabs(p.y as int) as i64
            },
        }
    } else {
        Vec2i {
            x: if sx < 0 {
                iabs(p.x as int) as i64
            } else {
                (-iabs(p.x as int)) as i64
            },
            y: p.y,
        }
    }
}

/// Resolve the ball against an axis-aligned rectangle. Without an overlap
/// nothing is touched and the call reports false; on an overlap the ball is
/// pushed out of the object, its velocity is reflected (and possibly
/// perturbed first), and the call reports true. The velocity keeps its
/// unit length: reflections flip signs only, and the perturbation
/// renormalizes.
#[verifier::rlimit(100)]
pub fn resolve_collision(ball: &mut Circle, vel: &mut Vec2i, object: &Rect) -> (hit: bool)
    requires
        vel_ok(*old(vel)),
        1 <= old(ball).r <= 1_000_000_000,
        -4_000_000_000_000 <= old(ball).x <= 4_000_000_000_000,
        -4_000_000_000_000 <= old(ball).y <= 4_000_000_000_000,
        rect_wf(*object),
    ensures
        hit == hits(*old(ball), *object),
        !hit ==> *final(ball) == *old(ball) && *final(vel) == *old(vel),
        hit ==> *final(ball) == resolved_circle(*old(ball), *object),
        hit ==> *final(vel) == resolved_vel(*old(ball), *old(vel), *object),
        vel_ok(*final(vel)),
        is_unit(old(vel).x as int, old(vel).y as int) ==> is_unit(
            final(vel).x as int,
            final(vel).y as int,
        ),
        hit ==> object.x - 3 * old(ball).r <= final(ball).x <= object.x + object.w + 3 * old(
            ball,
        ).r,
        hit ==> object.y - 3 * old(ball).r <= final(ball).y <= object.y + object.h + 3 * old(
            ball,
        ).r,
        final(ball).r == old(ball).r,
{
    let br = Rect { x: ball.x - ball.r, y: ball.y - ball.r, w: ball.r * 18 / 10, h: ball.r * 18
        / 10 };
    proof {
        assert(br == ball_square(*ball));
        assert(rect_wf(br));
    }
    let inter = match rect_intersection(&br, object) {
        Some(inter) => inter,
        None => {
            return false;
        },
    };
    let ocx = object.x + object.w / 2;
    let ocy = object.y + object.h / 2;
    let sx: i64 = if ocx - ball.x > 0 {
        1
    } else if ocx - ball.x < 0 {
        -1
    } else {
        0
    };
    let sy: i64 = if ocy - ball.y > 0 {
        1
    } else if ocy - ball.y < 0 {
        -1
    } else {
        0
    };
    if vel.y > 8000 {
        if ball.x < ocx {
            *vel = rotate15(*vel, true);
        } else {
            *vel = rotate15(*vel, false);
        }
    }
    proof {
        assert(*vel == perturbed_vel(*old(ball), *old(vel), *object));
        if is_unit(old(vel).x as int, old(vel).y as int) {
            if old(vel).y <= 8000 {
                assert(*vel == *old(vel));
            }
        }
    }
    let ghost pvel = *vel;
    proof {
        assert(0 <= inter.w <= br.w && 0 <= inter.h <= br.h);
        assert(-inter.h <= sy * inter.h <= inter.h) by (nonlinear_arith)
            requires
                -1 <= sy <= 1,
                0 <= inter.h,
        ;
        assert(-inter.w <= sx * inter.w <= inter.w) by (nonlinear_arith)
            requires
                -1 <= sx <= 1,
                0 <= inter.w,
        ;
    }
    if inter.w > inter.h {
        ball.y = ball.y - sy * inter.h;
        let m = if vel.y >= 0 {
            vel.y
        } else {
            -vel.y
        };
        if sy > 0 {
            vel.y = -m;
        } else {
            vel.y = m;
        }
        proof {
            lemma_flip_norm(pvel.x as int, pvel.y as int, m as int, vel.y as int);
        }
    } else {
        ball.x = ball.x - sx * inter.w;
        let m = if vel.x >= 0 {
            vel.x
        } else {
            -vel.x
        };
        if sx < 0 {
            vel.x = m;
        } else {
            vel.x = -m;
        }
        proof {
            lemma_flip_norm(pvel.y as int, pvel.x as int, m as int, vel.x as int);
        }
    }
    true
}

/// Replacing a component by plus or minus its own magnitude leaves the
/// squared length unchanged.
proof fn lemma_flip_norm(keep: int, orig: int, m: int, flipped: int)
    requires
        m == iabs(orig),
        flipped == m || flipped == -m,
    ensures
        norm2(keep, flipped) == norm2(keep, orig),
        norm2(flipped, keep) == norm2(orig, keep),
        iabs(flipped) == m,
{
    assert(flipped * flipped == orig * orig) by (nonlinear_arith)
        requires
            flipped == orig || flipped == -orig,
    ;
}

} // verus!
