use vstd::prelude::*;
use crate::geom::{Rect, Vec2i};
use crate::unitvec::{tdiv, tdiv_exec};
use crate::PX;

verus! {

/// The paddle: a rectangle that slides along the bottom of the screen.
#[derive(Clone, Copy, PartialEq, Eq, Structural, Debug)]
pub struct Player {
    pub rect: Rect,
    pub player_size: Vec2i,
    pub player_speed: i64,
}

/// A paddle in a sane state for its screen: inside the horizontal range,
/// sized consistently, at a fixed height near the bottom.
pub open spec fn player_wf(p: Player, sw: int, sh: int) -> bool {
    &&& p.player_size == (Vec2i { x: p.rect.w, y: p.rect.h })
    &&& 1 <= p.rect.w <= sw
    &&& 1 <= p.rect.h <= sh
    &&& 0 <= p.rect.x
    &&& p.rect.x + p.rect.w <= sw
    &&& 0 <= p.rect.y <= sh
    &&& 0 <= p.player_speed <= sw
}

/// The horizontal intent of the input: left and right cancel out.
pub open spec fn move_dir(left: bool, right: bool) -> int {
    if left && !right {
        -1int
    } else if right && !left {
        1int
    } else {
        0int
    }
}

pub open spec fn clamped(x: int, max: int) -> int {
    if x < 0 {
        0
    } else if x > max {
        max
    } else {
        x
    }
}

/// Where the paddle ends up after one unfrozen frame of input.
pub open spec fn player_moved_x(p: Player, dt: int, left: bool, right: bool, sw: int) -> int {
    clamped(p.rect.x + tdiv(move_dir(left, right) * p.player_speed * dt, 1000), sw - p.rect.w)
}

/// The paddle a round starts (and a lost life restarts) with: centred,
/// sized from the screen, 100 pixels up from the bottom.
pub open spec fn default_player(sw: int, sh: int) -> Player {
    let w = sw * 15 / 100;
    let h = sh * 5 / 100;
    Player {
        rect: Rect {
            x: (sw / 2 - w / 2) as i64,
            y: (sh - 100 * (PX as int)) as i64,
            w: w as i64,
            h: h as i64,
        },
        player_size: Vec2i { x: w as i64, y: h as i64 },
        player_speed: (sw * 95 / 100) as i64,
    }
}

impl Player {
    /// A fresh paddle, centred, sized from the screen, 100 pixels up from
    /// the bottom.
    pub fn new(screen_w: i64, screen_h: i64) -> (p: Player)
        requires
            crate::screen_ok(screen_w as int, screen_h as int),
        ensures
            p == default_player(screen_w as int, screen_h as int),
            player_wf(p, screen_w as int, screen_h as int),
    {
        let w = screen_w * 15 / 100;
        let h = screen_h * 5 / 100;
        Player {
            rect: Rect { x: screen_w / 2 - w / 2, y: screen_h - 100 * PX, w, h },
            player_size: Vec2i { x: w, y: h },
            player_speed: screen_w * 95 / 100,
        }
    }

    /// Move the paddle by one frame of input, unless the freeze window is
    /// still open; returns whether it was frozen. While frozen the paddle
    /// ignores input entirely and does not move.
    pub fn update(
        &mut self,
        dt_ms: i64,
        now_ms: u64,
        frozen_until_ms: u64,
        left: bool,
        right: bool,
        screen_w: i64,
    ) -> (frozen: bool)
        requires
            player_wf(*old(self), screen_w as int, 1_000_000_000),
            0 <= dt_ms <= crate::DT_MAX,
            0 < screen_w <= 1_000_000_000,
        ensures
            frozen == (now_ms < frozen_until_ms),
            frozen ==> *final(self) == *old(self),
            !frozen ==> *final(self) == (Player {
                rect: Rect {
                    x: player_moved_x(*old(self), dt_ms as int, left, right, screen_w as int)
                        as i64,
                    y: old(self).rect.y,
                    w: old(self).rect.w,
                    h: old(self).rect.h,
                },
                player_size: old(self).player_size,
                player_speed: old(self).player_speed,
            }),
            0 <= final(self).rect.x,
            final(self).rect.x + final(self).rect.w <= screen_w,
    {
        if now_ms < frozen_until_ms {
            return true;
        }
        let dir: i64 = if left && !right {
            -1
        } else if right && !left {
            1
        } else {
            0
        };
        proof {
            let sp = self.player_speed as int;
            assert(-1_000_000_000 <= dir * sp <= 1_000_000_000) by (nonlinear_arith)
                requires
                    -1 <= dir <= 1,
                    0 <= sp <= 1_000_000_000,
            ;
            assert(-(sp * dt_ms) <= dir * sp * dt_ms <= sp * dt_ms) by (nonlinear_arith)
                requires
                    -1 <= dir <= 1,
                    0 <= sp,
                    0 <= dt_ms,
            ;
            assert(sp * dt_ms <= 460_000_000_000_000) by (nonlinear_arith)
                requires
                    0 <= sp <= 1_000_000_000,
                    0 <= dt_ms <= 460_000,
            ;
            crate::unitvec::lemma_tdiv_sign_bound(dir * sp * dt_ms, 1000, sp * dt_ms);
            assert(sp * dt_ms * 1000 >= sp * dt_ms) by (nonlinear_arith)
                requires
                    sp * dt_ms >= 0,
            ;
        }
        let dx = tdiv_exec(dir * self.player_speed * dt_ms, 1000);
        self.rect.x = self.rect.x + dx;
        if self.rect.x < 0 {
            self.rect.x = 0;
        }
        if self.rect.x > screen_w - self.rect.w {
            self.rect.x = screen_w - self.rect.w;
        }
        false
    }
}

} // verus!
