use vstd::prelude::*;
use vstd::arithmetic::div_mod::lemma_fundamental_div_mod;
use crate::ball::{ball_in_play, ball_wf, play_margin, Ball};
use crate::block::{block_wf, is_damaged_block, Block, BlockType};
use crate::collision::resolve_collision;
use crate::geom::{Circle, Rect, Vec2i};
use crate::player::{default_player, player_moved_x, player_wf, Player};
use crate::rng::gen_range_i64;
use crate::unitvec::{is_unit, vel_ok};
use crate::{screen_ok, PX};

verus! {

/// The top-level mode of the program: the menu, live play, and the three
/// pauses play can end in.
#[derive(Clone, Copy, PartialEq, Eq, Structural, Debug)]
pub enum GameState {
    Menu,
    Game,
    LostLife,
    Died,
    Win,
}

/// The whole round state the frame driver owns: mode, bookkeeping, the
/// paddle, and the two entity collections.
pub struct Game {
    pub state: GameState,
    pub score: i64,
    pub player_lives: i64,
    pub frozen_until: u64,
    pub player: Player,
    pub blocks: Vec<Block>,
    pub balls: Vec<Ball>,
    pub screen_w: i64,
    pub screen_h: i64,
}

/// How many columns the board has: as many padded blocks as fit in 80% of
/// the screen width.
pub open spec fn grid_width(sw: int) -> int {
    let bw = sw / 10;
    let t = bw + bw * 5 / 100;
    sw * 4 / (t * 5)
}

/// How many rows the board has: as many padded blocks as fit in 40% of the
/// screen height (the padding follows the block width).
pub open spec fn grid_height(sw: int, sh: int) -> int {
    let bw = sw / 10;
    let bh = sh / 20;
    let t = bh + bw * 5 / 100;
    sh * 2 / (t * 5)
}

/// Every ball in the active set is sound and in play.
pub open spec fn balls_ok(balls: Seq<Ball>, sw: int, sh: int) -> bool {
    forall|i: int|
        0 <= i < balls.len() ==> ball_wf(#[trigger] balls[i], sw, sh) && ball_in_play(
            balls[i],
            sw,
            sh,
        )
}

/// Every block in the active set is sound (in particular still alive).
pub open spec fn blocks_ok(blocks: Seq<Block>, sw: int, sh: int) -> bool {
    forall|i: int| 0 <= i < blocks.len() ==> block_wf(#[trigger] blocks[i], sw, sh)
}

/// `b` descends from one of the blocks of `older`: same block, possibly
/// with lives knocked off.
pub open spec fn has_ancestor(b: Block, older: Seq<Block>) -> bool {
    exists|j: int| 0 <= j < older.len() && is_damaged_block(b, older[j])
}

/// The active set `new` descends from `older`: every block in it is one of
/// the older blocks, possibly with lives knocked off, and nothing else about
/// it changed.
pub open spec fn blocks_damaged_from(new: Seq<Block>, older: Seq<Block>) -> bool {
    forall|i: int| 0 <= i < new.len() ==> has_ancestor(#[trigger] new[i], older)
}

pub proof fn lemma_damaged_refl(s: Seq<Block>)
    ensures
        blocks_damaged_from(s, s),
{
    assert forall|i: int| 0 <= i < s.len() implies has_ancestor(#[trigger] s[i], s) by {
        assert(0 <= i < s.len() && is_damaged_block(s[i], s[i]));
    }
}

pub proof fn lemma_damaged_trans(a: Seq<Block>, b: Seq<Block>, c: Seq<Block>)
    requires
        blocks_damaged_from(a, b),
        blocks_damaged_from(b, c),
    ensures
        blocks_damaged_from(a, c),
{
    assert forall|i: int| 0 <= i < a.len() implies has_ancestor(#[trigger] a[i], c) by {
        assert(has_ancestor(a[i], b));
        let j = choose|j: int| 0 <= j < b.len() && is_damaged_block(a[i], b[j]);
        assert(has_ancestor(b[j], c));
        let k = choose|k: int| 0 <= k < c.len() && is_damaged_block(b[j], c[k]);
        assert(0 <= k < c.len() && is_damaged_block(a[i], c[k]));
    }
}

pub proof fn lemma_damaged_remove(s: Seq<Block>, idx: int)
    requires
        0 <= idx < s.len(),
    ensures
        blocks_damaged_from(s.remove(idx), s),
{
    let r = s.remove(idx);
    assert forall|i: int| 0 <= i < r.len() implies has_ancestor(#[trigger] r[i], s) by {
        if i < idx {
            assert(0 <= i < s.len() && is_damaged_block(r[i], s[i]));
        } else {
            assert(0 <= i + 1 < s.len() && is_damaged_block(r[i], s[i + 1]));
        }
    }
}

pub proof fn lemma_damaged_set(s: Seq<Block>, idx: int, b: Block)
    requires
        0 <= idx < s.len(),
        is_damaged_block(b, s[idx]),
    ensures
        blocks_damaged_from(s.update(idx, b), s),
{
    let r = s.update(idx, b);
    assert forall|i: int| 0 <= i < r.len() implies has_ancestor(#[trigger] r[i], s) by {
        if i == idx {
            assert(0 <= idx < s.len() && is_damaged_block(r[i], s[idx]));
        } else {
            assert(0 <= i < s.len() && is_damaged_block(r[i], s[i]));
        }
    }
}

/// The total score value held in a block sequence.
pub open spec fn score_sum(s: Seq<Block>) -> int
    decreases s.len(),
{
    if s.len() == 0 {
        0
    } else {
        s[0].score + score_sum(s.drop_first())
    }
}

/// How many blocks of the sequence are of the given kind.
pub open spec fn kind_count(s: Seq<Block>, t: BlockType) -> int
    decreases s.len(),
{
    if s.len() == 0 {
        0
    } else {
        (if s[0].block_type == t {
            1int
        } else {
            0int
        }) + kind_count(s.drop_first(), t)
    }
}

/// How many blocks spawn a ball when destroyed: both special kinds do.
pub open spec fn special_count(s: Seq<Block>) -> int {
    kind_count(s, BlockType::SpawnBall) + kind_count(s, BlockType::FreezePlayer)
}

pub proof fn lemma_score_sum_remove(s: Seq<Block>, i: int)
    requires
        0 <= i < s.len(),
    ensures
        score_sum(s.remove(i)) == score_sum(s) - s[i].score,
    decreases s.len(),
{
    if i == 0 {
        assert(s.remove(0) =~= s.drop_first());
    } else {
        lemma_score_sum_remove(s.drop_first(), i - 1);
        assert(s.remove(i).drop_first() =~= s.drop_first().remove(i - 1));
        assert(s.remove(i)[0] == s[0]);
    }
}

pub proof fn lemma_score_sum_update(s: Seq<Block>, i: int, b: Block)
    requires
        0 <= i < s.len(),
    ensures
        score_sum(s.update(i, b)) == score_sum(s) - s[i].score + b.score,
    decreases s.len(),
{
    if i == 0 {
        assert(s.update(0, b).drop_first() =~= s.drop_first());
        assert(s.update(0, b)[0] == b);
    } else {
        lemma_score_sum_update(s.drop_first(), i - 1, b);
        assert(s.update(i, b).drop_first() =~= s.drop_first().update(i - 1, b));
        assert(s.update(i, b)[0] == s[0]);
    }
}

pub proof fn lemma_kind_count_remove(s: Seq<Block>, i: int, t: BlockType)
    requires
        0 <= i < s.len(),
    ensures
        kind_count(s.remove(i), t) == kind_count(s, t) - (if s[i].block_type == t {
            1int
        } else {
            0int
        }),
    decreases s.len(),
{
    if i == 0 {
        assert(s.remove(0) =~= s.drop_first());
    } else {
        lemma_kind_count_remove(s.drop_first(), i - 1, t);
        assert(s.remove(i).drop_first() =~= s.drop_first().remove(i - 1));
        assert(s.remove(i)[0] == s[0]);
    }
}

pub proof fn lemma_kind_count_update(s: Seq<Block>, i: int, b: Block, t: BlockType)
    requires
        0 <= i < s.len(),
    ensures
        kind_count(s.update(i, b), t) == kind_count(s, t) - (if s[i].block_type == t {
            1int
        } else {
            0int
        }) + (if b.block_type == t {
            1int
        } else {
            0int
        }),
    decreases s.len(),
{
    if i == 0 {
        assert(s.update(0, b).drop_first() =~= s.drop_first());
        assert(s.update(0, b)[0] == b);
    } else {
        lemma_kind_count_update(s.drop_first(), i - 1, b, t);
        assert(s.update(i, b).drop_first() =~= s.drop_first().update(i - 1, b));
        assert(s.update(i, b)[0] == s[0]);
    }
}

/// A ball queued by a destroyed special block: it sits at the corner of a
/// special block of the set, with a unit-length downward velocity.
pub open spec fn spawned_from_block(b: Ball, blocks: Seq<Block>) -> bool {
    &&& is_unit(b.vel.x as int, b.vel.y as int)
    &&& b.vel.y >= 1
    &&& exists|j: int|
        0 <= j < blocks.len() && blocks[j].block_type != BlockType::Regular && b.circle.x
            == blocks[j].rect.x && b.circle.y == blocks[j].rect.y
}

/// A ball built at the corner of a special block of `cur` (a set that
/// descends from `older`) is a genuine spawn against `older` too: the
/// ancestor has the same corner and kind.
proof fn lemma_spawn_certificate(nb: Ball, cur: Seq<Block>, bi: int, older: Seq<Block>)
    requires
        0 <= bi < cur.len(),
        cur[bi].block_type != BlockType::Regular,
        nb.circle.x == cur[bi].rect.x,
        nb.circle.y == cur[bi].rect.y,
        is_unit(nb.vel.x as int, nb.vel.y as int),
        nb.vel.y >= 1,
        blocks_damaged_from(cur, older),
    ensures
        spawned_from_block(nb, older),
{
    assert(has_ancestor(cur[bi], older));
    let k = choose|k: int| 0 <= k < older.len() && is_damaged_block(cur[bi], older[k]);
    assert(0 <= k < older.len() && older[k].block_type != BlockType::Regular && nb.circle.x
        == older[k].rect.x && nb.circle.y == older[k].rect.y);
}

/// A spawn certificate against the current blocks is also one against any
/// set they descend from: the ancestor has the same corner and kind.
pub proof fn lemma_spawned_mono(b: Ball, newer: Seq<Block>, older: Seq<Block>)
    requires
        spawned_from_block(b, newer),
        blocks_damaged_from(newer, older),
    ensures
        spawned_from_block(b, older),
{
    let j = choose|j: int|
        0 <= j < newer.len() && newer[j].block_type != BlockType::Regular && b.circle.x
            == newer[j].rect.x && b.circle.y == newer[j].rect.y;
    assert(has_ancestor(newer[j], older));
    let k = choose|k: int| 0 <= k < older.len() && is_damaged_block(newer[j], older[k]);
    assert(0 <= k < older.len() && older[k].block_type != BlockType::Regular && b.circle.x
        == older[k].rect.x && b.circle.y == older[k].rect.y);
}

/// One genuine resolution step: the ball's bounding square overlapped `o`,
/// and position and velocity changed exactly as the collision resolver
/// says.
pub open spec fn resolve_step(c0: Circle, v0: Vec2i, c1: Circle, v1: Vec2i, o: Rect) -> bool {
    &&& crate::collision::hits(c0, o)
    &&& c1 == crate::collision::resolved_circle(c0, o)
    &&& v1 == crate::collision::resolved_vel(c0, v0, o)
}

/// The rectangles a ball may legitimately be resolved against during one
/// tick: the paddle, or a block of the given set.
pub open spec fn allowed_rect(o: Rect, p: Player, blocks: Seq<Block>) -> bool {
    o == p.rect || exists|j: int| 0 <= j < blocks.len() && blocks[j].rect == o
}

/// `(c1, v1)` is reachable from `(c0, v0)` by at most `k` genuine
/// resolution steps, each against the paddle or a block of the set.
pub open spec fn resolve_reach(
    c0: Circle,
    v0: Vec2i,
    c1: Circle,
    v1: Vec2i,
    p: Player,
    blocks: Seq<Block>,
    k: nat,
) -> bool
    decreases k,
{
    if k == 0 {
        c1 == c0 && v1 == v0
    } else {
        resolve_reach(c0, v0, c1, v1, p, blocks, (k - 1) as nat) || exists|
            cm: Circle,
            vm: Vec2i,
            o: Rect,
        |
            allowed_rect(o, p, blocks) && resolve_reach(c0, v0, cm, vm, p, blocks, (k - 1) as nat)
                && #[trigger] resolve_step(cm, vm, c1, v1, o)
    }
}

/// What the tick does to a ball it neither dropped nor skipped: advanced
/// and wall-bounced per `updated_ball`, then transformed by some chain of
/// genuine resolutions against the paddle and the blocks, and nothing else.
pub open spec fn ball_processed(
    b0: Ball,
    b1: Ball,
    dt: int,
    sw: int,
    p: Player,
    blocks: Seq<Block>,
) -> bool {
    &&& b1.circle.r == b0.circle.r
    &&& b1.ball_radius == b0.ball_radius
    &&& b1.ball_speed == b0.ball_speed
    &&& exists|k: nat|
        resolve_reach(
            crate::ball::updated_ball(b0, dt, sw).circle,
            crate::ball::updated_ball(b0, dt, sw).vel,
            b1.circle,
            b1.vel,
            p,
            blocks,
            k,
        )
}

/// A chain over a damaged set is a chain over the set it descends from:
/// every block rectangle it stepped against has an ancestor with the same
/// rectangle.
pub proof fn lemma_reach_mono(
    c0: Circle,
    v0: Vec2i,
    c1: Circle,
    v1: Vec2i,
    p: Player,
    newer: Seq<Block>,
    older: Seq<Block>,
    k: nat,
)
    requires
        resolve_reach(c0, v0, c1, v1, p, newer, k),
        blocks_damaged_from(newer, older),
    ensures
        resolve_reach(c0, v0, c1, v1, p, older, k),
    decreases k,
{
    if k > 0 {
        if resolve_reach(c0, v0, c1, v1, p, newer, (k - 1) as nat) {
            lemma_reach_mono(c0, v0, c1, v1, p, newer, older, (k - 1) as nat);
        } else {
            let (cm, vm, o) = choose|cm: Circle, vm: Vec2i, o: Rect|
                allowed_rect(o, p, newer) && resolve_reach(
                    c0,
                    v0,
                    cm,
                    vm,
                    p,
                    newer,
                    (k - 1) as nat,
                ) && #[trigger] resolve_step(cm, vm, c1, v1, o);
            lemma_reach_mono(c0, v0, cm, vm, p, newer, older, (k - 1) as nat);
            if o != p.rect {
                let j = choose|j: int| 0 <= j < newer.len() && newer[j].rect == o;
                assert(has_ancestor(newer[j], older));
                let t = choose|t: int| 0 <= t < older.len() && is_damaged_block(
                    newer[j],
                    older[t],
                );
                assert(older[t].rect == o);
            }
            assert(allowed_rect(o, p, older));
            assert(resolve_step(cm, vm, c1, v1, o));
        }
    }
}

/// Chains concatenate: a chain to a midpoint followed by a chain onward is
/// one chain.
pub proof fn lemma_reach_concat(
    c0: Circle,
    v0: Vec2i,
    cm: Circle,
    vm: Vec2i,
    c1: Circle,
    v1: Vec2i,
    p: Player,
    blocks: Seq<Block>,
    k1: nat,
    k2: nat,
)
    requires
        resolve_reach(c0, v0, cm, vm, p, blocks, k1),
        resolve_reach(cm, vm, c1, v1, p, blocks, k2),
    ensures
        resolve_reach(c0, v0, c1, v1, p, blocks, (k1 + k2) as nat),
    decreases k2,
{
    if k2 == 0 {
    } else {
        if resolve_reach(cm, vm, c1, v1, p, blocks, (k2 - 1) as nat) {
            lemma_reach_concat(c0, v0, cm, vm, c1, v1, p, blocks, k1, (k2 - 1) as nat);
        } else {
            let (cx, vx, o) = choose|cx: Circle, vx: Vec2i, o: Rect|
                allowed_rect(o, p, blocks) && resolve_reach(
                    cm,
                    vm,
                    cx,
                    vx,
                    p,
                    blocks,
                    (k2 - 1) as nat,
                ) && #[trigger] resolve_step(cx, vx, c1, v1, o);
            lemma_reach_concat(c0, v0, cm, vm, cx, vx, p, blocks, k1, (k2 - 1) as nat);
            assert(resolve_step(cx, vx, c1, v1, o));
        }
    }
}

/// The global invariant of a round.
pub open spec fn game_wf(g: Game) -> bool {
    &&& screen_ok(g.screen_w as int, g.screen_h as int)
    &&& player_wf(g.player, g.screen_w as int, g.screen_h as int)
    &&& 0 <= g.score
    &&& g.score + 3 * g.blocks@.len() <= 1_000_000
    &&& 0 <= g.player_lives <= 6
    &&& g.blocks@.len() <= 400
    &&& g.balls@.len() + g.blocks@.len() <= 500
    &&& balls_ok(g.balls@, g.screen_w as int, g.screen_h as int)
    &&& blocks_ok(g.blocks@, g.screen_w as int, g.screen_h as int)
}

/// The rectangle of the board cell with index `idx`, counting row-major
/// across `grid_width` columns: the board is centred horizontally, starts
/// 50 pixels down, and spaces blocks by a padded cell size.
pub open spec fn grid_cell(sw: int, sh: int, idx: int) -> Rect {
    let bw = sw / 10;
    let bh = sh / 20;
    let pad = bw * 5 / 100;
    let tw = bw + pad;
    let th = bh + pad;
    let w = grid_width(sw);
    let bx = (sw - tw * w) / 2;
    Rect {
        x: (bx + (idx % w) * tw) as i64,
        y: (50 * (PX as int) + (idx / w) * th) as i64,
        w: bw as i64,
        h: bh as i64,
    }
}

/// Where fresh balls are launched: mid-width, a little over half-way down.
pub open spec fn launch_x(sw: int) -> int {
    sw / 2
}

pub open spec fn launch_y(sh: int) -> int {
    sh * 55 / 100
}

impl Game {
    /// Reset the round: a random lives count in [4, 6], a fresh board of
    /// grid_width x grid_height random blocks, score zero, and one launched
    /// ball per life. The mode, paddle and freeze deadline are left alone.
    pub fn create_game(&mut self)
        requires
            screen_ok(old(self).screen_w as int, old(self).screen_h as int),
            player_wf(old(self).player, old(self).screen_w as int, old(self).screen_h as int),
        ensures
            final(self).screen_w == old(self).screen_w,
            final(self).screen_h == old(self).screen_h,
            final(self).state == old(self).state,
            final(self).player == old(self).player,
            final(self).frozen_until == old(self).frozen_until,
            final(self).score == 0,
            4 <= final(self).player_lives <= 6,
            final(self).blocks@.len() == grid_width(old(self).screen_w as int) * grid_height(
                old(self).screen_w as int,
                old(self).screen_h as int,
            ),
            final(self).blocks@.len() > 0,
            final(self).balls@.len() == final(self).player_lives,
            forall|i: int|
                0 <= i < final(self).blocks@.len() ==> (#[trigger] final(self).blocks@[i]).score
                    == final(self).blocks@[i].lives,
            forall|i: int|
                0 <= i < final(self).blocks@.len() ==> (#[trigger] final(self).blocks@[i]).rect
                    == grid_cell(old(self).screen_w as int, old(self).screen_h as int, i),
            forall|i: int|
                0 <= i < final(self).balls@.len() ==> (#[trigger] final(self).balls@[i]).circle.x
                    == launch_x(old(self).screen_w as int) && final(self).balls@[i].circle.y
                    == launch_y(old(self).screen_h as int),
            balls_ok(final(self).balls@, old(self).screen_w as int, old(self).screen_h as int),
            blocks_ok(final(self).blocks@, old(self).screen_w as int, old(self).screen_h as int),
            0 <= final(self).score,
            game_wf(*final(self)),
    {
        let sw = self.screen_w;
        let sh = self.screen_h;
        let lives = gen_range_i64(4, 7);
        self.player_lives = lives;
        self.blocks = Vec::new();
        self.balls = Vec::new();
        let bw = sw / 10;
        let bh = sh / 20;
        let padding = bw * 5 / 100;
        let total_w = bw + padding;
        let total_h = bh + padding;
        proof {
            lemma_fundamental_div_mod(sw as int, 10);
            lemma_fundamental_div_mod(sh as int, 20);
            lemma_fundamental_div_mod(bw as int * 5, 100);
        }
        let width = sw * 4 / (total_w * 5);
        let height = sh * 2 / (total_h * 5);
        proof {
            lemma_fundamental_div_mod(sw as int * 4, total_w as int * 5);
            lemma_fundamental_div_mod(sh as int * 2, total_h as int * 5);
            lemma_grid_bounds(
                sw as int,
                sh as int,
                bw as int,
                bh as int,
                padding as int,
                total_w as int,
                total_h as int,
                width as int,
                height as int,
            );
            assert(width == grid_width(sw as int));
            assert(height == grid_height(sw as int, sh as int));
        }
        proof {
            assert(total_w as int * width as int == width as int * total_w as int)
                by (nonlinear_arith);
        }
        let board_x = (sw - total_w * width) / 2;
        let board_y = 50 * PX;
        proof {
            lemma_fundamental_div_mod(sw as int - total_w as int * width as int, 2);
        }
        let mut row: i64 = 0;
        while row < height
            invariant
                0 <= row <= height,
                self.blocks@.len() == row * width,
                blocks_ok(self.blocks@, sw as int, sh as int),
                forall|i: int|
                    0 <= i < self.blocks@.len() ==> (#[trigger] self.blocks@[i]).score
                        == self.blocks@[i].lives,
                forall|i: int|
                    0 <= i < self.blocks@.len() ==> (#[trigger] self.blocks@[i]).rect
                        == grid_cell(sw as int, sh as int, i),
                self.screen_w == sw,
                self.screen_h == sh,
                self.balls@.len() == 0,
                self.player == old(self).player,
                self.state == old(self).state,
                self.frozen_until == old(self).frozen_until,
                self.player_lives == lives,
                screen_ok(sw as int, sh as int),
                1 <= width <= 8,
                1 <= height <= 8,
                width == grid_width(sw as int),
                height == grid_height(sw as int, sh as int),
                bw == sw / 10,
                bh == sh / 20,
                padding == bw * 5 / 100,
                total_w == bw + padding,
                total_h == bh + padding,
                board_x == (sw - total_w * width) / 2,
                board_y == 50 * PX,
                0 <= board_x,
                width * total_w <= sw,
                50 * (PX as int) + height * total_h + bh <= sh,
                total_w >= bw >= 1,
                total_h >= bh >= 1,
            decreases height - row,
        {
            let mut col: i64 = 0;
            while col < width
                invariant
                    0 <= col <= width,
                    0 <= row < height,
                    self.blocks@.len() == row * width + col,
                    blocks_ok(self.blocks@, sw as int, sh as int),
                    forall|i: int|
                        0 <= i < self.blocks@.len() ==> (#[trigger] self.blocks@[i]).score
                            == self.blocks@[i].lives,
                    forall|i: int|
                        0 <= i < self.blocks@.len() ==> (#[trigger] self.blocks@[i]).rect
                            == grid_cell(sw as int, sh as int, i),
                    self.screen_w == sw,
                    self.screen_h == sh,
                    self.balls@.len() == 0,
                    self.player == old(self).player,
                    self.state == old(self).state,
                    self.frozen_until == old(self).frozen_until,
                    self.player_lives == lives,
                    screen_ok(sw as int, sh as int),
                    1 <= width <= 8,
                    1 <= height <= 8,
                    width == grid_width(sw as int),
                    height == grid_height(sw as int, sh as int),
                    bw == sw / 10,
                    bh == sh / 20,
                    padding == bw * 5 / 100,
                    total_w == bw + padding,
                    total_h == bh + padding,
                    board_x == (sw - total_w * width) / 2,
                    board_y == 50 * PX,
                    0 <= board_x,
                    width * total_w <= sw,
                    50 * (PX as int) + height * total_h + bh <= sh,
                    total_w >= bw >= 1,
                    total_h >= bh >= 1,
                decreases width - col,
            {
                proof {
                    assert(0 <= col * total_w && col * total_w + total_w <= width * total_w)
                        by (nonlinear_arith)
                        requires
                            0 <= col < width,
                            total_w >= 1,
                    ;
                    assert(0 <= row * total_h && row * total_h + total_h <= height * total_h)
                        by (nonlinear_arith)
                        requires
                            0 <= row < height,
                            total_h >= 1,
                    ;
                    lemma_fundamental_div_mod(sw as int - total_w as int * width as int, 2);
                    assert(total_w as int * width as int == width as int * total_w as int)
                        by (nonlinear_arith);
                    assert(2 * board_x <= sw - total_w * width);
                }
                let bx = board_x + col * total_w;
                let by = board_y + row * total_h;
                let blk = Block::new(Vec2i { x: bx, y: by }, sw, sh);
                self.blocks.push(blk);
                proof {
                    assert(row * width + col + 1 == row * width + (col + 1)) by (nonlinear_arith);
                    let idx = row as int * width + col;
                    vstd::arithmetic::div_mod::lemma_fundamental_div_mod_converse_div(
                        idx,
                        width as int,
                        row as int,
                        col as int,
                    );
                    vstd::arithmetic::div_mod::lemma_fundamental_div_mod_converse_mod(
                        idx,
                        width as int,
                        row as int,
                        col as int,
                    );
                    assert(blk.rect == grid_cell(sw as int, sh as int, idx));
                }
                col = col + 1;
            }
            proof {
                assert(row * width + width == (row + 1) * width) by (nonlinear_arith);
            }
            row = row + 1;
        }
        proof {
            assert(self.blocks@.len() == height * width);
            assert(height * width == width * height) by (nonlinear_arith);
            assert(width * height >= 1) by (nonlinear_arith)
                requires
                    width >= 1,
                    height >= 1,
            ;
            assert(width * height <= 64) by (nonlinear_arith)
                requires
                    1 <= width <= 8,
                    1 <= height <= 8,
            ;
        }
        self.score = 0;
        let mut j: i64 = 0;
        while j < lives
            invariant
                0 <= j <= lives,
                4 <= lives <= 6,
                self.balls@.len() == j,
                self.screen_w == sw,
                self.screen_h == sh,
                self.score == 0,
                self.player == old(self).player,
                self.state == old(self).state,
                self.frozen_until == old(self).frozen_until,
                self.player_lives == lives,
                screen_ok(sw as int, sh as int),
                self.blocks@.len() == grid_width(sw as int) * grid_height(sw as int, sh as int),
                1 <= self.blocks@.len() <= 64,
                blocks_ok(self.blocks@, sw as int, sh as int),
                forall|i: int|
                    0 <= i < self.blocks@.len() ==> (#[trigger] self.blocks@[i]).score
                        == self.blocks@[i].lives,
                forall|i: int|
                    0 <= i < self.blocks@.len() ==> (#[trigger] self.blocks@[i]).rect
                        == grid_cell(sw as int, sh as int, i),
                balls_ok(self.balls@, sw as int, sh as int),
                forall|i: int|
                    0 <= i < self.balls@.len() ==> (#[trigger] self.balls@[i]).circle.x
                        == launch_x(sw as int) && self.balls@[i].circle.y == launch_y(sh as int),
            decreases lives - j,
        {
            let b = Ball::new(Vec2i { x: sw / 2, y: sh * 55 / 100 }, sw, sh);
            proof {
                lemma_launch_in_play(b, sw as int, sh as int);
            }
            self.balls.push(b);
            j = j + 1;
        }
    }

    /// A fresh program: menu mode, and a first round already laid out so
    /// the board shows behind the menu text.
    pub fn new(screen_w: i64, screen_h: i64) -> (g: Game)
        requires
            screen_ok(screen_w as int, screen_h as int),
        ensures
            g.state == GameState::Menu,
            g.screen_w == screen_w,
            g.screen_h == screen_h,
            g.frozen_until == 0,
            g.score == 0,
            4 <= g.player_lives <= 6,
            g.blocks@.len() > 0,
            g.balls@.len() == g.player_lives,
            game_wf(g),
    {
        let player = Player::new(screen_w, screen_h);
        let mut g = Game {
            state: GameState::Menu,
            score: 0,
            player_lives: 0,
            frozen_until: 0,
            player,
            blocks: Vec::new(),
            balls: Vec::new(),
            screen_w,
            screen_h,
        };
        g.create_game();
        g
    }

    /// Whether the freeze window a freezing block opened is still holding
    /// the paddle in place at `now_ms`.
    pub fn is_frozen(&self, now_ms: u64) -> (frozen: bool)
        ensures
            frozen == (now_ms < self.frozen_until),
    {
        now_ms < self.frozen_until
    }

    /// The one external signal (the start key): from the menu or a lost
    /// life it (re)enters play, from a finished run it returns to the menu
    /// and lays out a new round, and during play it does nothing.
    pub fn handle_signal(&mut self)
        requires
            game_wf(*old(self)),
        ensures
            game_wf(*final(self)),
            final(self).screen_w == old(self).screen_w,
            final(self).screen_h == old(self).screen_h,
            old(self).state == GameState::Menu || old(self).state == GameState::LostLife
                ==> final(self).state == GameState::Game
                    && final(self).score == old(self).score
                    && final(self).player_lives == old(self).player_lives
                    && final(self).balls == old(self).balls
                    && final(self).blocks == old(self).blocks
                    && final(self).player == old(self).player
                    && final(self).frozen_until == old(self).frozen_until,
            old(self).state == GameState::Game ==> *final(self) == *old(self),
            old(self).state == GameState::Died || old(self).state == GameState::Win
                ==> final(self).state == GameState::Menu
                    && final(self).score == 0
                    && 4 <= final(self).player_lives <= 6
                    && final(self).blocks@.len() > 0
                    && final(self).balls@.len() == final(self).player_lives,
    {
        match self.state {
            GameState::Menu => {
                self.state = GameState::Game;
            },
            GameState::LostLife => {
                self.state = GameState::Game;
            },
            GameState::Game => {
            },
            GameState::Died => {
                self.state = GameState::Menu;
                self.create_game();
            },
            GameState::Win => {
                self.state = GameState::Menu;
                self.create_game();
            },
        }
    }
}

/// What one tick reports back: how many balls drained past the paddle, how
/// many were spawned by destroyed special blocks, and whether the tick cost
/// a life.
#[derive(Clone, Copy, PartialEq, Eq, Structural, Debug)]
pub struct TickReport {
    pub removed: usize,
    pub spawned: usize,
    pub life_lost: bool,
}

impl Game {
    /// Sweep one ball over every live block: resolve each collision, take a
    /// life off a hit block, and on destruction add its score, queue a
    /// spawned ball for the special kinds, open the freeze window for the
    /// freezing kind, and drop the block from the active set at once.
    #[verifier::rlimit(100)]
    #[verifier::loop_isolation(false)]
    fn sweep_blocks(
        &mut self,
        c: &mut Circle,
        v: &mut Vec2i,
        now_ms: u64,
        to_add: &mut Vec<Ball>,
    )
        requires
            screen_ok(old(self).screen_w as int, old(self).screen_h as int),
            blocks_ok(old(self).blocks@, old(self).screen_w as int, old(self).screen_h as int),
            0 <= old(self).score,
            old(self).score + 3 * old(self).blocks@.len() <= 1_000_000,
            balls_ok(old(to_add)@, old(self).screen_w as int, old(self).screen_h as int),
            old(to_add)@.len() <= 500,
            vel_ok(*old(v)),
            1 <= old(c).r,
            4 * old(c).r <= old(self).screen_w,
            4 * old(c).r <= old(self).screen_h,
            -(3 * old(c).r + play_margin(old(self).screen_w as int, old(self).screen_h as int))
                <= old(c).x <= old(self).screen_w + 3 * old(c).r + play_margin(
                old(self).screen_w as int,
                old(self).screen_h as int,
            ),
            -(3 * old(c).r + play_margin(old(self).screen_w as int, old(self).screen_h as int))
                <= old(c).y <= old(self).screen_h + 3 * old(c).r + play_margin(
                old(self).screen_w as int,
                old(self).screen_h as int,
            ),
            old(c).x + old(c).r > old(self).screen_w ==> (old(v).x < 0 || old(c).x <= old(
                self,
            ).screen_w + 3 * old(c).r),
            old(c).x - old(c).r < 0 ==> (old(v).x > 0 || old(c).x >= -(3 * old(c).r)),
            old(c).y - old(c).r < 0 ==> (old(v).y > 0 || old(c).y >= -(3 * old(c).r)),
            now_ms <= 0x1000_0000_0000_0000,
        ensures
            final(self).screen_w == old(self).screen_w,
            final(self).screen_h == old(self).screen_h,
            final(self).state == old(self).state,
            final(self).player == old(self).player,
            final(self).player_lives == old(self).player_lives,
            final(self).balls == old(self).balls,
            final(self).score >= old(self).score,
            0 <= final(self).score,
            final(self).score + 3 * final(self).blocks@.len() <= 1_000_000,
            final(self).blocks@.len() <= old(self).blocks@.len(),
            final(to_add)@.len() + final(self).blocks@.len() <= old(to_add)@.len() + old(
                self,
            ).blocks@.len(),
            final(to_add)@.len() >= old(to_add)@.len(),
            blocks_ok(final(self).blocks@, old(self).screen_w as int, old(self).screen_h as int),
            blocks_damaged_from(final(self).blocks@, old(self).blocks@),
            balls_ok(final(to_add)@, old(self).screen_w as int, old(self).screen_h as int),
            final(self).score + score_sum(final(self).blocks@) == old(self).score + score_sum(
                old(self).blocks@,
            ),
            final(to_add)@.len() + special_count(final(self).blocks@) == old(to_add)@.len()
                + special_count(old(self).blocks@),
            (final(self).frozen_until == old(self).frozen_until
                && kind_count(final(self).blocks@, BlockType::FreezePlayer)
                    == kind_count(old(self).blocks@, BlockType::FreezePlayer))
                || (final(self).frozen_until == now_ms + 1400
                    && kind_count(final(self).blocks@, BlockType::FreezePlayer)
                        < kind_count(old(self).blocks@, BlockType::FreezePlayer)),
            forall|q: int| 0 <= q < old(to_add)@.len() ==> final(to_add)@[q] == old(to_add)@[q],
            forall|q: int|
                old(to_add)@.len() <= q < final(to_add)@.len() ==> spawned_from_block(
                    #[trigger] final(to_add)@[q],
                    old(self).blocks@,
                ),
            vel_ok(*final(v)),
            final(c).r == old(c).r,
            -(3 * old(c).r + play_margin(old(self).screen_w as int, old(self).screen_h as int))
                <= final(c).x <= old(self).screen_w + 3 * old(c).r + play_margin(
                old(self).screen_w as int,
                old(self).screen_h as int,
            ),
            -(3 * old(c).r + play_margin(old(self).screen_w as int, old(self).screen_h as int))
                <= final(c).y <= old(self).screen_h + 3 * old(c).r + play_margin(
                old(self).screen_w as int,
                old(self).screen_h as int,
            ),
            final(c).x + old(c).r > old(self).screen_w ==> (final(v).x < 0 || final(c).x <= old(
                self,
            ).screen_w + 3 * old(c).r),
            final(c).x - old(c).r < 0 ==> (final(v).x > 0 || final(c).x >= -(3 * old(c).r)),
            final(c).y - old(c).r < 0 ==> (final(v).y > 0 || final(c).y >= -(3 * old(c).r)),
            is_unit(old(v).x as int, old(v).y as int) ==> is_unit(
                final(v).x as int,
                final(v).y as int,
            ),
            exists|k: nat|
                resolve_reach(
                    *old(c),
                    *old(v),
                    *final(c),
                    *final(v),
                    old(self).player,
                    old(self).blocks@,
                    k,
                ),
    {
        let sw = self.screen_w;
        let sh = self.screen_h;
        let ghost mut steps: nat = 0;
        let ghost rr = c.r as int;
        let ghost mm = play_margin(sw as int, sh as int);
        let ghost balls_snap = self.balls;
        proof {
            lemma_damaged_refl(self.blocks@);
        }
        let blocks_len = self.blocks.len();
        let mut bi: usize = 0;
        while bi < blocks_len
            invariant
                bi <= blocks_len,
                self.screen_w == sw,
                self.screen_h == sh,
                self.state == old(self).state,
                self.player == old(self).player,
                self.player_lives == old(self).player_lives,
                self.balls == balls_snap,
                self.score >= old(self).score,
                0 <= self.score,
                self.score + 3 * self.blocks@.len() <= 1_000_000,
                self.blocks@.len() <= old(self).blocks@.len(),
                to_add@.len() + self.blocks@.len() <= old(to_add)@.len() + old(
                    self,
                ).blocks@.len(),
                to_add@.len() >= old(to_add)@.len(),
                blocks_ok(self.blocks@, sw as int, sh as int),
                blocks_damaged_from(self.blocks@, old(self).blocks@),
                balls_ok(to_add@, sw as int, sh as int),
                self.score + score_sum(self.blocks@) == old(self).score + score_sum(
                    old(self).blocks@,
                ),
                to_add@.len() + special_count(self.blocks@) == old(to_add)@.len()
                    + special_count(old(self).blocks@),
                (self.frozen_until == old(self).frozen_until && kind_count(
                    self.blocks@,
                    BlockType::FreezePlayer,
                ) == kind_count(old(self).blocks@, BlockType::FreezePlayer)) || (
                self.frozen_until == now_ms + 1400 && kind_count(
                    self.blocks@,
                    BlockType::FreezePlayer,
                ) < kind_count(old(self).blocks@, BlockType::FreezePlayer)),
                forall|q: int| 0 <= q < old(to_add)@.len() ==> to_add@[q] == old(to_add)@[q],
                forall|q: int|
                    old(to_add)@.len() <= q < to_add@.len() ==> spawned_from_block(
                        #[trigger] to_add@[q],
                        old(self).blocks@,
                    ),
                vel_ok(*v),
                c.r == rr,
                -(3 * rr + mm) <= c.x <= sw + 3 * rr + mm,
                -(3 * rr + mm) <= c.y <= sh + 3 * rr + mm,
                c.x + rr > sw ==> (v.x < 0 || c.x <= sw + 3 * rr),
                c.x - rr < 0 ==> (v.x > 0 || c.x >= -(3 * rr)),
                c.y - rr < 0 ==> (v.y > 0 || c.y >= -(3 * rr)),
                is_unit(old(v).x as int, old(v).y as int) ==> is_unit(v.x as int, v.y as int),
                resolve_reach(
                    *old(c),
                    *old(v),
                    *c,
                    *v,
                    old(self).player,
                    old(self).blocks@,
                    steps,
                ),
            decreases blocks_len - bi,
        {
            if bi < self.blocks.len() {
                let ghost cur = self.blocks@;
                let mut blk = self.blocks[bi];
                let ghost cpre = *c;
                let ghost vpre = *v;
                let hit = resolve_collision(c, v, &blk.rect);
                proof {
                    if hit {
                        assert(has_ancestor(cur[bi as int], old(self).blocks@));
                        let t = choose|t: int|
                            0 <= t < old(self).blocks@.len() && is_damaged_block(
                                cur[bi as int],
                                old(self).blocks@[t],
                            );
                        assert(old(self).blocks@[t].rect == blk.rect);
                        assert(allowed_rect(blk.rect, old(self).player, old(self).blocks@));
                        assert(resolve_step(cpre, vpre, *c, *v, blk.rect));
                        steps = steps + 1;
                        assert(resolve_reach(
                            *old(c),
                            *old(v),
                            *c,
                            *v,
                            old(self).player,
                            old(self).blocks@,
                            steps,
                        ));
                    }
                }
                if hit {
                    blk.lives = blk.lives - 1;
                    if blk.lives <= 0 {
                        self.score = self.score + blk.score;
                        if blk.block_type == BlockType::SpawnBall {
                            let nb = Ball::new(Vec2i { x: blk.rect.x, y: blk.rect.y }, sw, sh);
                            proof {
                                lemma_spawn_certificate(nb, cur, bi as int, old(self).blocks@);
                            }
                            to_add.push(nb);
                        }
                        if blk.block_type == BlockType::FreezePlayer {
                            let nb = Ball::new(Vec2i { x: blk.rect.x, y: blk.rect.y }, sw, sh);
                            proof {
                                lemma_spawn_certificate(nb, cur, bi as int, old(self).blocks@);
                            }
                            self.frozen_until = now_ms + 1400;
                            to_add.push(nb);
                        }
                        self.blocks.remove(bi);
                        proof {
                            lemma_damaged_remove(cur, bi as int);
                            lemma_damaged_trans(self.blocks@, cur, old(self).blocks@);
                            lemma_score_sum_remove(cur, bi as int);
                            lemma_kind_count_remove(cur, bi as int, BlockType::FreezePlayer);
                            lemma_kind_count_remove(cur, bi as int, BlockType::SpawnBall);
                        }
                    } else {
                        self.blocks.set(bi, blk);
                        proof {
                            lemma_damaged_set(cur, bi as int, blk);
                            lemma_damaged_trans(self.blocks@, cur, old(self).blocks@);
                            lemma_score_sum_update(cur, bi as int, blk);
                            lemma_kind_count_update(cur, bi as int, blk, BlockType::FreezePlayer);
                            lemma_kind_count_update(cur, bi as int, blk, BlockType::SpawnBall);
                        }
                    }
                }
            }
            bi = bi + 1;
        }
    }

    /// One simulation step of live play: move the paddle, move every ball
    /// and resolve it against the paddle and each live block, apply damage,
    /// scoring and the special effects of destroyed blocks, drop balls that
    /// passed the paddle, and settle the mode. A life is lost exactly when
    /// the last ball of the tick drained and no replacement was spawned;
    /// the score never goes down.
    #[verifier::rlimit(100)]
    #[verifier::loop_isolation(false)]
    pub fn tick(&mut self, dt_ms: i64, now_ms: u64, left: bool, right: bool) -> (r: TickReport)
        requires
            game_wf(*old(self)),
            old(self).state == GameState::Game,
            old(self).player_lives >= 1,
            0 <= dt_ms <= crate::DT_MAX,
            now_ms <= 0x1000_0000_0000_0000,
        ensures
            game_wf(*final(self)),
            final(self).screen_w == old(self).screen_w,
            final(self).screen_h == old(self).screen_h,
            final(self).score >= old(self).score,
            r.life_lost == (old(self).balls@.len() == 1 && r.removed > 0 && r.spawned == 0),
            final(self).player_lives == old(self).player_lives - (if r.life_lost {
                1int
            } else {
                0int
            }),
            r.removed <= old(self).balls@.len(),
            final(self).blocks@.len() <= old(self).blocks@.len(),
            r.spawned + final(self).blocks@.len() <= old(self).blocks@.len(),
            !r.life_lost ==> final(self).balls@.len() == old(self).balls@.len() - r.removed
                + r.spawned,
            r.life_lost ==> final(self).balls@.len() == final(self).player_lives,
            !r.life_lost ==> final(self).player == (if now_ms < old(self).frozen_until {
                old(self).player
            } else {
                Player {
                    rect: Rect {
                        x: player_moved_x(
                            old(self).player,
                            dt_ms as int,
                            left,
                            right,
                            old(self).screen_w as int,
                        ) as i64,
                        y: old(self).player.rect.y,
                        w: old(self).player.rect.w,
                        h: old(self).player.rect.h,
                    },
                    player_size: old(self).player.player_size,
                    player_speed: old(self).player.player_speed,
                }
            }),
            r.life_lost ==> final(self).player == default_player(
                old(self).screen_w as int,
                old(self).screen_h as int,
            ),
            r.life_lost ==> (forall|q: int|
                0 <= q < final(self).balls@.len()
                    ==> (#[trigger] final(self).balls@[q]).circle.x
                        == launch_x(old(self).screen_w as int)
                        && final(self).balls@[q].circle.y
                        == launch_y(old(self).screen_h as int)),
            blocks_damaged_from(final(self).blocks@, old(self).blocks@),
            final(self).score + score_sum(final(self).blocks@) == old(self).score + score_sum(
                old(self).blocks@,
            ),
            r.spawned + special_count(final(self).blocks@) == special_count(old(self).blocks@),
            (final(self).frozen_until == old(self).frozen_until
                && kind_count(final(self).blocks@, BlockType::FreezePlayer)
                    == kind_count(old(self).blocks@, BlockType::FreezePlayer))
                || (final(self).frozen_until == now_ms + 1400
                    && kind_count(final(self).blocks@, BlockType::FreezePlayer)
                        < kind_count(old(self).blocks@, BlockType::FreezePlayer)),
            forall|q: int|
                final(self).balls@.len() - r.spawned <= q < final(self).balls@.len()
                    ==> spawned_from_block(#[trigger] final(self).balls@[q], old(self).blocks@),
            r.removed == 0 && !r.life_lost ==> (forall|q: int|
                0 <= q < old(self).balls@.len() ==> ball_processed(
                    old(self).balls@[q],
                    #[trigger] final(self).balls@[q],
                    dt_ms as int,
                    old(self).screen_w as int,
                    final(self).player,
                    old(self).blocks@,
                )),
            final(self).state == (if final(self).blocks@.len() == 0 {
                GameState::Win
            } else if final(self).player_lives <= 0 {
                GameState::Died
            } else if r.life_lost {
                GameState::LostLife
            } else {
                GameState::Game
            }),
            final(self).frozen_until == old(self).frozen_until || final(self).frozen_until
                == now_ms + 1400,
    {
        let sw = self.screen_w;
        let sh = self.screen_h;
        self.player.update(dt_ms, now_ms, self.frozen_until, left, right, sw);
        let ghost pplayer = self.player;
        proof {
            lemma_damaged_refl(self.blocks@);
        }
        let balls_len = self.balls.len();
        let mut to_add: Vec<Ball> = Vec::new();
        let mut i: usize = 0;
        while i < balls_len
            invariant
                i <= balls_len,
                self.screen_w == sw,
                self.screen_h == sh,
                self.balls@.len() <= balls_len,
                self.state == old(self).state,
                self.player == pplayer,
                self.player_lives == old(self).player_lives,
                self.score >= old(self).score,
                0 <= self.score,
                self.score + 3 * self.blocks@.len() <= 1_000_000,
                self.blocks@.len() <= old(self).blocks@.len(),
                to_add@.len() + self.blocks@.len() <= old(self).blocks@.len(),
                balls_ok(self.balls@, sw as int, sh as int),
                blocks_ok(self.blocks@, sw as int, sh as int),
                blocks_damaged_from(self.blocks@, old(self).blocks@),
                balls_ok(to_add@, sw as int, sh as int),
                self.score + score_sum(self.blocks@) == old(self).score + score_sum(
                    old(self).blocks@,
                ),
                to_add@.len() + special_count(self.blocks@) == special_count(old(self).blocks@),
                (self.frozen_until == old(self).frozen_until
                    && kind_count(self.blocks@, BlockType::FreezePlayer)
                        == kind_count(old(self).blocks@, BlockType::FreezePlayer))
                    || (self.frozen_until == now_ms + 1400
                        && kind_count(self.blocks@, BlockType::FreezePlayer)
                            < kind_count(old(self).blocks@, BlockType::FreezePlayer)),
                forall|q: int|
                    0 <= q < to_add@.len() ==> spawned_from_block(
                        #[trigger] to_add@[q],
                        old(self).blocks@,
                    ),
                self.balls@.len() == balls_len ==> ((forall|s: int|
                    0 <= s < i as int ==> ball_processed(
                        old(self).balls@[s],
                        #[trigger] self.balls@[s],
                        dt_ms as int,
                        sw as int,
                        pplayer,
                        old(self).blocks@,
                    )) && (forall|s: int|
                    i as int <= s < balls_len as int ==> #[trigger] self.balls@[s] == old(
                        self,
                    ).balls@[s])),
            decreases balls_len - i,
        {
            if i < self.balls.len() {
                let mut ball = self.balls[i];
                let ghost b0 = ball;
                ball.update(dt_ms, sw);
                let ghost bu = ball;
                proof {
                    let r = b0.circle.r as int;
                    let m = play_margin(sw as int, sh as int);
                    assert(920 * b0.ball_speed <= m);
                    if b0.vel.x > 0 {
                        assert(b0.circle.x <= sw + 3 * r);
                    }
                    if b0.vel.x < 0 {
                        assert(b0.circle.x >= -(3 * r));
                    }
                    assert(-(3 * r + m) <= ball.circle.x <= sw + 3 * r + m);
                    assert(-(3 * r + m) <= ball.circle.y <= sh + 3 * r + m);
                }
                let mut c = ball.circle;
                let mut v = ball.vel;
                let paddle_hit = resolve_collision(&mut c, &mut v, &self.player.rect);
                proof {
                    assert(resolve_reach(
                        bu.circle,
                        bu.vel,
                        bu.circle,
                        bu.vel,
                        pplayer,
                        old(self).blocks@,
                        0nat,
                    ));
                    if paddle_hit {
                        assert(allowed_rect(self.player.rect, pplayer, old(self).blocks@));
                        assert(resolve_step(bu.circle, bu.vel, c, v, self.player.rect));
                        assert(resolve_reach(
                            bu.circle,
                            bu.vel,
                            c,
                            v,
                            pplayer,
                            old(self).blocks@,
                            1nat,
                        ));
                    } else {
                        assert(resolve_reach(
                            bu.circle,
                            bu.vel,
                            c,
                            v,
                            pplayer,
                            old(self).blocks@,
                            0nat,
                        ));
                    }
                }
                let ghost k0: nat = if paddle_hit {
                    1nat
                } else {
                    0nat
                };
                let ghost cmid = c;
                let ghost vmid = v;
                let ghost bpre = self.blocks@;
                let ghost tpre = to_add@;
                self.sweep_blocks(&mut c, &mut v, now_ms, &mut to_add);
                proof {
                    lemma_damaged_trans(self.blocks@, bpre, old(self).blocks@);
                    assert forall|q: int| 0 <= q < to_add@.len() implies spawned_from_block(
                        #[trigger] to_add@[q],
                        old(self).blocks@,
                    ) by {
                        if q < tpre.len() {
                            assert(to_add@[q] == tpre[q]);
                        } else {
                            lemma_spawned_mono(to_add@[q], bpre, old(self).blocks@);
                        }
                    }
                }
                ball.circle = c;
                ball.vel = v;
                proof {
                    if self.balls@.len() == balls_len {
                        assert(b0 == old(self).balls@[i as int]);
                        assert(bu == crate::ball::updated_ball(b0, dt_ms as int, sw as int));
                        let k2 = choose|k: nat| resolve_reach(cmid, vmid, c, v, pplayer, bpre, k);
                        lemma_reach_mono(cmid, vmid, c, v, pplayer, bpre, old(self).blocks@, k2);
                        lemma_reach_concat(
                            bu.circle,
                            bu.vel,
                            cmid,
                            vmid,
                            c,
                            v,
                            pplayer,
                            old(self).blocks@,
                            k0,
                            k2,
                        );
                        assert(resolve_reach(
                            crate::ball::updated_ball(b0, dt_ms as int, sw as int).circle,
                            crate::ball::updated_ball(b0, dt_ms as int, sw as int).vel,
                            ball.circle,
                            ball.vel,
                            pplayer,
                            old(self).blocks@,
                            (k0 + k2) as nat,
                        ));
                        assert(ball_processed(
                            b0,
                            ball,
                            dt_ms as int,
                            sw as int,
                            pplayer,
                            old(self).blocks@,
                        ));
                    }
                }
                let cutoff = sh - self.player.player_size.y * 11 / 10;
                if ball.circle.y > cutoff {
                    self.balls.remove(i);
                } else {
                    proof {
                        assert(self.player.player_size.y >= 1);
                        assert(cutoff <= sh);
                        assert(ball_wf(ball, sw as int, sh as int));
                        assert(ball_in_play(ball, sw as int, sh as int));
                    }
                    self.balls.set(i, ball);
                }
            }
            i = i + 1;
        }
        let ghost blocks_mid = self.blocks@;
        let ghost score_mid = self.score;
        let ghost frozen_mid = self.frozen_until;
        proof {
            assert(to_add@.len() + blocks_mid.len() <= old(self).blocks@.len());
        }
        let mut was_last_ball = balls_len == 1;
        if to_add.len() > 0 {
            was_last_ball = false;
        }
        let removed = balls_len - self.balls.len();
        let mut life_lost = false;
        if removed > 0 && was_last_ball {
            life_lost = true;
            self.player_lives = self.player_lives - 1;
            self.player = Player::new(sw, sh);
            proof {
                assert(self.balls@.len() == 0);
            }
            let mut j: i64 = 0;
            while j < self.player_lives
                invariant
                    0 <= j <= self.player_lives,
                    self.balls@.len() == j,
                    balls_ok(self.balls@, sw as int, sh as int),
                    forall|q: int|
                        0 <= q < self.balls@.len() ==> (#[trigger] self.balls@[q]).circle.x
                            == launch_x(sw as int) && self.balls@[q].circle.y == launch_y(
                            sh as int,
                        ),
                    self.screen_w == sw,
                    self.screen_h == sh,
                    self.state == old(self).state,
                    self.player == default_player(sw as int, sh as int),
                    player_wf(self.player, sw as int, sh as int),
                    self.player_lives == old(self).player_lives - 1,
                    0 <= self.player_lives <= 5,
                    self.score >= old(self).score,
                    0 <= self.score,
                    self.score + 3 * self.blocks@.len() <= 1_000_000,
                    self.blocks@.len() <= old(self).blocks@.len(),
                    blocks_ok(self.blocks@, sw as int, sh as int),
                    self.blocks@ == blocks_mid,
                    blocks_damaged_from(self.blocks@, old(self).blocks@),
                    self.score == score_mid,
                    self.frozen_until == frozen_mid,
                decreases self.player_lives - j,
            {
                let b = Ball::new(Vec2i { x: sw / 2, y: sh * 55 / 100 }, sw, sh);
                proof {
                    lemma_launch_in_play(b, sw as int, sh as int);
                }
                self.balls.push(b);
                j = j + 1;
            }
            self.state = GameState::LostLife;
        }
        let ghost before_add = self.balls@.len();
        let ghost state_mid = self.state;
        let ghost player_mid = self.player;
        let ghost lives_mid = self.player_lives;
        let mut k: usize = 0;
        while k < to_add.len()
            invariant
                k <= to_add@.len(),
                self.balls@.len() == before_add + k,
                balls_ok(self.balls@, sw as int, sh as int),
                balls_ok(to_add@, sw as int, sh as int),
                life_lost ==> (forall|q: int|
                    0 <= q < self.balls@.len() ==> (#[trigger] self.balls@[q]).circle.x
                        == launch_x(sw as int) && self.balls@[q].circle.y == launch_y(
                        sh as int,
                    )),
                self.screen_w == sw,
                self.screen_h == sh,
                self.state == state_mid,
                self.player == player_mid,
                player_wf(self.player, sw as int, sh as int),
                self.player_lives == lives_mid,
                self.score >= old(self).score,
                0 <= self.score,
                self.score + 3 * self.blocks@.len() <= 1_000_000,
                self.blocks@.len() <= old(self).blocks@.len(),
                blocks_ok(self.blocks@, sw as int, sh as int),
                self.blocks@ == blocks_mid,
                blocks_damaged_from(self.blocks@, old(self).blocks@),
                self.score == score_mid,
                self.frozen_until == frozen_mid,
                forall|t: int| 0 <= t < k ==> self.balls@[before_add + t] == to_add@[t],
                removed == 0 && !life_lost ==> (forall|s: int|
                    0 <= s < before_add ==> ball_processed(
                        old(self).balls@[s],
                        #[trigger] self.balls@[s],
                        dt_ms as int,
                        sw as int,
                        pplayer,
                        old(self).blocks@,
                    )),
            decreases to_add@.len() - k,
        {
            let nb = to_add[k];
            self.balls.push(nb);
            k = k + 1;
        }
        proof {
            assert forall|q: int|
                self.balls@.len() - to_add@.len() <= q < self.balls@.len() implies
                spawned_from_block(#[trigger] self.balls@[q], old(self).blocks@) by {
                let t = q - before_add;
                assert(self.balls@[q] == to_add@[t]);
            }
        }
        if self.blocks.len() == 0 {
            self.state = GameState::Win;
        } else if self.player_lives <= 0 {
            self.state = GameState::Died;
        }
        proof {
            assert(screen_ok(self.screen_w as int, self.screen_h as int));
            assert(player_wf(self.player, self.screen_w as int, self.screen_h as int));
            assert(0 <= self.score);
            assert(self.score + 3 * self.blocks@.len() <= 1_000_000);
            assert(0 <= self.player_lives <= 6);
            assert(self.blocks@.len() <= 400);
            assert(self.balls@.len() + self.blocks@.len() <= 500);
            assert(balls_ok(self.balls@, self.screen_w as int, self.screen_h as int));
            assert(blocks_ok(self.blocks@, self.screen_w as int, self.screen_h as int));
        }
        TickReport { removed, spawned: to_add.len(), life_lost }
    }
}

/// A ball at the launch point is inside the screen with margin to spare.
proof fn lemma_launch_in_play(b: Ball, sw: int, sh: int)
    requires
        screen_ok(sw, sh),
        ball_wf(b, sw, sh),
        b.circle.x == launch_x(sw),
        b.circle.y == launch_y(sh),
        b.vel.y >= 1,
    ensures
        ball_in_play(b, sw, sh),
{
    lemma_fundamental_div_mod(sw, 2);
    lemma_fundamental_div_mod(sh * 55, 100);
}

/// The board always fits: between one and eight columns and rows, inside
/// the middle of the screen.
proof fn lemma_grid_bounds(
    sw: int,
    sh: int,
    bw: int,
    bh: int,
    padding: int,
    total_w: int,
    total_h: int,
    width: int,
    height: int,
)
    requires
        screen_ok(sw, sh),
        bw == sw / 10,
        bh == sh / 20,
        padding == bw * 5 / 100,
        total_w == bw + padding,
        total_h == bh + padding,
        width == sw * 4 / (total_w * 5),
        height == sh * 2 / (total_h * 5),
    ensures
        1 <= width <= 8,
        1 <= height <= 8,
        width * total_w <= sw,
        50 * (PX as int) + height * total_h + bh <= sh,
        total_w >= bw >= 1,
        total_h >= bh >= 1,
{
    lemma_fundamental_div_mod(sw, 10);
    lemma_fundamental_div_mod(sh, 20);
    lemma_fundamental_div_mod(bw * 5, 100);
    assert(10 * bw <= sw < 10 * bw + 10);
    assert(20 * bh <= sh < 20 * bh + 20);
    assert(100 * padding <= bw * 5 < 100 * padding + 100);
    assert(20 * padding <= bw && padding >= 0);
    assert(bw >= 19999);
    assert(bh >= 9999);
    lemma_fundamental_div_mod(sw * 4, total_w * 5);
    lemma_fundamental_div_mod(sh * 2, total_h * 5);
    let dw = total_w * 5;
    let dh = total_h * 5;
    assert(sw * 4 == dw * width + (sw * 4) % dw && 0 <= (sw * 4) % dw < dw);
    assert(sh * 2 == dh * height + (sh * 2) % dh && 0 <= (sh * 2) % dh < dh);
    // Columns: at least one because five padded widths fit in four screens,
    // at most eight because a padded width exceeds a tenth of the screen.
    assert(width >= 1 && width <= 8) by (nonlinear_arith)
        requires
            sw * 4 == (total_w * 5) * width + (sw * 4) % (total_w * 5),
            0 <= (sw * 4) % (total_w * 5) < total_w * 5,
            bw <= total_w,
            20 * padding <= bw,
            padding >= 0,
            total_w == bw + padding,
            10 * bw <= sw < 10 * bw + 10,
            bw >= 19999,
    ;
    assert(height >= 1 && height <= 8) by (nonlinear_arith)
        requires
            sh * 2 == (total_h * 5) * height + (sh * 2) % (total_h * 5),
            0 <= (sh * 2) % (total_h * 5) < total_h * 5,
            bh <= total_h,
            padding >= 0,
            total_h == bh + padding,
            20 * bh <= sh < 20 * bh + 20,
            bh >= 9999,
            20 * padding <= bw,
            10 * bw <= sw,
            sw <= 10 * sh,
    ;
    assert(width * total_w * 5 <= sw * 4) by (nonlinear_arith)
        requires
            sw * 4 == (total_w * 5) * width + (sw * 4) % (total_w * 5),
            0 <= (sw * 4) % (total_w * 5),
    ;
    assert(width * total_w <= sw) by (nonlinear_arith)
        requires
            width * total_w * 5 <= sw * 4,
            sw >= 0,
    ;
    assert(height * total_h * 5 <= sh * 2) by (nonlinear_arith)
        requires
            sh * 2 == (total_h * 5) * height + (sh * 2) % (total_h * 5),
            0 <= (sh * 2) % (total_h * 5),
    ;
    assert(50 * (PX as int) + height * total_h + bh <= sh) by (nonlinear_arith)
        requires
            height * total_h * 5 <= sh * 2,
            total_h >= bh >= 9999,
            height >= 1,
            20 * bh <= sh < 20 * bh + 20,
            sh >= 200_000,
    ;
}

} // verus!
