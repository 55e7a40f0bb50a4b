use vstd::prelude::*;
use crate::geom::{Rect, Vec2i};
use crate::rng::gen_range_i64;

verus! {

/// What destroying a block does beyond scoring.
#[derive(Clone, Copy, PartialEq, Eq, Structural, Debug)]
pub enum BlockType {
    Regular,
    SpawnBall,
    FreezePlayer,
}

/// The named colours a block is drawn with, picked from its kind and its
/// remaining lives.
#[derive(Clone, Copy, PartialEq, Eq, Structural, Debug)]
pub enum BlockColor {
    Green,
    Yellow,
    Red,
    DarkGray,
    DarkBlue,
    Blue,
    Cyan,
    DarkGreen,
    Orange,
    Maroon,
}

/// A destructible block. Its score value is fixed at creation to its
/// starting lives and never changes afterwards.
#[derive(Clone, Copy, PartialEq, Eq, Structural, Debug)]
pub struct Block {
    pub rect: Rect,
    pub lives: i64,
    pub score: i64,
    pub block_type: BlockType,
    pub block_size: Vec2i,
}

/// A block in the active set: still alive, worth at least its remaining
/// lives, and lying inside the screen.
pub open spec fn block_wf(b: Block, sw: int, sh: int) -> bool {
    &&& 1 <= b.lives <= 3
    &&& b.lives <= b.score <= 3
    &&& b.block_size == (Vec2i { x: b.rect.w, y: b.rect.h })
    &&& 1 <= b.rect.w
    &&& 1 <= b.rect.h
    &&& 0 <= b.rect.x
    &&& b.rect.x + b.rect.w <= sw
    &&& 0 <= b.rect.y
    &&& b.rect.y + b.rect.h <= sh
}

/// The kind a block gets from the two weighted dice the constructor rolls:
/// one face in ten freezes (only when a one-in-three sub-roll agrees), one
/// face in ten spawns a ball, the rest are regular.
pub open spec fn kind_of_rolls(kind_roll: int, sub_roll: int) -> BlockType {
    if kind_roll == 3 {
        if sub_roll == 2 {
            BlockType::FreezePlayer
        } else {
            BlockType::Regular
        }
    } else if kind_roll == 2 {
        BlockType::SpawnBall
    } else {
        BlockType::Regular
    }
}

/// The colour table of the renderer: kind picks the palette, remaining
/// lives the shade.
pub open spec fn color_of(t: BlockType, lives: int) -> BlockColor {
    match t {
        BlockType::Regular => if lives == 3 {
            BlockColor::Green
        } else if lives == 2 {
            BlockColor::Yellow
        } else if lives == 1 {
            BlockColor::Red
        } else {
            BlockColor::DarkGray
        },
        BlockType::FreezePlayer => if lives == 3 {
            BlockColor::DarkBlue
        } else if lives == 2 {
            BlockColor::Blue
        } else if lives == 1 {
            BlockColor::Cyan
        } else {
            BlockColor::DarkGray
        },
        BlockType::SpawnBall => if lives == 3 {
            BlockColor::DarkGreen
        } else if lives == 2 {
            BlockColor::Orange
        } else if lives == 1 {
            BlockColor::Maroon
        } else {
            BlockColor::DarkGray
        },
    }
}

/// What damage leaves of a block: the same block, with at most the lives
/// it had; score, kind and shape are untouchable.
pub open spec fn is_damaged_block(x: Block, y: Block) -> bool {
    &&& x.rect == y.rect
    &&& x.score == y.score
    &&& x.block_type == y.block_type
    &&& x.block_size == y.block_size
    &&& x.lives <= y.lives
}

/// One hit taken: a life gone, everything else kept.
pub open spec fn damaged(b: Block) -> Block {
    Block {
        rect: b.rect,
        lives: (b.lives - 1) as i64,
        score: b.score,
        block_type: b.block_type,
        block_size: b.block_size,
    }
}

pub open spec fn damaged_times(b: Block, k: nat) -> Block
    decreases k,
{
    if k == 0 {
        b
    } else {
        damaged(damaged_times(b, (k - 1) as nat))
    }
}

/// A block's score value always equals its initial lives value: however many
/// hits it has taken, the score (and kind and shape) of the damaged block is
/// that of the freshly built one, whose score its constructor pins to its
/// starting lives.
pub proof fn lemma_score_is_initial_lives(b: Block, k: nat)
    requires
        0 <= b.lives <= 3,
        k <= b.lives,
    ensures
        damaged_times(b, k).score == b.score,
        damaged_times(b, k).block_type == b.block_type,
        damaged_times(b, k).rect == b.rect,
        damaged_times(b, k).lives == b.lives - k,
    decreases k,
{
    if k > 0 {
        lemma_score_is_initial_lives(b, (k - 1) as nat);
    }
}

impl Block {
    /// Build a block at `pos` from given dice: deterministic core of `new`.
    pub fn from_rolls(
        pos: Vec2i,
        screen_w: i64,
        screen_h: i64,
        lives_roll: i64,
        kind_roll: i64,
        sub_roll: i64,
    ) -> (b: Block)
        requires
            crate::screen_ok(screen_w as int, screen_h as int),
            1 <= lives_roll <= 3,
            1 <= kind_roll <= 10,
            1 <= sub_roll <= 3,
            0 <= pos.x,
            pos.x + screen_w / 10 <= screen_w,
            0 <= pos.y,
            pos.y + screen_h / 20 <= screen_h,
        ensures
            b.rect == (Rect { x: pos.x, y: pos.y, w: (screen_w / 10) as i64, h: (screen_h / 20) as i64 }),
            b.block_size == (Vec2i { x: (screen_w / 10) as i64, y: (screen_h / 20) as i64 }),
            b.lives == lives_roll,
            b.score == lives_roll,
            b.block_type == kind_of_rolls(kind_roll as int, sub_roll as int),
            block_wf(b, screen_w as int, screen_h as int),
    {
        let w = screen_w / 10;
        let h = screen_h / 20;
        let block_type = if kind_roll == 3 {
            if sub_roll == 2 {
                BlockType::FreezePlayer
            } else {
                BlockType::Regular
            }
        } else if kind_roll == 2 {
            BlockType::SpawnBall
        } else {
            BlockType::Regular
        };
        Block {
            rect: Rect { x: pos.x, y: pos.y, w, h },
            lives: lives_roll,
            score: lives_roll,
            block_type,
            block_size: Vec2i { x: w, y: h },
        }
    }

    /// Build a block at `pos` with random lives in [1, 3] and a randomly
    /// weighted kind, the dice drawn as the board is laid out.
    pub fn new(pos: Vec2i, screen_w: i64, screen_h: i64) -> (b: Block)
        requires
            crate::screen_ok(screen_w as int, screen_h as int),
            0 <= pos.x,
            pos.x + screen_w / 10 <= screen_w,
            0 <= pos.y,
            pos.y + screen_h / 20 <= screen_h,
        ensures
            b.rect == (Rect { x: pos.x, y: pos.y, w: (screen_w / 10) as i64, h: (screen_h / 20) as i64 }),
            b.block_size == (Vec2i { x: (screen_w / 10) as i64, y: (screen_h / 20) as i64 }),
            1 <= b.lives <= 3,
            b.score == b.lives,
            block_wf(b, screen_w as int, screen_h as int),
    {
        let lives_roll = gen_range_i64(1, 4);
        let kind_roll = gen_range_i64(1, 11);
        if kind_roll == 3 {
            let sub_roll = gen_range_i64(1, 4);
            Block::from_rolls(pos, screen_w, screen_h, lives_roll, kind_roll, sub_roll)
        } else {
            Block::from_rolls(pos, screen_w, screen_h, lives_roll, kind_roll, 1)
        }
    }

    /// The colour this block is drawn with.
    pub fn draw_color(&self) -> (c: BlockColor)
        ensures
            c == color_of(self.block_type, self.lives as int),
    {
        match self.block_type {
            BlockType::Regular => if self.lives == 3 {
                BlockColor::Green
            } else if self.lives == 2 {
                BlockColor::Yellow
            } else if self.lives == 1 {
                BlockColor::Red
            } else {
                BlockColor::DarkGray
            },
            BlockType::FreezePlayer => if self.lives == 3 {
                BlockColor::DarkBlue
            } else if self.lives == 2 {
                BlockColor::Blue
            } else if self.lives == 1 {
                BlockColor::Cyan
            } else {
                BlockColor::DarkGray
            },
            BlockType::SpawnBall => if self.lives == 3 {
                BlockColor::DarkGreen
            } else if self.lives == 2 {
                BlockColor::Orange
            } else if self.lives == 1 {
                BlockColor::Maroon
            } else {
                BlockColor::DarkGray
            },
        }
    }
}

} // verus!
