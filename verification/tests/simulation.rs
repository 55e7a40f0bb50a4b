use breakout::ball::Ball;
use breakout::block::{Block, BlockColor, BlockType};
use breakout::collision::resolve_collision;
use breakout::game::{Game, GameState};
use breakout::geom::{rect_intersection, Circle, Rect, Vec2i};
use breakout::player::Player;
use breakout::unitvec::{isqrt, normalize, rotate15};

const SW: i64 = 800_000;
const SH: i64 = 600_000;

fn unit_len_sq(v: Vec2i) -> i64 {
    v.x * v.x + v.y * v.y
}

fn assert_unit(v: Vec2i) {
    let n2 = unit_len_sq(v);
    assert!(9997 * 9997 <= n2 && n2 <= 10003 * 10003, "length^2 was {}", n2);
}

fn far_block(kind: BlockType, lives: i64) -> Block {
    Block {
        rect: Rect { x: 0, y: 50_000, w: 80_000, h: 30_000 },
        lives,
        score: lives,
        block_type: kind,
        block_size: Vec2i { x: 80_000, y: 30_000 },
    }
}

fn game_with(balls: Vec<Ball>, blocks: Vec<Block>, lives: i64, score: i64) -> Game {
    Game {
        state: GameState::Game,
        score,
        player_lives: lives,
        frozen_until: 0,
        player: Player::new(SW, SH),
        blocks,
        balls,
        screen_w: SW,
        screen_h: SH,
    }
}

#[test]
fn isqrt_exact_values() {
    assert_eq!(isqrt(0), 0);
    assert_eq!(isqrt(15), 3);
    assert_eq!(isqrt(16), 4);
    assert_eq!(isqrt(99_980_001), 9999);
    assert_eq!(isqrt(99_999_999), 9999);
    assert_eq!(isqrt(100_000_000), 10000);
}

#[test]
fn normalize_rescales_a_three_four_five_vector() {
    let v = normalize(30_000, 40_000);
    assert_eq!(v, Vec2i { x: 6000, y: 8000 });
    let w = normalize(-30_000, 40_000);
    assert_eq!(w, Vec2i { x: -6000, y: 8000 });
}

#[test]
fn rotate_fifteen_degrees_of_straight_down() {
    let down = Vec2i { x: 0, y: 10_000 };
    let ccw = rotate15(down, true);
    assert_eq!(ccw, Vec2i { x: -2586, y: 9659 });
    assert_unit(ccw);
    let cw = rotate15(down, false);
    assert_eq!(cw, Vec2i { x: 2586, y: 9659 });
    assert_unit(cw);
}

#[test]
fn rect_intersection_overlap_and_touch() {
    let a = Rect { x: 0, y: 0, w: 100, h: 100 };
    let b = Rect { x: 60, y: 40, w: 100, h: 100 };
    assert_eq!(rect_intersection(&a, &b), Some(Rect { x: 60, y: 40, w: 40, h: 60 }));
    // Mere edge contact does not count as an overlap.
    let c = Rect { x: 100, y: 0, w: 50, h: 100 };
    assert_eq!(rect_intersection(&a, &c), None);
    let d = Rect { x: 300, y: 300, w: 10, h: 10 };
    assert_eq!(rect_intersection(&a, &d), None);
}

#[test]
fn resolve_misses_leave_everything_alone() {
    let mut ball = Circle { x: 0, y: 0, r: 100 };
    let mut vel = Vec2i { x: 6000, y: 8000 };
    let object = Rect { x: 1000, y: 1000, w: 50, h: 50 };
    let hit = resolve_collision(&mut ball, &mut vel, &object);
    assert!(!hit);
    assert_eq!(ball, Circle { x: 0, y: 0, r: 100 });
    assert_eq!(vel, Vec2i { x: 6000, y: 8000 });
}

#[test]
fn resolve_wide_overlap_resolves_vertically() {
    // Bounding square of the ball: [-100, 80] x [-100, 80]; the object
    // overlaps it in a strip 20 wide and 5 tall, so the resolution is
    // vertical: y moves by the overlap height away from the object centre,
    // and the vertical velocity is forced to point away.
    let mut ball = Circle { x: 0, y: 0, r: 100 };
    let mut vel = Vec2i { x: 6000, y: 8000 };
    let object = Rect { x: -10, y: 75, w: 20, h: 200 };
    let hit = resolve_collision(&mut ball, &mut vel, &object);
    assert!(hit);
    assert_eq!(ball, Circle { x: 0, y: -5, r: 100 });
    assert_eq!(vel, Vec2i { x: 6000, y: -8000 });
    assert_unit(vel);
}

#[test]
fn resolve_tall_overlap_resolves_horizontally() {
    // Overlap 5 wide and 20 tall; the object sits to the right, so the
    // ball is pushed left and the horizontal velocity forced negative.
    let mut ball = Circle { x: 0, y: 0, r: 100 };
    let mut vel = Vec2i { x: 8000, y: 6000 };
    let object = Rect { x: 75, y: -10, w: 200, h: 20 };
    let hit = resolve_collision(&mut ball, &mut vel, &object);
    assert!(hit);
    assert_eq!(ball, Circle { x: -5, y: 0, r: 100 });
    assert_eq!(vel, Vec2i { x: -8000, y: 6000 });
    assert_unit(vel);
}

#[test]
fn resolve_keeps_velocity_unit_length_when_perturbed() {
    // A near-vertical drop (downward component over 0.8) is rotated before
    // the reflection; the result must still be unit length.
    let mut ball = Circle { x: 0, y: 0, r: 100 };
    let mut vel = Vec2i { x: 0, y: 10_000 };
    let object = Rect { x: -10, y: 75, w: 20, h: 200 };
    let hit = resolve_collision(&mut ball, &mut vel, &object);
    assert!(hit);
    assert_unit(vel);
    assert!(vel.y < 0, "vertical velocity should point away from the object");
    assert!(vel.x != 0, "the perturbation should have added a slant");
}

#[test]
fn ball_update_moves_and_bounces_off_the_left_wall() {
    let mut b = Ball {
        circle: Circle { x: 60_000, y: 100_000, r: 28_000 },
        vel: Vec2i { x: -10_000, y: 0 },
        ball_radius: 28_000,
        ball_speed: 504_000,
    };
    b.update(100, SW);
    // dx = -10000 * 504000 * 100 / 10^7 = -50400.
    assert_eq!(b.circle.x, 9_600);
    assert_eq!(b.circle.y, 100_000);
    // The left edge passed the wall, so the ball is sent rightward.
    assert_eq!(b.vel, Vec2i { x: 10_000, y: 0 });
}

#[test]
fn ball_new_launches_downward_with_unit_velocity() {
    for _ in 0..20 {
        let b = Ball::new(Vec2i { x: 400_000, y: 330_000 }, SW, SH);
        assert_eq!(b.circle.x, 400_000);
        assert_eq!(b.circle.y, 330_000);
        assert_eq!(b.circle.r, (SW + SH) * 2 / 100);
        assert_eq!(b.ball_speed, SH * 84 / 100);
        assert_unit(b.vel);
        assert!(b.vel.y >= 1);
    }
}

#[test]
fn block_from_rolls_kind_table_and_score() {
    let p = Vec2i { x: 100_000, y: 100_000 };
    let b = Block::from_rolls(p, SW, SH, 3, 3, 2);
    assert_eq!(b.block_type, BlockType::FreezePlayer);
    assert_eq!(b.score, 3);
    assert_eq!(b.lives, 3);
    let b = Block::from_rolls(p, SW, SH, 2, 3, 1);
    assert_eq!(b.block_type, BlockType::Regular);
    let b = Block::from_rolls(p, SW, SH, 1, 2, 1);
    assert_eq!(b.block_type, BlockType::SpawnBall);
    assert_eq!(b.score, 1);
    let b = Block::from_rolls(p, SW, SH, 2, 7, 2);
    assert_eq!(b.block_type, BlockType::Regular);
    assert_eq!(b.rect, Rect { x: 100_000, y: 100_000, w: SW / 10, h: SH / 20 });
}

#[test]
fn block_new_score_always_equals_initial_lives() {
    for _ in 0..50 {
        let b = Block::new(Vec2i { x: 100_000, y: 100_000 }, SW, SH);
        assert!(1 <= b.lives && b.lives <= 3);
        assert_eq!(b.score, b.lives);
    }
}

#[test]
fn block_colors_follow_kind_and_lives() {
    let p = Vec2i { x: 0, y: 0 };
    assert_eq!(Block::from_rolls(p, SW, SH, 3, 1, 1).draw_color(), BlockColor::Green);
    assert_eq!(Block::from_rolls(p, SW, SH, 2, 1, 1).draw_color(), BlockColor::Yellow);
    assert_eq!(Block::from_rolls(p, SW, SH, 1, 1, 1).draw_color(), BlockColor::Red);
    assert_eq!(Block::from_rolls(p, SW, SH, 3, 3, 2).draw_color(), BlockColor::DarkBlue);
    assert_eq!(Block::from_rolls(p, SW, SH, 1, 3, 2).draw_color(), BlockColor::Cyan);
    assert_eq!(Block::from_rolls(p, SW, SH, 3, 2, 1).draw_color(), BlockColor::DarkGreen);
    assert_eq!(Block::from_rolls(p, SW, SH, 2, 2, 1).draw_color(), BlockColor::Orange);
    assert_eq!(Block::from_rolls(p, SW, SH, 1, 2, 1).draw_color(), BlockColor::Maroon);
}

#[test]
fn paddle_ignores_input_while_frozen() {
    let mut p = Player::new(SW, SH);
    let before = p.rect;
    // now < freeze deadline: input must be ignored entirely.
    let frozen = p.update(100, 1000, 2000, true, false, SW);
    assert!(frozen);
    assert_eq!(p.rect, before);
    let frozen = p.update(100, 1000, 2000, false, true, SW);
    assert!(frozen);
    assert_eq!(p.rect, before);
}

#[test]
fn paddle_moves_and_clamps_when_not_frozen() {
    let mut p = Player::new(SW, SH);
    let x0 = p.rect.x;
    let frozen = p.update(100, 3000, 2000, false, true, SW);
    assert!(!frozen);
    // dx = 760000 * 100 / 1000 = 76000.
    assert_eq!(p.rect.x, x0 + 76_000);
    // Opposite keys cancel.
    let x1 = p.rect.x;
    assert!(!p.update(100, 3000, 2000, true, true, SW));
    assert_eq!(p.rect.x, x1);
    // A long enough hold clamps at the right edge.
    for _ in 0..20 {
        p.update(1000, 3000, 2000, false, true, SW);
    }
    assert_eq!(p.rect.x, SW - p.rect.w);
    // And back to the left edge.
    for _ in 0..20 {
        p.update(1000, 3000, 2000, true, false, SW);
    }
    assert_eq!(p.rect.x, 0);
}

#[test]
fn new_round_has_four_to_six_lives_and_a_board() {
    for _ in 0..10 {
        let g = Game::new(SW, SH);
        assert!(matches!(g.state, GameState::Menu));
        assert!(4 <= g.player_lives && g.player_lives <= 6);
        assert!(g.blocks.len() > 0);
        assert_eq!(g.balls.len() as i64, g.player_lives);
        assert_eq!(g.score, 0);
        for b in &g.blocks {
            assert!(1 <= b.lives && b.lives <= 3);
            assert_eq!(b.score, b.lives);
            assert!(b.rect.x >= 0 && b.rect.x + b.rect.w <= SW);
            assert!(b.rect.y >= 0 && b.rect.y + b.rect.h <= SH);
        }
        for b in &g.balls {
            assert_unit(b.vel);
        }
    }
}

#[test]
fn signals_drive_the_state_machine() {
    let mut g = Game::new(SW, SH);
    g.handle_signal();
    assert!(matches!(g.state, GameState::Game));
    // A signal during play does nothing.
    g.handle_signal();
    assert!(matches!(g.state, GameState::Game));
    g.state = GameState::LostLife;
    g.handle_signal();
    assert!(matches!(g.state, GameState::Game));
    g.state = GameState::Died;
    g.score = 123;
    g.handle_signal();
    assert!(matches!(g.state, GameState::Menu));
    assert_eq!(g.score, 0);
    assert!(4 <= g.player_lives && g.player_lives <= 6);
    g.state = GameState::Win;
    g.score = 55;
    g.handle_signal();
    assert!(matches!(g.state, GameState::Menu));
    assert_eq!(g.score, 0);
}

#[test]
fn last_ball_draining_costs_a_life() {
    // One ball already past the paddle line, one far-away block: the tick
    // must remove the ball, take a life, repopulate and pause the round.
    let ball = Ball::from_dir(Vec2i { x: 400_000, y: 580_000 }, 0, SW, SH);
    let mut g = game_with(vec![ball], vec![far_block(BlockType::Regular, 2)], 3, 7);
    let r = g.tick(0, 0, false, false);
    assert!(r.life_lost);
    assert_eq!(r.removed, 1);
    assert_eq!(r.spawned, 0);
    assert_eq!(g.player_lives, 2);
    assert!(matches!(g.state, GameState::LostLife));
    assert_eq!(g.balls.len(), 2);
    for b in &g.balls {
        assert_eq!(b.circle.x, SW / 2);
        assert_eq!(b.circle.y, SH * 55 / 100);
    }
    assert_eq!(g.score, 7);
}

#[test]
fn spawning_block_rescues_the_last_ball() {
    // The last ball destroys a ball-spawning block and drains in the same
    // tick: the queued ball keeps the round alive and no life is lost.
    let ball = Ball::from_dir(Vec2i { x: 400_000, y: 580_000 }, 0, SW, SH);
    let low_block = Block {
        rect: Rect { x: 380_000, y: 560_000, w: 80_000, h: 30_000 },
        lives: 1,
        score: 1,
        block_type: BlockType::SpawnBall,
        block_size: Vec2i { x: 80_000, y: 30_000 },
    };
    let mut g = game_with(
        vec![ball],
        vec![low_block, far_block(BlockType::Regular, 2)],
        3,
        0,
    );
    let r = g.tick(0, 0, false, false);
    assert!(!r.life_lost);
    assert_eq!(r.removed, 1);
    assert_eq!(r.spawned, 1);
    assert_eq!(g.player_lives, 3);
    assert!(matches!(g.state, GameState::Game));
    assert_eq!(g.balls.len(), 1);
    assert_eq!(g.blocks.len(), 1);
    assert_eq!(g.score, 1);
}

#[test]
fn clearing_the_board_wins_on_the_same_tick() {
    // Destroying the only block flips the mode to Win at once.
    let ball = Ball {
        circle: Circle { x: 400_000, y: 120_000, r: 28_000 },
        vel: Vec2i { x: 6000, y: 8000 },
        ball_radius: 28_000,
        ball_speed: SH * 84 / 100,
    };
    let block = Block {
        rect: Rect { x: 380_000, y: 100_000, w: 80_000, h: 30_000 },
        lives: 1,
        score: 3,
        block_type: BlockType::Regular,
        block_size: Vec2i { x: 80_000, y: 30_000 },
    };
    let mut g = game_with(vec![ball], vec![block], 3, 10);
    let r = g.tick(0, 0, false, false);
    assert!(matches!(g.state, GameState::Win));
    assert_eq!(g.blocks.len(), 0);
    assert_eq!(g.score, 13);
    assert!(!r.life_lost);
}

#[test]
fn hit_block_keeps_its_score_value() {
    // A two-life block survives a hit with one life left but its score
    // value stays what it was at creation.
    let ball = Ball {
        circle: Circle { x: 400_000, y: 120_000, r: 28_000 },
        vel: Vec2i { x: 6000, y: 8000 },
        ball_radius: 28_000,
        ball_speed: SH * 84 / 100,
    };
    let block = Block {
        rect: Rect { x: 380_000, y: 100_000, w: 80_000, h: 30_000 },
        lives: 2,
        score: 2,
        block_type: BlockType::Regular,
        block_size: Vec2i { x: 80_000, y: 30_000 },
    };
    let mut g = game_with(vec![ball], vec![block], 3, 0);
    g.tick(0, 0, false, false);
    assert_eq!(g.blocks.len(), 1);
    assert_eq!(g.blocks[0].lives, 1);
    assert_eq!(g.blocks[0].score, 2);
    assert_eq!(g.score, 0, "a surviving block scores nothing yet");
}

#[test]
fn score_never_decreases_during_play() {
    let mut g = Game::new(SW, SH);
    g.state = GameState::Game;
    let mut last = g.score;
    for t in 0..200 {
        if !matches!(g.state, GameState::Game) {
            break;
        }
        let now = (t * 16) as u64;
        g.tick(16, now, t % 3 == 0, t % 5 == 0);
        assert!(g.score >= last);
        last = g.score;
        for b in &g.balls {
            let n2 = unit_len_sq(b.vel);
            assert!(n2 >= 9997 * 9997 || b.vel.x.abs() == 10_000 || b.vel.y.abs() == 10_000);
        }
    }
}

#[test]
fn freeze_window_comes_from_a_freezing_block() {
    // Destroying a freezing block opens the freeze window and queues a
    // ball, exactly like a spawning block otherwise.
    let ball = Ball {
        circle: Circle { x: 400_000, y: 120_000, r: 28_000 },
        vel: Vec2i { x: 6000, y: 8000 },
        ball_radius: 28_000,
        ball_speed: SH * 84 / 100,
    };
    let block = Block {
        rect: Rect { x: 380_000, y: 100_000, w: 80_000, h: 30_000 },
        lives: 1,
        score: 1,
        block_type: BlockType::FreezePlayer,
        block_size: Vec2i { x: 80_000, y: 30_000 },
    };
    let mut g = game_with(vec![ball], vec![block, far_block(BlockType::Regular, 3)], 3, 0);
    let r = g.tick(0, 5000, false, false);
    assert_eq!(g.frozen_until, 5000 + 1400);
    assert_eq!(r.spawned, 1);
    assert_eq!(g.balls.len(), 2);
    // While the window is open the paddle will not move.
    let px = g.player.rect.x;
    g.tick(100, 6000, false, true);
    assert_eq!(g.player.rect.x, px);
    // After it closes the paddle moves again.
    g.tick(100, 6500, false, true);
    assert!(g.player.rect.x > px);
}

#[test]
fn board_size_follows_the_screen() {
    // For an 800 x 600 pixel screen: block 80 wide with 4 of padding gives
    // floor(0.8 * 800 / 84) = 7 columns; block 30 tall with the same
    // padding gives floor(0.4 * 600 / 34) = 7 rows.
    let g = Game::new(SW, SH);
    assert_eq!(g.blocks.len(), 49);
    let g2 = Game::new(1_000_000, 1_000_000);
    // Block 100 wide, padding 5: floor(0.8 * 1000 / 105) = 7 columns;
    // block 50 tall, padding 5: floor(0.4 * 1000 / 55) = 7 rows.
    assert_eq!(g2.blocks.len(), 49);
}

#[test]
fn ball_update_bounces_off_right_wall_and_top() {
    let mut b = Ball {
        circle: Circle { x: SW - 40_000, y: 100_000, r: 28_000 },
        vel: Vec2i { x: 10_000, y: 0 },
        ball_radius: 28_000,
        ball_speed: 504_000,
    };
    b.update(100, SW);
    // 50400 to the right puts the right edge past the wall.
    assert_eq!(b.circle.x, SW - 40_000 + 50_400);
    assert_eq!(b.vel, Vec2i { x: -10_000, y: 0 });

    let mut t = Ball {
        circle: Circle { x: 400_000, y: 30_000, r: 28_000 },
        vel: Vec2i { x: 0, y: -10_000 },
        ball_radius: 28_000,
        ball_speed: 504_000,
    };
    t.update(100, SW);
    assert_eq!(t.circle.y, 30_000 - 50_400);
    // Past the top, the ball is sent back down.
    assert_eq!(t.vel, Vec2i { x: 0, y: 10_000 });
}

#[test]
fn blocks_only_ever_take_damage_over_a_run() {
    // Over many ticks of real play, every surviving block must still be one
    // of the original blocks with at most its original lives and exactly
    // its original score value.
    let mut g = Game::new(SW, SH);
    g.state = GameState::Game;
    let initial = g.blocks.clone();
    for t in 0..300 {
        if !matches!(g.state, GameState::Game) {
            break;
        }
        g.tick(16, (t * 16) as u64, t % 2 == 0, t % 7 == 0);
        for b in &g.blocks {
            let ancestor = initial.iter().find(|a| a.rect == b.rect).expect("block appeared");
            assert_eq!(b.score, ancestor.score);
            assert_eq!(b.block_type, ancestor.block_type);
            assert!(b.lives <= ancestor.lives);
            assert!(b.lives >= 1);
        }
    }
}

#[test]
fn ball_update_accepts_long_stalled_frames() {
    // A stalled frame of several minutes still moves the ball exactly by
    // the formula; here 400 seconds straight down.
    let mut b = Ball {
        circle: Circle { x: 400_000, y: 100_000, r: 28_000 },
        vel: Vec2i { x: 0, y: 10_000 },
        ball_radius: 28_000,
        ball_speed: 504_000,
    };
    b.update(400_000, SW);
    // dy = 10000 * 504000 * 400000 / 10^7 = 201_600_000.
    assert_eq!(b.circle.y, 100_000 + 201_600_000);
    assert_eq!(b.circle.x, 400_000);
}

#[test]
fn small_screens_still_lay_out_a_board() {
    // The 200-pixel floor: the paddle (100 pixels up) and the board (50
    // pixels down) still fit, and the grid is non-empty.
    let g = Game::new(200_000, 200_000);
    assert!(g.blocks.len() > 0);
    assert!(4 <= g.player_lives && g.player_lives <= 6);
    assert!(g.player.rect.y >= 0);
    for b in &g.blocks {
        assert!(b.rect.y >= 0 && b.rect.y + b.rect.h <= 200_000);
        assert!(b.rect.x >= 0 && b.rect.x + b.rect.w <= 200_000);
    }
}
