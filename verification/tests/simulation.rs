//! Behavioral tests of the simulation core, run against the real
//! random number generator.

use flappy_bird::game::{centered_column, GameState, InputEvent};
use flappy_bird::obstacle::{column_of_x, obstacle_cell, Obstacle, PillarCell};

fn fresh(width: u16, height: u16) -> GameState {
    GameState::new(width, height).expect("field large enough")
}

#[test]
fn gravity_accumulates_exactly() {
    // height 20, width 80: entity starts at y = 10.0 cells with zero velocity
    let mut g = fresh(80, 20);
    assert_eq!(g.entity_y, 10_000_000);
    assert_eq!(g.entity_velocity, 0);
    g.advance_entity(1000);
    // velocity 0 + 0.05 * 1.0s * 10.0 = 0.5 cells; y = 10.5 cells
    assert_eq!(g.entity_velocity, 500_000);
    assert_eq!(g.entity_y, 10_500_000);
    assert!(!g.game_over);
}

#[test]
fn flap_overwrites_velocity() {
    let mut g = fresh(80, 20);
    g.entity_velocity = 2_000_000;
    g.apply_flap();
    // exactly -0.3 cells, not -0.3 added to 2.0
    assert_eq!(g.entity_velocity, -300_000);
}

#[test]
fn floor_ends_the_round() {
    let mut g = fresh(80, 20);
    // one huge step drops the entity past the floor
    g.advance_entity(20_000);
    assert_eq!(g.entity_y, 19_000_000);
    assert!(g.game_over);
}

#[test]
fn ceiling_rests_the_entity() {
    let mut g = fresh(80, 20);
    g.entity_velocity = -300_000;
    g.entity_y = 1_100_000;
    g.advance_entity(0);
    // y would be 0.8 cells: clamped to 1.0 and the velocity zeroed
    assert_eq!(g.entity_y, 1_000_000);
    assert_eq!(g.entity_velocity, 0);
    assert!(!g.game_over);
}

#[test]
fn clamp_band_always_holds() {
    let mut g = fresh(80, 20);
    for _ in 0..200 {
        g.advance_entity(16);
        assert!(g.entity_y >= 1_000_000);
        assert!(g.entity_y <= 19_000_000);
        if g.entity_y == 19_000_000 {
            assert!(g.game_over);
        }
        if g.game_over {
            break;
        }
    }
    assert!(g.game_over);
}

#[test]
fn passed_obstacle_scores_once_and_is_removed() {
    let mut g = fresh(80, 20);
    assert_eq!(g.entity_x, 20);
    g.obstacles.push(Obstacle { x: 5_000_000, gap_start: 5, gap_end: 11, passed: false });
    g.advance_obstacles(1000);
    // the obstacle moved to -10.0 cells: scored while passing, then removed,
    // and the empty field spawned a fresh obstacle at the right edge
    assert_eq!(g.score, 1);
    assert_eq!(g.obstacles.len(), 1);
    assert_eq!(g.obstacles[0].x, 79_000_000);
    assert!(!g.obstacles[0].passed);
    assert!(!g.game_over);
}

#[test]
fn already_passed_obstacle_never_scores_again() {
    let mut g = fresh(80, 20);
    g.obstacles.push(Obstacle { x: 15_000_000, gap_start: 5, gap_end: 11, passed: true });
    g.advance_obstacles(100);
    assert_eq!(g.score, 0);
    // still on screen, still marked as passed
    assert!(g.obstacles.iter().any(|o| o.passed));
}

#[test]
fn score_never_decreases() {
    let mut g = fresh(80, 20);
    g.entity_y = 8_000_000;
    let mut last_score = g.score;
    for _ in 0..100 {
        if g.game_over {
            break;
        }
        g.advance_obstacles(40);
        assert!(g.score >= last_score);
        last_score = g.score;
    }
}

#[test]
fn collision_outside_gap_ends_the_round() {
    let mut g = fresh(80, 20);
    // entity at column 20, row 10; gap covers rows 3..9, so row 10 hits
    g.entity_y = 10_000_000;
    g.obstacles.push(Obstacle { x: 20_500_000, gap_start: 3, gap_end: 9, passed: true });
    g.advance_obstacles(0);
    assert!(g.game_over);
}

#[test]
fn gap_protects_the_entity() {
    let mut g = fresh(80, 20);
    // same footprint, but the row 10 lies inside the gap 8..14
    g.entity_y = 10_000_000;
    g.obstacles.push(Obstacle { x: 20_500_000, gap_start: 8, gap_end: 14, passed: true });
    g.advance_obstacles(0);
    assert!(!g.game_over);
}

#[test]
fn gap_boundary_rows_are_exact() {
    // row gap_start is safe, row gap_end is not
    let mut g = fresh(80, 20);
    g.entity_y = 8_000_000;
    g.obstacles.push(Obstacle { x: 20_000_000, gap_start: 8, gap_end: 14, passed: true });
    g.advance_obstacles(0);
    assert!(!g.game_over);

    let mut g2 = fresh(80, 20);
    g2.entity_y = 14_000_000;
    g2.obstacles.push(Obstacle { x: 20_000_000, gap_start: 8, gap_end: 14, passed: true });
    g2.advance_obstacles(0);
    assert!(g2.game_over);
}

#[test]
fn footprint_is_one_cell_wide() {
    // column 19 or 20 overlaps an entity at column 20; 18 and 21 do not
    for (col_x, hit) in [
        (18_500_000i64, false),
        (19_500_000, true),
        (20_500_000, true),
        (21_500_000, false),
    ] {
        let mut g = fresh(80, 20);
        g.entity_y = 2_000_000;
        g.obstacles.push(Obstacle { x: col_x, gap_start: 8, gap_end: 14, passed: true });
        g.advance_obstacles(0);
        assert_eq!(g.game_over, hit, "obstacle at {col_x}");
    }
}

#[test]
fn spawn_waits_for_the_threshold() {
    // youngest obstacle exactly at width - 20 cells: no spawn yet
    let mut g = fresh(80, 20);
    g.obstacles.push(Obstacle { x: 60_000_000, gap_start: 8, gap_end: 14, passed: true });
    g.advance_obstacles(0);
    assert_eq!(g.obstacles.len(), 1);

    // one sub-cell further left: a new obstacle appears at the right edge
    let mut g2 = fresh(80, 20);
    g2.obstacles.push(Obstacle { x: 59_999_999, gap_start: 8, gap_end: 14, passed: true });
    g2.advance_obstacles(0);
    assert_eq!(g2.obstacles.len(), 2);
    assert_eq!(g2.obstacles[1].x, 79_000_000);
}

#[test]
fn spawned_gaps_stay_inside_the_band() {
    // the gap placement is random: check the band over many spawns
    for _ in 0..60 {
        let mut g = fresh(80, 20);
        g.advance_obstacles(0);
        assert_eq!(g.obstacles.len(), 1);
        let ob = &g.obstacles[0];
        assert!(ob.gap_start >= 3);
        assert!(ob.gap_start + 6 <= 20 - 3);
        assert_eq!(ob.gap_end - ob.gap_start, 6);
        assert!(!ob.passed);
    }
}

#[test]
fn too_small_field_is_refused() {
    // height 8 leaves the spawn range empty: startup fails instead
    assert!(GameState::new(80, 8).is_err());
    assert!(GameState::new(80, 12).is_err());
    assert!(GameState::new(80, 13).is_ok());
}

#[test]
fn reset_restores_a_fresh_round() {
    let mut g = fresh(80, 20);
    g.advance_obstacles(0);
    g.advance_entity(20_000);
    assert!(g.game_over);
    g.score = 7;
    g.animation_counter = 9;
    g.reset();
    assert_eq!(g.obstacles.len(), 0);
    assert_eq!(g.score, 0);
    assert!(!g.game_over);
    assert_eq!(g.entity_y, 10_000_000);
    assert_eq!(g.entity_velocity, 0);
    assert_eq!(g.animation_counter, 0);
    assert_eq!(g.animation_frame, 0);
    // the field itself is untouched
    assert_eq!(g.width, 80);
    assert_eq!(g.height, 20);
    assert_eq!(g.entity_x, 20);
}

#[test]
fn animation_advances_every_fifth_tick() {
    let mut g = fresh(80, 20);
    assert_eq!(g.animation_frame, 0);
    // counter 0: the frame steps
    g.advance_entity(0);
    assert_eq!(g.animation_frame, 1);
    g.advance_animation();
    assert_eq!(g.animation_counter, 1);
    // counter 1: the frame holds
    g.advance_entity(0);
    assert_eq!(g.animation_frame, 1);
    // cycle the counter to the next multiple of five
    for _ in 0..4 {
        g.advance_animation();
    }
    assert_eq!(g.animation_counter, 5);
    g.advance_entity(0);
    assert_eq!(g.animation_frame, 2);
    // the frame wraps over its three glyphs
    for _ in 0..5 {
        g.advance_animation();
    }
    g.advance_entity(0);
    assert_eq!(g.animation_frame, 0);
}

#[test]
fn events_dispatch_by_round_state() {
    let mut g = fresh(80, 20);
    assert!(!g.handle_event(InputEvent::Other));
    // flap works while the round runs
    assert!(!g.handle_event(InputEvent::Flap));
    assert_eq!(g.entity_velocity, -300_000);
    // restart is ignored while the round runs
    g.score = 3;
    assert!(!g.handle_event(InputEvent::Restart));
    assert_eq!(g.score, 3);
    // quit always terminates
    assert!(g.handle_event(InputEvent::Quit));

    // after a game over, flap is ignored and restart resets
    g.advance_entity(20_000);
    assert!(g.game_over);
    let v = g.entity_velocity;
    assert!(!g.handle_event(InputEvent::Flap));
    assert_eq!(g.entity_velocity, v);
    assert!(!g.handle_event(InputEvent::Restart));
    assert!(!g.game_over);
    assert_eq!(g.score, 0);
}

#[test]
fn renderer_queries_are_exact() {
    let g = fresh(80, 20);
    assert_eq!(g.entity_row(), 10);

    assert_eq!(column_of_x(-5_000_000), 0);
    assert_eq!(column_of_x(0), 0);
    assert_eq!(column_of_x(2_500_000), 2);
    assert_eq!(column_of_x(79_000_000), 79);

    let ob = Obstacle { x: 40_000_000, gap_start: 8, gap_end: 14, passed: false };
    assert_eq!(obstacle_cell(&ob, 0), Some(PillarCell::Body));
    assert_eq!(obstacle_cell(&ob, 7), Some(PillarCell::CapTop));
    assert_eq!(obstacle_cell(&ob, 8), None);
    assert_eq!(obstacle_cell(&ob, 13), None);
    assert_eq!(obstacle_cell(&ob, 14), Some(PillarCell::CapBottom));
    assert_eq!(obstacle_cell(&ob, 15), Some(PillarCell::Body));

    assert_eq!(centered_column(80, 47), 16);
    assert_eq!(centered_column(10, 47), 0);
}
