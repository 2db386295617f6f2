//! The game state and its transitions.
//!
//! `GameState` owns all mutable world state.  The driver advances it by
//! one time delta per tick, feeds it input events, and reads it back to
//! render; none of those operations can fail once a state exists.

use vstd::prelude::*;

use crate::obstacle::{
    after_move, any_hit, column_of_x, newly_passed_count, obstacle_inv, spawn_due, spawned_ok,
    surviving, Obstacle,
};
use crate::obstacle::{
    lemma_any_hit_step, lemma_count_step, lemma_newly_passed_count_bounds, lemma_surviving_elems,
    lemma_surviving_step,
};
use crate::tuning::{
    ANIM_FRAME_COUNT, ANIM_PERIOD, FLAP_IMPULSE, GAP_SIZE, HALF_SCALE, MIN_FIELD_HEIGHT, SCALE,
    SCROLL_PER_MS, SPAWN_THRESHOLD_CELLS, VELOCITY_GAIN_PER_MS,
};

verus! {

/// The whole mutable world: entity motion, obstacles, score, and the
/// flags and counters around them.
///
/// `width` and `height` are the field size in character cells, fixed at
/// construction.  `entity_x` is the fixed column the entity flies in.
/// `entity_y` and `entity_velocity` are in sub-cells (`SCALE` per
/// cell); positive velocity points down.  `animation_frame` cycles
/// through the entity's glyphs every `ANIM_PERIOD` ticks of
/// `animation_counter`.
pub struct GameState {
    pub width: u16,
    pub height: u16,
    pub entity_x: u16,
    pub entity_y: i64,
    pub entity_velocity: i64,
    pub animation_frame: usize,
    pub animation_counter: u32,
    pub obstacles: Vec<Obstacle>,
    pub score: u32,
    pub game_over: bool,
}

/// The error a too-small terminal produces at startup: no row band is
/// left to place an obstacle gap in.
#[derive(Clone, Copy, PartialEq, Eq, Structural, Debug)]
pub struct FieldTooSmall;

/// Well-formedness of a game state: the field is tall enough to place
/// gaps in, the entity sits in its fixed column and inside the vertical
/// band, its velocity is bounded while the round runs, and every
/// obstacle is geometrically valid.
pub open spec fn wf(s: GameState) -> bool {
    &&& MIN_FIELD_HEIGHT <= s.height
    &&& s.entity_x == s.width / 4
    &&& SCALE as int <= s.entity_y as int <= (s.height as int - 1) * SCALE as int
    &&& FLAP_IMPULSE as int <= s.entity_velocity as int
    &&& (!s.game_over ==> s.entity_velocity as int <= (s.height as int - 2) * SCALE as int)
    &&& s.animation_frame < ANIM_FRAME_COUNT
    &&& forall|i: int|
        0 <= i < s.obstacles@.len() ==> obstacle_inv(#[trigger] s.obstacles@[i], s.width, s.height)
}

/// The field geometry and the entity's column never change after
/// construction.
pub open spec fn same_bounds(a: GameState, b: GameState) -> bool {
    &&& b.width == a.width
    &&& b.height == a.height
    &&& b.entity_x == a.entity_x
}

/// The state a fresh round starts in: entity centered with no motion,
/// nothing spawned, nothing scored, and the field itself untouched.
pub open spec fn fresh_round(pre: GameState, post: GameState) -> bool {
    &&& same_bounds(pre, post)
    &&& post.entity_y as int == pre.height as int * HALF_SCALE as int
    &&& post.entity_velocity == 0
    &&& post.animation_frame == 0
    &&& post.animation_counter == 0
    &&& post.obstacles@.len() == 0
    &&& post.score == 0
    &&& !post.game_over
}

/// Velocity after gravity has acted for `dt` milliseconds.
pub open spec fn velocity_plus_gravity(v: int, dt: int) -> int {
    v + VELOCITY_GAIN_PER_MS as int * dt
}

/// Vertical position once the new velocity is applied, before clamping
/// at the ceiling or the floor.
pub open spec fn unclamped_y(y: int, v: int, dt: int) -> int {
    y + velocity_plus_gravity(v, dt)
}

/// An input event as the driver hands it to the state machine.
#[derive(Clone, Copy, PartialEq, Eq, Structural, Debug)]
pub enum InputEvent {
    /// End the process.
    Quit,
    /// Start a fresh round; honored only after a game over.
    Restart,
    /// Propel the entity upward; honored only while the round runs.
    Flap,
    /// Any key with no meaning here.
    Other,
}

/// Relies on `rand::Rng::gen_range` over a `Range<u16>`: it returns a
/// value uniformly distributed in `[low, high)` and panics only on an
/// empty range, which the precondition rules out.
#[verifier::external_body]
fn pick_gap_start(low: u16, high: u16) -> (r: u16)
    requires
        low < high,
    ensures
        low <= r < high,
{
    let mut rng = rand::thread_rng();
    rand::Rng::gen_range(&mut rng, low..high)
}

impl GameState {
    /// A fresh game on a field of the given size: the entity rests at
    /// quarter width and mid height with no motion, and nothing is
    /// spawned or scored yet.  Fails exactly when the field is too
    /// short to leave the gap placement a non-empty choice.
    pub fn new(width: u16, height: u16) -> (r: Result<GameState, FieldTooSmall>)
        ensures
            (r is Ok) == (height as int > GAP_SIZE as int + 6),
            r matches Ok(s) ==> {
                &&& wf(s)
                &&& s.width == width
                &&& s.height == height
                &&& s.entity_x == width / 4
                &&& s.entity_y as int == height as int * HALF_SCALE as int
                &&& s.entity_velocity == 0
                &&& s.animation_frame == 0
                &&& s.animation_counter == 0
                &&& s.obstacles@.len() == 0
                &&& s.score == 0
                &&& !s.game_over
            },
    {
        if height < MIN_FIELD_HEIGHT {
            return Err(FieldTooSmall);
        }
        Ok(
            GameState {
                width,
                height,
                entity_x: width / 4,
                entity_y: (height as i64) * HALF_SCALE,
                entity_velocity: 0,
                animation_frame: 0,
                animation_counter: 0,
                obstacles: Vec::new(),
                score: 0,
                game_over: false,
            },
        )
    }

    /// Begin a fresh round on the same field: entity recentered and
    /// stilled, obstacles cleared, score zeroed, game-over flag
    /// dropped.  Callable in any state.
    pub fn reset(&mut self)
        requires
            wf(*old(self)),
        ensures
            wf(*final(self)),
            fresh_round(*old(self), *final(self)),
    {
        self.entity_y = (self.height as i64) * HALF_SCALE;
        self.entity_velocity = 0;
        self.animation_frame = 0;
        self.animation_counter = 0;
        self.obstacles = Vec::new();
        self.score = 0;
        self.game_over = false;
    }

    /// Overwrite the velocity with the fixed upward flap impulse; the
    /// current velocity does not enter into it.
    pub fn apply_flap(&mut self)
        requires
            wf(*old(self)),
        ensures
            wf(*final(self)),
            final(self).entity_velocity == FLAP_IMPULSE,
            same_bounds(*old(self), *final(self)),
            final(self).entity_y == old(self).entity_y,
            final(self).animation_frame == old(self).animation_frame,
            final(self).animation_counter == old(self).animation_counter,
            final(self).obstacles@ == old(self).obstacles@,
            final(self).score == old(self).score,
            final(self).game_over == old(self).game_over,
    {
        self.entity_velocity = FLAP_IMPULSE;
    }

    /// One loop iteration has completed: advance the animation clock.
    pub fn advance_animation(&mut self)
        requires
            wf(*old(self)),
            old(self).animation_counter < u32::MAX,
        ensures
            wf(*final(self)),
            final(self).animation_counter == old(self).animation_counter + 1,
            same_bounds(*old(self), *final(self)),
            final(self).entity_y == old(self).entity_y,
            final(self).entity_velocity == old(self).entity_velocity,
            final(self).animation_frame == old(self).animation_frame,
            final(self).obstacles@ == old(self).obstacles@,
            final(self).score == old(self).score,
            final(self).game_over == old(self).game_over,
    {
        self.animation_counter = self.animation_counter + 1;
    }

    /// The character row the entity is drawn on.
    pub fn entity_row(&self) -> (r: u16)
        requires
            wf(*self),
        ensures
            r as int == self.entity_y as int / SCALE as int,
            1 <= r as int <= self.height as int - 1,
    {
        proof {
            lemma_row_bounds(self.entity_y as int, self.height as int);
        }
        ((self.entity_y as u64) / (SCALE as u64)) as u16
    }

    /// One tick of entity physics: gravity accumulates into the
    /// velocity, the velocity moves the entity, the animation frame
    /// cycles on its tick cadence, and the result is clamped — resting
    /// at the ceiling, ending the round at the floor.
    pub fn advance_entity(&mut self, dt: u32)
        requires
            wf(*old(self)),
            !old(self).game_over,
        ensures
            wf(*final(self)),
            same_bounds(*old(self), *final(self)),
            final(self).obstacles@ == old(self).obstacles@,
            final(self).score == old(self).score,
            final(self).animation_counter == old(self).animation_counter,
            final(self).animation_frame == if old(self).animation_counter % ANIM_PERIOD == 0 {
                (old(self).animation_frame + 1) % ANIM_FRAME_COUNT as int
            } else {
                old(self).animation_frame as int
            },
            ({
                let v1 = velocity_plus_gravity(old(self).entity_velocity as int, dt as int);
                let y1 = unclamped_y(
                    old(self).entity_y as int,
                    old(self).entity_velocity as int,
                    dt as int,
                );
                let floor_y = (old(self).height as int - 1) * SCALE as int;
                if y1 < SCALE as int {
                    &&& final(self).entity_y == SCALE
                    &&& final(self).entity_velocity == 0
                    &&& !final(self).game_over
                } else if y1 >= floor_y {
                    &&& final(self).entity_y as int == floor_y
                    &&& final(self).entity_velocity as int == v1
                    &&& final(self).game_over
                } else {
                    &&& final(self).entity_y as int == y1
                    &&& final(self).entity_velocity as int == v1
                    &&& !final(self).game_over
                }
            }),
            SCALE as int <= final(self).entity_y as int <= (old(self).height as int - 1)
                * SCALE as int,
            final(self).entity_y as int == (old(self).height as int - 1) * SCALE as int
                ==> final(self).game_over,
    {
        self.entity_velocity = self.entity_velocity + VELOCITY_GAIN_PER_MS * (dt as i64);
        self.entity_y = self.entity_y + self.entity_velocity;

        if self.animation_counter % ANIM_PERIOD == 0 {
            self.animation_frame = (self.animation_frame + 1) % ANIM_FRAME_COUNT;
        }

        let floor_y: i64 = (self.height as i64 - 1) * SCALE;
        if self.entity_y < SCALE {
            self.entity_y = SCALE;
            self.entity_velocity = 0;
        } else if self.entity_y >= floor_y {
            self.entity_y = floor_y;
            self.game_over = true;
        }
    }

    /// Spawn one obstacle at the right edge with a randomly placed gap.
    fn new_obstacle(&mut self)
        requires
            MIN_FIELD_HEIGHT <= old(self).height,
        ensures
            final(self).obstacles@.len() == old(self).obstacles@.len() + 1,
            final(self).obstacles@.drop_last() == old(self).obstacles@,
            spawned_ok(final(self).obstacles@.last(), old(self).width, old(self).height),
            same_bounds(*old(self), *final(self)),
            final(self).entity_y == old(self).entity_y,
            final(self).entity_velocity == old(self).entity_velocity,
            final(self).animation_frame == old(self).animation_frame,
            final(self).animation_counter == old(self).animation_counter,
            final(self).score == old(self).score,
            final(self).game_over == old(self).game_over,
    {
        let gap_start = pick_gap_start(3, self.height - GAP_SIZE - 3);
        let ob = Obstacle {
            x: (self.width as i64 - 1) * SCALE,
            gap_start,
            gap_end: gap_start + GAP_SIZE,
            passed: false,
        };
        self.obstacles.push(ob);
        proof {
            assert(self.obstacles@.drop_last() =~= old(self).obstacles@);
        }
    }

    /// One tick of obstacle life: every obstacle scrolls left, each one
    /// newly left of the entity's column scores a point, any whose
    /// pillars overlap the entity ends the round, those off the left
    /// edge vanish, and a new obstacle spawns once room has opened up.
    pub fn advance_obstacles(&mut self, dt: u32)
        requires
            wf(*old(self)),
            !old(self).game_over,
            old(self).score as int + old(self).obstacles@.len() <= u32::MAX as int,
        ensures
            wf(*final(self)),
            same_bounds(*old(self), *final(self)),
            final(self).entity_y == old(self).entity_y,
            final(self).entity_velocity == old(self).entity_velocity,
            final(self).animation_frame == old(self).animation_frame,
            final(self).animation_counter == old(self).animation_counter,
            final(self).score as int == old(self).score as int + newly_passed_count(
                old(self).obstacles@,
                dt as int,
                old(self).entity_x,
            ),
            old(self).score <= final(self).score,
            final(self).game_over == any_hit(
                old(self).obstacles@,
                dt as int,
                old(self).entity_x,
                old(self).entity_y as int / SCALE as int,
            ),
            ({
                let kept = surviving(old(self).obstacles@, dt as int, old(self).entity_x);
                if spawn_due(kept, old(self).width) {
                    &&& final(self).obstacles@.len() == kept.len() + 1
                    &&& final(self).obstacles@.drop_last() == kept
                    &&& spawned_ok(
                        final(self).obstacles@.last(),
                        old(self).width,
                        old(self).height,
                    )
                } else {
                    final(self).obstacles@ == kept
                }
            }),
    {
        let ex: u16 = self.entity_x;
        let row: u16 = self.entity_row();
        let ghost obs0 = self.obstacles@;

        let mut i: usize = 0;
        while i < self.obstacles.len()
            invariant
                wf(*old(self)),
                !old(self).game_over,
                old(self).score as int + obs0.len() <= u32::MAX as int,
                obs0 == old(self).obstacles@,
                i <= obs0.len(),
                self.obstacles@.len() == obs0.len(),
                same_bounds(*old(self), *self),
                self.entity_y == old(self).entity_y,
                self.entity_velocity == old(self).entity_velocity,
                self.animation_frame == old(self).animation_frame,
                self.animation_counter == old(self).animation_counter,
                ex == old(self).entity_x,
                row as int == old(self).entity_y as int / SCALE as int,
                forall|j: int|
                    0 <= j < i ==> self.obstacles@[j] == after_move(
                        #[trigger] obs0[j],
                        dt as int,
                        ex,
                    ),
                forall|j: int| i <= j < obs0.len() ==> self.obstacles@[j] == #[trigger] obs0[j],
                self.score as int == old(self).score as int + newly_passed_count(
                    obs0.subrange(0, i as int),
                    dt as int,
                    ex,
                ),
                self.game_over == any_hit(obs0.subrange(0, i as int), dt as int, ex, row as int),
            decreases obs0.len() - i,
        {
            let ob = self.obstacles[i];
            proof {
                assert(obstacle_inv(obs0[i as int], old(self).width, old(self).height));
            }
            let mx: i64 = ob.x - SCROLL_PER_MS * (dt as i64);
            let newly = !ob.passed && mx < (ex as i64) * SCALE;
            if newly {
                proof {
                    lemma_newly_passed_count_bounds(obs0.subrange(0, i as int), dt as int, ex);
                }
                self.score = self.score + 1;
            }
            let c: u16 = column_of_x(mx);
            if ex >= c && (ex as u32) <= (c as u32) + 1 {
                if row < ob.gap_start || row >= ob.gap_end {
                    self.game_over = true;
                }
            }
            self.obstacles[i] = Obstacle {
                x: mx,
                gap_start: ob.gap_start,
                gap_end: ob.gap_end,
                passed: ob.passed || newly,
            };
            proof {
                lemma_count_step(obs0, dt as int, ex, i as int);
                lemma_any_hit_step(obs0, dt as int, ex, row as int, i as int);
            }
            i = i + 1;
        }
        proof {
            assert(obs0.subrange(0, obs0.len() as int) =~= obs0);
        }

        let ghost moved = self.obstacles@;
        let mut kept: Vec<Obstacle> = Vec::new();
        let mut j: usize = 0;
        while j < self.obstacles.len()
            invariant
                j <= moved.len(),
                self.obstacles@ == moved,
                moved.len() == obs0.len(),
                forall|k: int|
                    0 <= k < obs0.len() ==> moved[k] == after_move(#[trigger] obs0[k], dt as int, ex),
                kept@ == surviving(obs0.subrange(0, j as int), dt as int, ex),
            decreases moved.len() - j,
        {
            let m = self.obstacles[j];
            if m.x > 0 {
                kept.push(m);
            }
            proof {
                lemma_surviving_step(obs0, dt as int, ex, j as int);
            }
            j = j + 1;
        }
        self.obstacles = kept;
        proof {
            assert(self.obstacles@ == surviving(obs0, dt as int, ex));
            lemma_surviving_elems(
                obs0,
                dt as int,
                ex,
                old(self).width,
                old(self).height,
            );
        }

        let ghost kept_s = surviving(obs0, dt as int, ex);
        let due: bool = if self.obstacles.len() == 0 {
            true
        } else {
            let last = self.obstacles[self.obstacles.len() - 1];
            last.x < (self.width as i64 - SPAWN_THRESHOLD_CELLS) * SCALE
        };
        proof {
            assert(due == spawn_due(kept_s, old(self).width));
            lemma_newly_passed_count_bounds(obs0, dt as int, ex);
        }
        if due {
            self.new_obstacle();
        }
        proof {
            assert forall|k: int|
                0 <= k < self.obstacles@.len() implies obstacle_inv(
                #[trigger] self.obstacles@[k],
                old(self).width,
                old(self).height,
            ) by {
                if due {
                    if k < kept_s.len() {
                        assert(self.obstacles@[k] == self.obstacles@.drop_last()[k]);
                        assert(self.obstacles@.drop_last() == kept_s);
                    } else {
                        assert(self.obstacles@[k] == self.obstacles@.last());
                        assert(spawned_ok(
                            self.obstacles@.last(),
                            old(self).width,
                            old(self).height,
                        ));
                    }
                }
            }
        }
    }

    /// Dispatch one input event per the round's state: quit always
    /// wins, a restart is honored only after a game over, a flap only
    /// while the round runs, and anything else is ignored.  Returns
    /// whether the driver should terminate.
    pub fn handle_event(&mut self, ev: InputEvent) -> (quit: bool)
        requires
            wf(*old(self)),
        ensures
            wf(*final(self)),
            same_bounds(*old(self), *final(self)),
            quit == (ev == InputEvent::Quit),
            ev == InputEvent::Restart && old(self).game_over ==> fresh_round(
                *old(self),
                *final(self),
            ),
            ev == InputEvent::Flap && !old(self).game_over ==> {
                &&& final(self).entity_velocity == FLAP_IMPULSE
                &&& final(self).entity_y == old(self).entity_y
                &&& final(self).animation_frame == old(self).animation_frame
                &&& final(self).animation_counter == old(self).animation_counter
                &&& final(self).obstacles@ == old(self).obstacles@
                &&& final(self).score == old(self).score
                &&& !final(self).game_over
            },
            !(ev == InputEvent::Restart && old(self).game_over) && !(ev == InputEvent::Flap
                && !old(self).game_over) ==> unchanged_state(*old(self), *final(self)),
    {
        match ev {
            InputEvent::Quit => true,
            InputEvent::Restart => {
                if self.game_over {
                    self.reset();
                }
                false
            },
            InputEvent::Flap => {
                if !self.game_over {
                    self.apply_flap();
                }
                false
            },
            InputEvent::Other => false,
        }
    }
}

/// The column at which a banner of the given width starts so as to sit
/// centered on the field, pinned to the left edge when it does not fit.
pub fn centered_column(width: u16, text_len: u16) -> (c: u16)
    ensures
        c as int == if text_len <= width {
            (width as int - text_len as int) / 2
        } else {
            0
        },
{
    if text_len <= width {
        (width - text_len) / 2
    } else {
        0
    }
}

/// Field-for-field equality of two states.
pub open spec fn unchanged_state(a: GameState, b: GameState) -> bool {
    &&& same_bounds(a, b)
    &&& b.entity_y == a.entity_y
    &&& b.entity_velocity == a.entity_velocity
    &&& b.animation_frame == a.animation_frame
    &&& b.animation_counter == a.animation_counter
    &&& b.obstacles@ == a.obstacles@
    &&& b.score == a.score
    &&& b.game_over == a.game_over
}

/// A vertical position inside the band lands on a row inside the band.
proof fn lemma_row_bounds(y: int, h: int)
    requires
        SCALE as int <= y <= (h - 1) * SCALE as int,
        MIN_FIELD_HEIGHT as int <= h,
    ensures
        1 <= y / (SCALE as int) <= h - 1,
{
    assert(1 <= y / (SCALE as int) <= h - 1) by (nonlinear_arith)
        requires
            SCALE as int <= y <= (h - 1) * SCALE as int,
            13 <= h,
    ;
}

} // verus!
