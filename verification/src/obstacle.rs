//! Obstacles: scrolling pillar pairs with a passable gap.
//!
//! The specification functions here describe one tick of obstacle life:
//! scrolling left, being scored once the entity's column is cleared,
//! colliding with the entity, and falling off the left edge.

use vstd::prelude::*;

use crate::tuning::{GAP_SIZE, SCALE, SCROLL_PER_MS, SPAWN_THRESHOLD_CELLS};

verus! {

/// A vertical pillar pair with a passable gap, scrolling right to left.
///
/// `x` is the horizontal position in sub-cells (`SCALE` sub-cells per
/// character cell); it decreases every tick.  `gap_start` and `gap_end`
/// bound the passable rows: row `r` is inside the gap exactly when
/// `gap_start <= r < gap_end`.  `passed` records that the pillar has
/// already scrolled past the entity's column and been scored.
#[derive(Clone, Copy, PartialEq, Eq, Structural, Debug)]
pub struct Obstacle {
    pub x: i64,
    pub gap_start: u16,
    pub gap_end: u16,
    pub passed: bool,
}

/// What holds of every obstacle in a field of the given size: its
/// position is at most one cell left of the field and at most at the
/// right edge, and its gap is `GAP_SIZE` rows inside the legal band.
pub open spec fn obstacle_inv(ob: Obstacle, width: u16, height: u16) -> bool {
    &&& -SCALE <= ob.x as int <= (width as int - 1) * SCALE as int
    &&& 3 <= ob.gap_start as int
    &&& ob.gap_start as int + GAP_SIZE as int + 3 < height as int
    &&& ob.gap_end as int == ob.gap_start as int + GAP_SIZE as int
}

/// Horizontal position after `dt` milliseconds of scrolling.
pub open spec fn moved_x(x: int, dt: int) -> int {
    x - SCROLL_PER_MS as int * dt
}

/// The entity's fixed column, in sub-cells.
pub open spec fn column_subcells(ex: u16) -> int {
    ex as int * SCALE as int
}

/// Whether this tick scores the obstacle: it had not yet passed the
/// entity's column and its new position lies left of it.
pub open spec fn scores_now(ob: Obstacle, dt: int, ex: u16) -> bool {
    !ob.passed && moved_x(ob.x as int, dt) < column_subcells(ex)
}

/// The obstacle after one tick: scrolled left, and marked as passed
/// once its position drops below the entity's column.
pub open spec fn after_move(ob: Obstacle, dt: int, ex: u16) -> Obstacle {
    Obstacle {
        x: moved_x(ob.x as int, dt) as i64,
        gap_start: ob.gap_start,
        gap_end: ob.gap_end,
        passed: ob.passed || moved_x(ob.x as int, dt) < column_subcells(ex),
    }
}

/// The character column a horizontal position lands on, as the renderer
/// and the collision test see it: truncation toward zero, saturating at
/// both ends of the `u16` range.
pub open spec fn col_of(x: int) -> int {
    if x <= 0 {
        0
    } else if x / (SCALE as int) > u16::MAX as int {
        u16::MAX as int
    } else {
        x / (SCALE as int)
    }
}

/// Whether the entity collides with the obstacle on this tick: the
/// entity's column overlaps the obstacle's one-cell footprint and its
/// row lies outside the gap.
pub open spec fn collides_at(ob: Obstacle, dt: int, ex: u16, row: int) -> bool {
    let c = col_of(moved_x(ob.x as int, dt));
    &&& c <= ex as int
    &&& ex as int <= c + 1
    &&& (row < ob.gap_start as int || row >= ob.gap_end as int)
}

/// How many obstacles score on this tick.
pub open spec fn newly_passed_count(obs: Seq<Obstacle>, dt: int, ex: u16) -> int
    decreases obs.len(),
{
    if obs.len() == 0 {
        0
    } else {
        newly_passed_count(obs.drop_last(), dt, ex) + if scores_now(obs.last(), dt, ex) {
            1int
        } else {
            0int
        }
    }
}

/// Whether any obstacle collides with the entity on this tick.
pub open spec fn any_hit(obs: Seq<Obstacle>, dt: int, ex: u16, row: int) -> bool {
    exists|i: int| 0 <= i < obs.len() && collides_at(obs[i], dt, ex, row)
}

/// The obstacles surviving one tick, in order: each scrolled and
/// re-marked, those at or past the left edge dropped.
pub open spec fn surviving(obs: Seq<Obstacle>, dt: int, ex: u16) -> Seq<Obstacle>
    decreases obs.len(),
{
    if obs.len() == 0 {
        Seq::empty()
    } else {
        let rest = surviving(obs.drop_last(), dt, ex);
        let m = after_move(obs.last(), dt, ex);
        if m.x > 0 {
            rest.push(m)
        } else {
            rest
        }
    }
}

/// Whether the tick must spawn a new obstacle: none are left, or the
/// youngest has scrolled past the spawn threshold.
/// The horizontal position, in sub-cells, left of which the youngest
/// obstacle lets the next one spawn.
pub open spec fn spawn_threshold_subcells(width: u16) -> int {
    (width as int - SPAWN_THRESHOLD_CELLS as int) * (SCALE as int)
}

pub open spec fn spawn_due(obs: Seq<Obstacle>, width: u16) -> bool {
    obs.len() == 0 || (obs.last().x as int) < spawn_threshold_subcells(width)
}

/// What a freshly spawned obstacle looks like: at the right edge, not
/// yet passed, with its gap anywhere in the legal band.
pub open spec fn spawned_ok(ob: Obstacle, width: u16, height: u16) -> bool {
    &&& ob.x as int == (width as int - 1) * SCALE as int
    &&& !ob.passed
    &&& 3 <= ob.gap_start as int
    &&& ob.gap_start as int + GAP_SIZE as int + 3 < height as int
    &&& ob.gap_end as int == ob.gap_start as int + GAP_SIZE as int
}

/// The character column a horizontal position lands on.
pub fn column_of_x(x: i64) -> (c: u16)
    ensures
        c as int == col_of(x as int),
{
    if x <= 0 {
        0
    } else {
        let q: u64 = (x as u64) / (SCALE as u64);
        if q > u16::MAX as u64 {
            u16::MAX
        } else {
            q as u16
        }
    }
}

/// Which glyph a pillar shows at a given row, if any: the body, or the
/// cap that closes the gap from above or below.
#[derive(Clone, Copy, PartialEq, Eq, Structural, Debug)]
pub enum PillarCell {
    Body,
    CapTop,
    CapBottom,
}

/// The cell the obstacle occupies at row `y`: `None` inside the gap,
/// a cap on the rows bordering the gap, the plain body elsewhere.
pub open spec fn pillar_cell_at(ob: Obstacle, y: u16) -> Option<PillarCell> {
    if y < ob.gap_start {
        Some(
            if y as int == ob.gap_start as int - 1 {
                PillarCell::CapTop
            } else {
                PillarCell::Body
            },
        )
    } else if y >= ob.gap_end {
        Some(if y == ob.gap_end { PillarCell::CapBottom } else { PillarCell::Body })
    } else {
        None
    }
}

/// What an obstacle's column shows at row `y`.
pub fn obstacle_cell(ob: &Obstacle, y: u16) -> (r: Option<PillarCell>)
    requires
        1 <= ob.gap_start,
    ensures
        r == pillar_cell_at(*ob, y),
{
    if y < ob.gap_start {
        Some(if y == ob.gap_start - 1 { PillarCell::CapTop } else { PillarCell::Body })
    } else if y >= ob.gap_end {
        Some(if y == ob.gap_end { PillarCell::CapBottom } else { PillarCell::Body })
    } else {
        None
    }
}

/// An obstacle whose gap covers the entity's row never triggers a
/// collision, whatever its position.
pub proof fn lemma_gap_is_safe(ob: Obstacle, dt: int, ex: u16, row: int)
    requires
        ob.gap_start as int <= row < ob.gap_end as int,
    ensures
        !collides_at(ob, dt, ex, row),
{
}

/// Every obstacle in a well-formed field keeps a gap exactly
/// `GAP_SIZE` rows tall whose band stays at least three rows clear of
/// the top and bottom edges.
pub proof fn lemma_gap_band(ob: Obstacle, width: u16, height: u16)
    requires
        obstacle_inv(ob, width, height),
    ensures
        3 <= ob.gap_start as int,
        ob.gap_start as int + GAP_SIZE as int <= height as int - 3,
        ob.gap_end as int - ob.gap_start as int == GAP_SIZE as int,
{
}

/// Once an obstacle is marked as passed it stays so, and a tick scores
/// exactly those obstacles whose mark flips on that tick.
pub proof fn lemma_passed_latches(ob: Obstacle, dt: int, ex: u16)
    ensures
        ob.passed ==> after_move(ob, dt, ex).passed,
        scores_now(ob, dt, ex) == (!ob.passed && after_move(ob, dt, ex).passed),
{
}

/// A tick scores at most one point per obstacle on the field.
pub proof fn lemma_newly_passed_count_bounds(obs: Seq<Obstacle>, dt: int, ex: u16)
    ensures
        0 <= newly_passed_count(obs, dt, ex) <= obs.len(),
    decreases obs.len(),
{
    if obs.len() > 0 {
        lemma_newly_passed_count_bounds(obs.drop_last(), dt, ex);
    }
}

/// Extending a prefix by one obstacle adds that obstacle's score.
pub proof fn lemma_count_step(obs: Seq<Obstacle>, dt: int, ex: u16, i: int)
    requires
        0 <= i < obs.len(),
    ensures
        newly_passed_count(obs.subrange(0, i + 1), dt, ex) == newly_passed_count(
            obs.subrange(0, i),
            dt,
            ex,
        ) + if scores_now(obs[i], dt, ex) {
            1int
        } else {
            0int
        },
{
    assert(obs.subrange(0, i + 1).drop_last() =~= obs.subrange(0, i));
    assert(obs.subrange(0, i + 1).last() == obs[i]);
}

/// Extending a prefix by one obstacle keeps it exactly when it is still
/// right of the left edge after scrolling.
pub proof fn lemma_surviving_step(obs: Seq<Obstacle>, dt: int, ex: u16, i: int)
    requires
        0 <= i < obs.len(),
    ensures
        surviving(obs.subrange(0, i + 1), dt, ex) == if after_move(obs[i], dt, ex).x > 0 {
            surviving(obs.subrange(0, i), dt, ex).push(after_move(obs[i], dt, ex))
        } else {
            surviving(obs.subrange(0, i), dt, ex)
        },
{
    assert(obs.subrange(0, i + 1).drop_last() =~= obs.subrange(0, i));
    assert(obs.subrange(0, i + 1).last() == obs[i]);
}

/// A collision among the first `i + 1` obstacles is one among the first
/// `i` or one with the obstacle at `i`.
pub proof fn lemma_any_hit_step(obs: Seq<Obstacle>, dt: int, ex: u16, row: int, i: int)
    requires
        0 <= i < obs.len(),
    ensures
        any_hit(obs.subrange(0, i + 1), dt, ex, row) == (any_hit(obs.subrange(0, i), dt, ex, row)
            || collides_at(obs[i], dt, ex, row)),
{
    let s1 = obs.subrange(0, i + 1);
    let s0 = obs.subrange(0, i);
    if any_hit(s1, dt, ex, row) {
        let j = choose|j: int| 0 <= j < s1.len() && collides_at(s1[j], dt, ex, row);
        if j < i {
            assert(s0[j] == s1[j]);
            assert(any_hit(s0, dt, ex, row));
        } else {
            assert(s1[j] == obs[i]);
        }
    }
    if any_hit(s0, dt, ex, row) {
        let j = choose|j: int| 0 <= j < s0.len() && collides_at(s0[j], dt, ex, row);
        assert(s1[j] == s0[j]);
        assert(any_hit(s1, dt, ex, row));
    }
    if collides_at(obs[i], dt, ex, row) {
        assert(s1[i] == obs[i]);
        assert(any_hit(s1, dt, ex, row));
    }
}

/// Every survivor of a tick is a well-formed obstacle strictly right of
/// the left edge.
pub proof fn lemma_surviving_elems(obs: Seq<Obstacle>, dt: int, ex: u16, width: u16, height: u16)
    requires
        0 <= dt <= u32::MAX as int,
        forall|i: int| 0 <= i < obs.len() ==> obstacle_inv(#[trigger] obs[i], width, height),
    ensures
        forall|i: int|
            0 <= i < surviving(obs, dt, ex).len() ==> obstacle_inv(
                #[trigger] surviving(obs, dt, ex)[i],
                width,
                height,
            ) && surviving(obs, dt, ex)[i].x > 0,
    decreases obs.len(),
{
    if obs.len() > 0 {
        let pre = obs.drop_last();
        assert(forall|i: int|
            0 <= i < pre.len() ==> obstacle_inv(#[trigger] pre[i], width, height));
        lemma_surviving_elems(pre, dt, ex, width, height);
        assert(obstacle_inv(obs.last(), width, height));
        let mxi = moved_x(obs.last().x as int, dt);
        assert(i64::MIN as int <= mxi <= i64::MAX as int);
        let m = after_move(obs.last(), dt, ex);
        assert(m.x as int == mxi);
        let s = surviving(obs, dt, ex);
        let rest = surviving(pre, dt, ex);
        assert forall|i: int|
            0 <= i < s.len() implies obstacle_inv(#[trigger] s[i], width, height) && s[i].x
            > 0 by {
            if m.x > 0 {
                assert(s == rest.push(m));
                if i < rest.len() {
                    assert(s[i] == rest[i]);
                } else {
                    assert(s[i] == m);
                }
            } else {
                assert(s == rest);
            }
        }
    }
}

} // verus!
