//! Where a formation's members stand when the fight begins.
//!
//! A formation fills its footprint row by row, front row first, each row
//! centred and as wide as the members left to place; every member is nudged by
//! a jitter of up to seven tenths of a metre along each axis, drawn from the
//! formation's own random stream. Red's formation faces the other way.

use vstd::prelude::*;

use crate::Error;
use crate::compile::Placement;
use crate::fixed::{Q32_ONE, clamp_i64, div_trunc, saturating_add, saturating_mul, saturating_sub};
use crate::random::{GrRandom, RandomState, inclusive_draw_spec};
use crate::rules::{UnitConfig, whole_meters_spec};
use crate::text::{debug_quoted, debug_text, join3};

verus! {

/// How far a member is nudged, in tenths of a metre, at most less one.
pub const FORMATION_JITTER_RANGE_TENTHS: i32 = 8i32;

/// A tenth, in Q32.32.
pub const C0_1_RAW: i64 = 0x1999_9999i64;

/// The random stream after `count` jitter draws.
pub open spec fn after_draws(state: RandomState, count: nat) -> RandomState
    decreases count,
{
    if count == 0 {
        state
    } else {
        inclusive_draw_spec(after_draws(state, (count - 1) as nat), -7i64, 7i64).1
    }
}

/// The jitter draw number `index` of a stream, in tenths of a metre.
pub open spec fn nth_jitter(state: RandomState, index: nat) -> i64 {
    inclusive_draw_spec(after_draws(state, index), -7i64, 7i64).0
}

/// The grid a formation fills: how many members a row holds, how many rows,
/// and the depth of a row and the width of a column, in whole metres.
pub struct Grid {
    pub max_columns: i64,
    pub rows: i64,
    pub row_step: i64,
    pub column_step: i64,
}

/// The grid of a footprint `width` by `depth` metres with slots `slot`
/// metres wide, for `members` members, or why there is none.
pub open spec fn grid_spec(members: int, width: int, depth: int, slot: int, name: Seq<char>) -> Result<Grid, Seq<char>> {
    let max_columns = div_trunc_any(width, slot);
    if max_columns <= 0 {
        Err("unit "@ + debug_quoted(name) + " formation slot size exceeds its footprint width"@)
    } else {
        let rows = div_trunc(clamp_i64(members + max_columns - 1), max_columns);
        if rows <= 0 {
            Err("unit "@ + debug_quoted(name) + " formation has no member rows"@)
        } else {
            let row_step = div_trunc_any(depth, rows);
            let column_step = div_trunc(width, max_columns);
            if row_step <= 0 || column_step <= 0 {
                Err("unit "@ + debug_quoted(name) + " formation grid has a nonpositive native step"@)
            } else {
                Ok(Grid { max_columns: max_columns as i64, rows: rows as i64, row_step: row_step as i64, column_step: column_step as i64 })
            }
        }
    }
}

/// Division truncating toward zero, for a divisor of either sign.
pub open spec fn div_trunc_any(a: int, b: int) -> int {
    if b > 0 {
        div_trunc(a, b)
    } else {
        -div_trunc(a, -b)
    }
}

/// Where member `index` stands in the formation's own frame, before its
/// jitter, in Q32.32 metres: across, then along.
pub open spec fn local_position(index: int, members: int, grid: Grid, depth: int) -> (int, int) {
    let row = index / grid.max_columns as int;
    let column = index % grid.max_columns as int;
    let remaining = members - row * grid.max_columns;
    let columns = if grid.max_columns <= remaining { grid.max_columns as int } else { remaining };
    let local_z = div_trunc(clamp_i64(depth * Q32_ONE), 2) - (clamp_i64(clamp_i64(row * grid.row_step) * Q32_ONE)
        + div_trunc(clamp_i64(grid.row_step * Q32_ONE), 2));
    let occupied = clamp_i64(columns * grid.column_step);
    let local_x = clamp_i64(clamp_i64(column * grid.column_step) * Q32_ONE) + div_trunc(
        clamp_i64(grid.column_step * Q32_ONE),
        2,
    ) - div_trunc(clamp_i64(occupied * Q32_ONE), 2);
    (local_x, local_z)
}

/// Whether member `index`'s frame position is an `i64` at every step.
pub open spec fn frame_fits_at(index: int, members: int, grid: Grid, depth: int) -> bool {
    let row = index / grid.max_columns as int;
    let column = index % grid.max_columns as int;
    let remaining = members - row * grid.max_columns;
    let columns = if grid.max_columns <= remaining { grid.max_columns as int } else { remaining };
    let along = clamp_i64(clamp_i64(row * grid.row_step) * Q32_ONE) + div_trunc(clamp_i64(grid.row_step * Q32_ONE), 2);
    let occupied = clamp_i64(columns * grid.column_step);
    let across = clamp_i64(clamp_i64(column * grid.column_step) * Q32_ONE) + div_trunc(
        clamp_i64(grid.column_step * Q32_ONE),
        2,
    );
    &&& i64::MIN <= along <= i64::MAX
    &&& i64::MIN <= local_position(index, members, grid, depth).1 <= i64::MAX
    &&& i64::MIN <= across <= i64::MAX
    &&& i64::MIN <= local_position(index, members, grid, depth).0 <= i64::MAX
}

/// Whether every member's frame position is an `i64` at every step.
pub open spec fn frame_fits(members: int, grid: Grid, depth: int) -> bool {
    forall|index: int| 0 <= index < members ==> #[trigger] frame_fits_at(index, members, grid, depth)
}

/// Where member `index` stands in the world, in Q32.32 metres, with its
/// jitter drawn from `state`: two draws a member, across then along.
pub open spec fn member_position(
    index: int,
    members: int,
    grid: Grid,
    depth: int,
    placement: Placement,
    state: RandomState,
) -> (i64, i64) {
    let (local_x, local_z) = local_position(index, members, grid, depth);
    let direction: int = if placement.team == 0 { 1 } else { -1 };
    let jitter_x = clamp_i64(nth_jitter(state, (2 * index) as nat) * C0_1_RAW);
    let jitter_z = clamp_i64(nth_jitter(state, (2 * index + 1) as nat) * C0_1_RAW);
    (
        clamp_i64(clamp_i64(placement.world_x * Q32_ONE) + clamp_i64(clamp_i64(local_x + jitter_x) * direction)) as i64,
        clamp_i64(clamp_i64(placement.world_z * Q32_ONE) + clamp_i64(clamp_i64(local_z + jitter_z) * direction)) as i64,
    )
}

/// `a` divided by `b`, truncated toward zero.
pub fn quotient(a: i64, b: i64) -> (result: i64)
    requires
        b != 0,
        !(a == i64::MIN && b == -1),
    ensures
        result == div_trunc_any(a as int, b as int),
{
    if b > 0 {
        a / b
    } else {
        let wide: i128 = (a as i128) / (-(b as i128));
        proof {
            assert(wide == div_trunc(a as int, -(b as int)));
            if b == -1 {
                assert(wide == a);
            } else {
                assert(-0x4000_0000_0000_0000 <= div_trunc(a as int, -(b as int)) <= 0x4000_0000_0000_0000) by (nonlinear_arith)
                    requires
                        -0x8000_0000_0000_0000 <= a <= 0x7fff_ffff_ffff_ffff,
                        -(b as int) >= 2,
                {
                    let d = -(b as int);
                    if a >= 0 {
                        assert(a as int / d <= a as int / 2);
                    } else {
                        assert((-(a as int)) / d <= (-(a as int)) / 2);
                    }
                }
            }
        }
        (-wide) as i64
    }
}

/// The seed of a formation's stream: the fight's seed plus the formation's
/// position, wrapping as a 32-bit integer, sign-extended to 64 bits.
pub open spec fn formation_seed_spec(seed: i32, index: i32) -> u64 {
    let sum = seed as int + index as int;
    let wrapped = if sum > i32::MAX { sum - 0x1_0000_0000 } else if sum < i32::MIN { sum + 0x1_0000_0000 } else { sum };
    if wrapped >= 0 {
        wrapped as u64
    } else {
        (wrapped + 0x1_0000_0000_0000_0000) as u64
    }
}

/// The seed of a formation's stream.
pub fn formation_seed(seed: i32, index: i32) -> (result: u64)
    ensures
        result == formation_seed_spec(seed, index),
{
    let sum: i64 = seed as i64 + index as i64;
    let wrapped: i64 = if sum > i32::MAX as i64 {
        sum - 0x1_0000_0000
    } else if sum < i32::MIN as i64 {
        sum + 0x1_0000_0000
    } else {
        sum
    };
    if wrapped >= 0 {
        wrapped as u64
    } else {
        (wrapped as i128 + 0x1_0000_0000_0000_0000i128) as u64
    }
}

/// A formation's footprint in whole metres as it stands, turned when the
/// placement is rotated.
pub open spec fn standing_footprint(rules: UnitConfig, rotated: bool) -> (int, int) {
    let width = rules.formation.footprint.width as int / 1000;
    let depth = rules.formation.footprint.depth as int / 1000;
    if rotated { (depth, width) } else { (width, depth) }
}

/// What generating a formation's positions answers.
pub open spec fn positions_outcome(placement: Placement, rules: UnitConfig, seed: i32, result: Result<Vec<(i64, i64)>, Error>) -> bool {
    let width_raw = rules.formation.footprint.width as int;
    let depth_raw = rules.formation.footprint.depth as int;
    let slot_raw = rules.formation.slot_size as int;
    if width_raw % 1000 != 0 {
        result matches Err(error) && error.message@
            == "unit config field formation.footprint.width must use whole meters for layout placement"@
    } else if depth_raw % 1000 != 0 {
        result matches Err(error) && error.message@
            == "unit config field formation.footprint.depth must use whole meters for layout placement"@
    } else if slot_raw % 1000 != 0 {
        result matches Err(error) && error.message@
            == "unit config field formation.slot_size must use whole meters for member generation"@
    } else {
        let (width, depth) = standing_footprint(rules, placement.rotated);
        match grid_spec(rules.formation.members as int, width, depth, slot_raw / 1000, rules.name@) {
            Err(message) => result matches Err(error) && error.message@ == message,
            Ok(grid) => result matches Ok(positions) && positions.len() == rules.formation.members && forall|m: int|
                0 <= m < positions.len() ==> #[trigger] positions@[m] == member_position(
                    m,
                    rules.formation.members as int,
                    grid,
                    depth,
                    placement,
                    crate::random::seeded_spec(formation_seed_spec(seed, placement.formation_index)),
                ),
        }
    }
}

/// Whether generating a formation's positions stays within `i64` wherever
/// its arithmetic does not saturate, and divides by a slot that is not zero.
pub open spec fn positions_computable(placement: Placement, rules: UnitConfig) -> bool {
    let slot_raw = rules.formation.slot_size as int;
    &&& (slot_raw % 1000 == 0 ==> slot_raw / 1000 != 0)
    &&& {
        let (width, depth) = standing_footprint(rules, placement.rotated);
        match grid_spec(rules.formation.members as int, width, depth, slot_raw / 1000, rules.name@) {
            Ok(grid) => frame_fits(rules.formation.members as int, grid, depth),
            Err(_) => true,
        }
    }
}

/// Where each member of a formation stands when the fight begins, in Q32.32
/// metres, in the order the members are created: front row first, each row
/// from its left.
pub fn generate_formation_positions(placement: &Placement, rules: &UnitConfig, seed: i32) -> (result: Result<
    Vec<(i64, i64)>,
    Error,
>)
    requires
        positions_computable(*placement, *rules),
    ensures
        positions_outcome(*placement, *rules, seed, result),
{
    let members: i64 = rules.formation.members as i64;
    let (width, depth) = rules.formation_footprint_meters()?;
    let (width, depth) = if placement.rotated {
        (depth, width)
    } else {
        (width, depth)
    };
    let slot_size = rules.formation_slot_size_meters()?;
    proof {
        assert(width == standing_footprint(*rules, placement.rotated).0);
        assert(depth == standing_footprint(*rules, placement.rotated).1);
        assert(-9_223_372_036_854_776 <= width <= 9_223_372_036_854_776);
    }
    let max_columns = quotient(width, slot_size);
    if max_columns <= 0 {
        let quoted = debug_text(rules.name.as_str());
        return Err(Error::new(join3("unit ", quoted.as_str(), " formation slot size exceeds its footprint width")));
    }
    proof {
        assert(max_columns <= 9_223_372_036_854_776) by (nonlinear_arith)
            requires
                -9_223_372_036_854_776 <= width <= 9_223_372_036_854_776,
                slot_size != 0,
                max_columns == div_trunc_any(width as int, slot_size as int),
                max_columns > 0,
        {
            if slot_size > 0 {
                if width >= 0 {
                    assert(width as int / slot_size as int <= width);
                } else {
                    assert(-width as int / slot_size as int >= 0);
                }
            } else {
                if width >= 0 {
                    assert(width as int / (-slot_size as int) >= 0);
                } else {
                    assert(-width as int / (-slot_size as int) <= -width);
                }
            }
        }
    }
    let rows = saturating_add(members, max_columns - 1) / max_columns;
    if rows <= 0 {
        let quoted = debug_text(rules.name.as_str());
        return Err(Error::new(join3("unit ", quoted.as_str(), " formation has no member rows")));
    }
    let row_step = quotient(depth, rows);
    let column_step = quotient(width, max_columns);
    if row_step <= 0 || column_step <= 0 {
        let quoted = debug_text(rules.name.as_str());
        return Err(Error::new(join3("unit ", quoted.as_str(), " formation grid has a nonpositive native step")));
    }
    let ghost grid = Grid { max_columns, rows, row_step, column_step };
    proof {
        assert(grid_spec(members as int, width as int, depth as int, slot_size as int, rules.name@) == Ok::<
            Grid,
            Seq<char>,
        >(grid));
        let total: int = members + max_columns - 1;
        assert(rows == total / (max_columns as int));
        assert(rows * max_columns >= members && (rows - 1) * max_columns < members) by (nonlinear_arith)
            requires
                max_columns > 0,
                members >= 0,
                rows == (members + max_columns - 1) / (max_columns as int),
        ;
    }
    let stream_seed = formation_seed(seed, placement.formation_index);
    let mut random = GrRandom::new(stream_seed);
    let ghost start = random@;
    let direction: i64 = if placement.team == 0 {
        1
    } else {
        -1
    };
    let center_x = saturating_mul(placement.world_x, Q32_ONE);
    let center_z = saturating_mul(placement.world_z, Q32_ONE);
    let mut positions: Vec<(i64, i64)> = Vec::new();
    let mut row: i64 = 0;
    while row < rows
        invariant
            0 <= row <= rows,
            max_columns > 0,
            rows * max_columns >= members,
            (rows - 1) * max_columns < members,
            0 <= members <= u32::MAX,
            members == rules.formation.members,
            grid == (Grid { max_columns, rows, row_step, column_step }),
            row_step > 0,
            column_step > 0,
            frame_fits(members as int, grid, depth as int),
            direction == (if placement.team == 0 { 1int } else { -1int }),
            center_x == clamp_i64(placement.world_x * Q32_ONE),
            center_z == clamp_i64(placement.world_z * Q32_ONE),
            start == crate::random::seeded_spec(formation_seed_spec(seed, placement.formation_index)),
            positions.len() == (if row * max_columns <= members { row * max_columns } else { members as int }),
            random@ == after_draws(start, (2 * positions.len()) as nat),
            forall|m: int| 0 <= m < positions.len() ==> #[trigger] positions@[m] == member_position(
                m,
                members as int,
                grid,
                depth as int,
                *placement,
                start,
            ),
        decreases rows - row,
    {
        proof {
            assert(row * max_columns < members) by (nonlinear_arith)
                requires
                    row < rows,
                    (rows - 1) * max_columns < members,
                    max_columns > 0,
            ;
            assert(row * max_columns <= (rows - 1) * max_columns) by (nonlinear_arith)
                requires
                    row <= rows - 1,
                    max_columns > 0,
            ;
        }
        let placed = positions.len() as i64;
        let remaining = members - placed;
        let columns = if max_columns <= remaining {
            max_columns
        } else {
            remaining
        };
        let mut column: i64 = 0;
        while column < columns
            invariant
                0 <= column <= columns,
                0 <= row < rows,
                columns == (if max_columns <= members - row * max_columns { max_columns as int } else { members - row * max_columns }),
                0 < columns <= max_columns,
                max_columns > 0,
                rows * max_columns >= members,
                row * max_columns < members,
                0 <= members <= u32::MAX,
                members == rules.formation.members,
                grid == (Grid { max_columns, rows, row_step, column_step }),
                row_step > 0,
                column_step > 0,
                frame_fits(members as int, grid, depth as int),
                direction == (if placement.team == 0 { 1int } else { -1int }),
                center_x == clamp_i64(placement.world_x * Q32_ONE),
                center_z == clamp_i64(placement.world_z * Q32_ONE),
                positions.len() == row * max_columns + column,
                random@ == after_draws(start, (2 * positions.len()) as nat),
                forall|m: int| 0 <= m < positions.len() ==> #[trigger] positions@[m] == member_position(
                    m,
                    members as int,
                    grid,
                    depth as int,
                    *placement,
                    start,
                ),
            decreases columns - column,
        {
            let ghost index = positions.len() as int;
            proof {
                vstd::arithmetic::div_mod::lemma_fundamental_div_mod_converse(
                    index,
                    max_columns as int,
                    row as int,
                    column as int,
                );
                assert(index < members);
                assert(frame_fits_at(index, members as int, grid, depth as int));
            }
            let along = saturating_add(saturating_mul(saturating_mul(row, row_step), Q32_ONE), saturating_mul(row_step, Q32_ONE) / 2);
            let local_z = saturating_mul(depth, Q32_ONE) / 2 - (saturating_mul(saturating_mul(row, row_step), Q32_ONE)
                + saturating_mul(row_step, Q32_ONE) / 2);
            let occupied = saturating_mul(columns, column_step);
            let local_x = saturating_mul(saturating_mul(column, column_step), Q32_ONE) + saturating_mul(column_step, Q32_ONE) / 2
                - saturating_mul(occupied, Q32_ONE) / 2;
            let jitter_x = saturating_mul(random.next_in_range(FORMATION_JITTER_RANGE_TENTHS) as i64, C0_1_RAW);
            let jitter_z = saturating_mul(random.next_in_range(FORMATION_JITTER_RANGE_TENTHS) as i64, C0_1_RAW);
            let x = saturating_add(center_x, saturating_mul(saturating_add(local_x, jitter_x), direction));
            let z = saturating_add(center_z, saturating_mul(saturating_add(local_z, jitter_z), direction));
            positions.push((x, z));
            proof {
                assert(positions@[index] == member_position(index, members as int, grid, depth as int, *placement, start));
            }
            column = column + 1;
        }
        row = row + 1;
        proof {
            assert(positions.len() == (if row * max_columns <= members { row * max_columns } else { members as int })) by (nonlinear_arith)
                requires
                    positions.len() == (row - 1) * max_columns + columns,
                    columns == (if max_columns <= members - (row - 1) * max_columns { max_columns as int } else { members - (row - 1) * max_columns }),
            ;
        }
    }
    if positions.len() != rules.formation.members as usize {
        let quoted = debug_text(rules.name.as_str());
        return Err(Error::new(join3("unit ", quoted.as_str(), " formation generation produced the wrong member count")));
    }
    Ok(positions)
}

} // verus!
