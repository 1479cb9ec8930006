//! Gravity: what it means that the symbols of a grid have fallen.
//!
//! Each column falls by itself. Its symbols keep their order and end up
//! next to each other at the bottom; the cells above them are empty.

use crate::symbols::{GridPos, GridView, Symbol};
use vstd::prelude::*;

verus! {

/// The move of one symbol from the cell `from` down to the cell `to`.
#[derive(Debug, Clone, Copy, PartialEq, Eq, Structural)]
pub struct Fall {
    pub from: GridPos,
    pub to: GridPos,
}

/// Number of occupied cells of column `x` in row `y` and below.
pub open spec fn occupied_from(g: GridView, x: int, y: int) -> int
    decreases g.height - y,
{
    if y >= g.height {
        0
    } else {
        (if g.cell(x, y) is Some {
            1int
        } else {
            0int
        }) + occupied_from(g, x, y + 1)
    }
}

/// The row in which the symbol at column `x`, row `y` comes to rest: above
/// it stay as many rows as there are occupied cells below it in its column.
pub open spec fn landing_row(g: GridView, x: int, y: int) -> int {
    g.height - 1 - occupied_from(g, x, y + 1)
}

/// The symbol `s` of column `x` after its fall from `from_row` to `to_row`:
/// a symbol that has moved knows its new cell, one that stays is unchanged.
pub open spec fn landed(s: Symbol, x: int, from_row: int, to_row: int) -> Symbol {
    if from_row == to_row {
        s
    } else {
        s.at(GridPos { x: x as i32, y: to_row as i32 })
    }
}

/// Whether column `x` of `after` is column `x` of `before` after its fall:
/// each symbol stands in its landing row, and the rows above the lowest
/// rows, as many as the column has symbols, are empty.
pub open spec fn column_settled(before: GridView, after: GridView, x: int) -> bool {
    &&& forall|y: int|
        (#[trigger] before.cell(x, y)) matches Some(s) ==> after.cell(x, landing_row(before, x, y))
            == Some(landed(s, x, y, landing_row(before, x, y)))
    &&& forall|y: int|
        0 <= y < before.height - occupied_from(before, x, 0) ==> (#[trigger] after.cell(x, y))
            is None
}

/// Whether `after` is the grid `before` after every column has fallen.
pub open spec fn is_settled_from(after: GridView, before: GridView) -> bool {
    &&& after.same_size(before)
    &&& forall|x: int| 0 <= x < before.width ==> #[trigger] column_settled(before, after, x)
}

/// Whether `f` is the fall of a symbol of `before` that does not stay where
/// it is.
pub open spec fn is_fall_in(f: Fall, before: GridView) -> bool {
    &&& before.cell_at(f.from) is Some
    &&& f.to.x == f.from.x
    &&& f.to.y == landing_row(before, f.from.x as int, f.from.y as int)
    &&& f.to.y != f.from.y
}

/// Whether `moves` lists the falls of the columns before `x` and, of column
/// `x`, of row `row` and below: every symbol there that does not stay where
/// it is, once, column by column from the left and each column from the
/// bottom up.
pub open spec fn is_fall_list_up_to(moves: Seq<Fall>, before: GridView, x: int, row: int) -> bool {
    &&& forall|i: int|
        0 <= i < moves.len() ==> {
            &&& is_fall_in(#[trigger] moves[i], before)
            &&& (moves[i].from.x < x || (moves[i].from.x == x && moves[i].from.y >= row))
        }
    &&& forall|x2: int, y: int|
        (#[trigger] before.cell(x2, y)) is Some && landing_row(before, x2, y) != y && (x2 < x || (x2
            == x && y >= row)) ==> exists|i: int|
            0 <= i < moves.len() && (#[trigger] moves[i]).from == (GridPos {
                x: x2 as i32,
                y: y as i32,
            })
    &&& forall|i: int, j: int|
        0 <= i < j < moves.len() ==> (#[trigger] moves[i]).from.x < (#[trigger] moves[j]).from.x || (
        moves[i].from.x == moves[j].from.x && moves[i].from.y > moves[j].from.y)
}

/// Whether `moves` lists the falls of the whole grid `before`.
pub open spec fn is_fall_list(moves: Seq<Fall>, before: GridView) -> bool {
    is_fall_list_up_to(moves, before, before.width as int, 0)
}

/// Below a row there are at most as many occupied cells as there are rows,
/// and no more than below any row above it.
pub proof fn lemma_occupied_from(g: GridView, x: int, a: int, b: int)
    requires
        0 <= a <= b <= g.height,
    ensures
        0 <= occupied_from(g, x, b) <= occupied_from(g, x, a) <= g.height - a,
        occupied_from(g, x, b) <= g.height - b,
    decreases g.height - a,
{
    if a < g.height {
        if a < b {
            lemma_occupied_from(g, x, a + 1, b);
        } else {
            lemma_occupied_from(g, x, a + 1, b + 1);
        }
    }
}

/// No symbol falls upwards or out of the grid: its landing row is its own
/// row or one below it.
pub proof fn lemma_landing_row(g: GridView, x: int, y: int)
    requires
        0 <= y < g.height,
    ensures
        y <= landing_row(g, x, y) < g.height,
{
    lemma_occupied_from(g, x, y + 1, y + 1);
}

/// The fall keeps the order of the symbols of a column: of two symbols, the
/// one that stood above the other lands above it.
pub proof fn lemma_fall_keeps_order(g: GridView, x: int, y1: int, y2: int)
    requires
        0 <= y1 < y2 < g.height,
        g.cell(x, y2) is Some,
    ensures
        landing_row(g, x, y1) < landing_row(g, x, y2),
{
    lemma_occupied_from(g, x, y1 + 1, y2);
}

/// The fall keeps the order of the symbols of a column: of two symbols of
/// `before`, the one that stood above the other stands above it in `after`.
pub proof fn lemma_settled_keeps_order(after: GridView, before: GridView, x: int, y1: int, y2: int)
    requires
        is_settled_from(after, before),
        y1 < y2,
        before.cell(x, y1) is Some,
        before.cell(x, y2) is Some,
    ensures
        landing_row(before, x, y1) < landing_row(before, x, y2),
        after.cell(x, landing_row(before, x, y1)) == Some(
            landed(before.cell(x, y1).unwrap(), x, y1, landing_row(before, x, y1)),
        ),
        after.cell(x, landing_row(before, x, y2)) == Some(
            landed(before.cell(x, y2).unwrap(), x, y2, landing_row(before, x, y2)),
        ),
{
    assert(column_settled(before, after, x));
    lemma_fall_keeps_order(before, x, y1, y2);
}

/// Each of the lowest rows of a column, as many as the column has symbols
/// in row `from` and below, is the landing row of one of those symbols.
pub proof fn lemma_landing_rows_are_taken(g: GridView, x: int, from: int, row: int) -> (y: int)
    requires
        0 <= from <= g.height,
        g.height - occupied_from(g, x, from) <= row < g.height,
    ensures
        from <= y < g.height,
        g.cell(x, y) is Some,
        landing_row(g, x, y) == row,
    decreases g.height - from,
{
    if g.cell(x, from) is Some && landing_row(g, x, from) == row {
        from
    } else {
        lemma_landing_rows_are_taken(g, x, from + 1, row)
    }
}

/// After the fall the symbols of each column stand next to each other at
/// the bottom: a cell is occupied if and only if it lies in one of the
/// lowest rows, as many as its column had symbols.
pub proof fn lemma_settled_is_compact(after: GridView, before: GridView, x: int, y: int)
    requires
        is_settled_from(after, before),
        before.in_bounds(x, y),
    ensures
        after.cell(x, y) is Some <==> y >= before.height - occupied_from(before, x, 0),
{
    assert(column_settled(before, after, x));
    if y >= before.height - occupied_from(before, x, 0) {
        let source = lemma_landing_rows_are_taken(before, x, 0, y);
        assert(before.cell(x, source) is Some);
    }
}

/// After the fall, what stands in a cell is the symbol that has landed
/// there: the cell is the landing row of one symbol of its column.
pub proof fn lemma_settled_source(after: GridView, before: GridView, x: int, y: int) -> (source:
    int)
    requires
        is_settled_from(after, before),
        after.cell(x, y) is Some,
    ensures
        0 <= source <= y,
        before.cell(x, source) matches Some(s) && landing_row(before, x, source) == y
            && after.cell(x, y) == Some(landed(s, x, source, y)),
{
    assert(column_settled(before, after, x));
    lemma_settled_is_compact(after, before, x, y);
    let source = lemma_landing_rows_are_taken(before, x, 0, y);
    assert(before.cell(x, source) is Some);
    lemma_landing_row(before, x, source);
    source
}

/// The fall of a grid has one outcome: two well-formed grids that both are
/// the grid `before` after its fall are the same grid.
pub proof fn lemma_settled_unique(first: GridView, second: GridView, before: GridView)
    requires
        first.wf(),
        second.wf(),
        is_settled_from(first, before),
        is_settled_from(second, before),
    ensures
        first == second,
{
    assert forall|x: int, y: int| first.in_bounds(x, y) implies #[trigger] first.cell(x, y)
        == second.cell(x, y) by {
        lemma_settled_is_compact(first, before, x, y);
        lemma_settled_is_compact(second, before, x, y);
        if first.cell(x, y) is Some {
            assert(column_settled(before, first, x));
            assert(column_settled(before, second, x));
            let source = lemma_landing_rows_are_taken(before, x, 0, y);
            assert(before.cell(x, source) is Some);
        }
    }
    first.lemma_same_cells(second);
}

/// A fall keeps every symbol's stored position in step with its cell.
pub proof fn lemma_settled_in_sync(after: GridView, before: GridView)
    requires
        before.wf(),
        is_settled_from(after, before),
        before.positions_in_sync(),
    ensures
        after.positions_in_sync(),
{
    assert forall|x: int, y: int| (#[trigger] after.cell(x, y)) is Some implies after.cell(
        x,
        y,
    ).unwrap().grid_pos.x == x && after.cell(x, y).unwrap().grid_pos.y == y by {
        let source = lemma_settled_source(after, before, x, y);
        assert(before.cell(x, source) is Some);
    }
}

/// A list of falls that has come to a symbol that moves is one that has
/// passed it when it has taken up its fall.
pub proof fn lemma_fall_list_push(moves: Seq<Fall>, fall: Fall, before: GridView, x: int, row: int)
    requires
        is_fall_list_up_to(moves, before, x, row + 1),
        is_fall_in(fall, before),
        fall.from == (GridPos { x: x as i32, y: row as i32 }),
        fall.from.x == x,
        fall.from.y == row,
    ensures
        is_fall_list_up_to(moves.push(fall), before, x, row),
{
    let after = moves.push(fall);
    assert forall|i: int| 0 <= i < after.len() implies {
        &&& is_fall_in(#[trigger] after[i], before)
        &&& (after[i].from.x < x || (after[i].from.x == x && after[i].from.y >= row))
    } by {
        if i < moves.len() {
            assert(after[i] == moves[i]);
        }
    }
    assert forall|x2: int, y: int|
        (#[trigger] before.cell(x2, y)) is Some && landing_row(before, x2, y) != y && (x2 < x || (x2
            == x && y >= row)) implies exists|i: int|
        0 <= i < after.len() && (#[trigger] after[i]).from == (GridPos {
            x: x2 as i32,
            y: y as i32,
        }) by {
        if x2 == x && y == row {
            assert(after[moves.len() as int].from == (GridPos { x: x2 as i32, y: y as i32 }));
        } else {
            let i = choose|i: int|
                0 <= i < moves.len() && (#[trigger] moves[i]).from == (GridPos {
                    x: x2 as i32,
                    y: y as i32,
                });
            assert(after[i] == moves[i]);
        }
    }
    assert forall|i: int, j: int| 0 <= i < j < after.len() implies (#[trigger] after[i]).from.x < (
    #[trigger] after[j]).from.x || (after[i].from.x == after[j].from.x && after[i].from.y
        > after[j].from.y) by {
        assert(after[i] == moves[i]);
        if j < moves.len() {
            assert(after[j] == moves[j]);
        }
    }
}

/// A list of falls that has come to a gap, or to a symbol that stays where
/// it is, has passed it.
pub proof fn lemma_fall_list_skip(moves: Seq<Fall>, before: GridView, x: int, row: int)
    requires
        is_fall_list_up_to(moves, before, x, row + 1),
        before.cell(x, row) is None || landing_row(before, x, row) == row,
    ensures
        is_fall_list_up_to(moves, before, x, row),
{
}

/// A list of falls that has come to the top of a column stands at the
/// bottom of the next.
pub proof fn lemma_fall_list_next_column(moves: Seq<Fall>, before: GridView, x: int, row: int)
    requires
        is_fall_list_up_to(moves, before, x, row),
        row <= 0,
    ensures
        is_fall_list_up_to(moves, before, x + 1, before.height as int),
{
}

} // verus!
