//! The game board: whose turn of events it is, what is selected, the score,
//! and the steps of a turn.
//!
//! The board does not own a timeline. Whoever presents the game calls one
//! step, shows what it did, and calls the next when the show is over:
//! [`GameBoard::process_matches`] resolves the matches on the board,
//! [`GameBoard::apply_gravity`] lets the symbols fall,
//! [`GameBoard::refill_board`] fills the gaps, and `process_matches` again
//! finds what the fall has lined up.

use crate::gravity::{
    column_settled, is_fall_list, is_fall_list_up_to, is_settled_from, landed, landing_row,
    lemma_fall_list_next_column, lemma_fall_list_push, lemma_fall_list_skip, lemma_occupied_from,
    lemma_settled_in_sync, lemma_settled_is_compact, occupied_from, Fall,
};
use crate::matching::{
    all_positions, has_match, is_full_scan, score_for_len, without_repeats, Match, MatchFinder,
};
use crate::symbols::{Grid, GridPos, GridView, Symbol, SymbolType};
use vstd::prelude::*;

verus! {

/// What the board is doing.
#[derive(Debug, Clone, Copy, PartialEq, Eq, Structural)]
pub enum GameState {
    /// Waiting for the player; the rotation timer runs.
    Ready,
    /// One symbol is selected; waiting for the second.
    Selected,
    /// A swap has been accepted and is being carried out.
    Swapping,
    /// Matches have been found and are being cleared.
    Matching,
    /// Symbols are falling into the gaps.
    Falling,
    /// Every symbol is turning to its next face.
    Rotating,
}

impl Default for GameState {
    fn default() -> (r: Self)
        ensures
            r == GameState::Ready,
    {
        GameState::Ready
    }
}

/// Whether two coordinates are neighbours: one step apart along one axis and
/// none along the other. Diagonal cells are no neighbours.
pub open spec fn adjacent(a: GridPos, b: GridPos) -> bool {
    let dx = a.x - b.x;
    let dy = a.y - b.y;
    ((dx == 1 || dx == -1) && dy == 0) || (dx == 0 && (dy == 1 || dy == -1))
}

/// A number of points, held at the largest 32-bit number.
pub open spec fn capped(points: int) -> int {
    if points > i32::MAX {
        i32::MAX as int
    } else {
        points
    }
}

/// The points that the matches `ms` are worth at the combo factor `combo`:
/// each match counts by its length, times the factor.
pub open spec fn total_points(ms: Seq<Match>, combo: int) -> int
    decreases ms.len(),
{
    if ms.len() == 0 {
        0
    } else {
        total_points(ms.drop_last(), combo) + score_for_len(ms.last().positions@.len() as int)
            * combo
    }
}

/// Matches are worth points: at a combo factor of one or more, no matches
/// give nothing and one or more give at least fifty.
pub proof fn lemma_total_points(ms: Seq<Match>, combo: int)
    requires
        combo >= 1,
    ensures
        total_points(ms, combo) >= 0,
        ms.len() > 0 ==> total_points(ms, combo) >= 50,
    decreases ms.len(),
{
    if ms.len() > 0 {
        lemma_total_points(ms.drop_last(), combo);
        let points = score_for_len(ms.last().positions@.len() as int);
        assert(points * combo >= 50) by (nonlinear_arith)
            requires
                points >= 50,
                combo >= 1,
        ;
    }
}

/// What one resolution of the board has found and done.
#[derive(Debug)]
pub struct Resolution {
    /// The matches that were on the board, horizontal ones first.
    pub matches: Vec<Match>,
    /// The points that they added to the score.
    pub score_delta: i32,
    /// The cells that were emptied, each once.
    pub cleared: Vec<GridPos>,
}

/// What a click on the board led to.
#[derive(Debug)]
pub enum ClickOutcome {
    /// Nothing: the click was outside the grid, or the board was busy.
    Ignored,
    /// The clicked cell is now the selected one.
    Selected,
    /// The clicked cell is a neighbour of the selected one, but their
    /// exchange would make no match: the selection is dropped.
    SwapRejected,
    /// The clicked cell and the selected one have changed places, and the
    /// matches that this made have been resolved.
    Swapped(Resolution),
}

/// A new symbol that has been put into a gap.
#[derive(Debug, Clone, Copy, PartialEq, Eq, Structural)]
pub struct Refill {
    /// The cell that was filled.
    pub pos: GridPos,
    /// The type that the new symbol shows.
    pub symbol_type: SymbolType,
}

/// Whether `r` tells of a gap of `before` that in `after` holds a new
/// symbol of the type that `r` names.
pub open spec fn is_refill_in(r: Refill, before: GridView, after: GridView) -> bool {
    &&& before.in_bounds(r.pos.x as int, r.pos.y as int)
    &&& before.cell_at(r.pos) is None
    &&& after.cell_at(r.pos) matches Some(s) && s.is_fresh_at(r.pos) && s.faces@[0] == r.symbol_type
}

/// Whether `list` tells of the gaps of `before` in the columns before `x`
/// and, in column `x`, in the rows before `y`: of each gap once, column by
/// column from the left and each column from the top down.
pub open spec fn is_refill_list_up_to(
    list: Seq<Refill>,
    before: GridView,
    after: GridView,
    x: int,
    y: int,
) -> bool {
    &&& forall|i: int|
        0 <= i < list.len() ==> {
            &&& is_refill_in(#[trigger] list[i], before, after)
            &&& (list[i].pos.x < x || (list[i].pos.x == x && list[i].pos.y < y))
        }
    &&& forall|x2: int, y2: int|
        before.in_bounds(x2, y2) && (#[trigger] before.cell(x2, y2)) is None && (x2 < x || (x2 == x
            && y2 < y)) ==> exists|i: int|
            0 <= i < list.len() && (#[trigger] list[i]).pos == (GridPos {
                x: x2 as i32,
                y: y2 as i32,
            })
    &&& forall|i: int, j: int|
        0 <= i < j < list.len() ==> (#[trigger] list[i]).pos.x < (#[trigger] list[j]).pos.x || (
        list[i].pos.x == list[j].pos.x && list[i].pos.y < list[j].pos.y)
}

/// Whether `after` is the grid `before` with a new symbol in every gap, and
/// `list` tells of all of them.
pub open spec fn is_refilled_from(after: GridView, before: GridView, list: Seq<Refill>) -> bool {
    &&& after.same_size(before)
    &&& forall|x: int, y: int|
        (#[trigger] before.cell(x, y)) is Some ==> after.cell(x, y) == before.cell(x, y)
    &&& forall|x: int, y: int|
        before.in_bounds(x, y) ==> (#[trigger] after.cell(x, y)) is Some
    &&& is_refill_list_up_to(list, before, after, before.width as int, 0)
}

/// The board of one game.
#[derive(Debug)]
pub struct GameBoard {
    /// Number of columns of the grid; `initialize_board` makes a grid of
    /// this width.
    pub grid_width: i32,
    /// Number of rows of the grid; `initialize_board` makes a grid of this
    /// height.
    pub grid_height: i32,
    /// The symbols on the board.
    pub grid: Grid,
    /// The cell that the player has selected, if any.
    pub selected_pos: Option<GridPos>,
    /// What the board is doing.
    pub state: GameState,
    /// Points won so far. Stops at the largest 32-bit number.
    pub score: i32,
    /// The factor by which the next matches count; one more with each
    /// cascade in a row.
    pub combo: i32,
    /// Time units gone by in the ready state since the last rotation.
    pub rotation_timer: u64,
    /// Time units of ready state between two rotations.
    pub rotation_interval: u64,
}

impl GameBoard {
    /// The board's invariant: the grid is well formed and has the size that
    /// the board was set up with, the score is not negative, the combo
    /// factor is at least one, and a cell is selected in the state
    /// `Selected` and none in the state `Ready`.
    pub open spec fn wf(&self) -> bool {
        &&& self.wf_account()
        &&& (self.state == GameState::Ready ==> self.selected_pos is None)
        &&& (self.state == GameState::Selected ==> self.selected_pos is Some)
    }

    /// The part of the invariant that does not speak of the selection: the
    /// grid is well formed and has the size that the board was set up with,
    /// the score is not negative, and the combo factor is at least one.
    pub open spec fn wf_account(&self) -> bool {
        &&& self.grid.wf()
        &&& self.grid@.width == self.grid_width
        &&& self.grid@.height == self.grid_height
        &&& self.score >= 0
        &&& self.combo >= 1
    }

    /// Whether `other` differs from this board at most in the grid, the
    /// selection and the state.
    pub open spec fn same_account(&self, other: &GameBoard) -> bool {
        &&& self.grid_width == other.grid_width
        &&& self.grid_height == other.grid_height
        &&& self.score == other.score
        &&& self.combo == other.combo
        &&& self.rotation_timer == other.rotation_timer
        &&& self.rotation_interval == other.rotation_interval
    }

    /// Whether `other` has the same settings: the size for the next board
    /// and the rotation timer and interval.
    pub open spec fn same_setup(&self, other: &GameBoard) -> bool {
        &&& self.grid_width == other.grid_width
        &&& self.grid_height == other.grid_height
        &&& self.rotation_timer == other.rotation_timer
        &&& self.rotation_interval == other.rotation_interval
    }

    /// Whether this board is what one resolution leaves of a board with the
    /// grid `grid`, the score `score` and the combo factor `combo`, and `r`
    /// is the account of it.
    ///
    /// The matches are those of a scan of the whole grid. Without a match
    /// the grid and the score stay, the combo factor is one and the board
    /// is ready. With matches each counts by its length times `combo`, the
    /// factor is one more, every cell of a match is empty, and the board is
    /// in the state `Matching`.
    pub open spec fn is_resolution_of(
        &self,
        r: &Resolution,
        grid: GridView,
        score: int,
        combo: int,
    ) -> bool {
        &&& is_full_scan(r.matches@, grid)
        &&& r.cleared@ == without_repeats(all_positions(r.matches@))
        &&& self.grid@ == grid.without(r.cleared@)
        &&& self.score == capped(score + total_points(r.matches@, combo))
        &&& r.score_delta == self.score - score
        &&& self.combo == (if r.matches@.len() == 0 {
            1
        } else {
            capped(combo + 1)
        })
        &&& self.state == (if r.matches@.len() == 0 {
            GameState::Ready
        } else {
            GameState::Matching
        })
    }

    /// Whether the board's invariant holds. It does for every board that
    /// was made and changed by the functions of this type alone.
    pub fn is_well_formed(&self) -> (r: bool)
        ensures
            r == self.wf(),
    {
        let selection_fits = match self.state {
            GameState::Ready => self.selected_pos.is_none(),
            GameState::Selected => self.selected_pos.is_some(),
            _ => true,
        };
        self.grid.is_well_formed() && self.grid_width >= 0 && self.grid_height >= 0
            && self.grid.width == self.grid_width as usize && self.grid.height
            == self.grid_height as usize && self.score >= 0 && self.combo >= 1 && selection_fits
    }

    /// A board of eight by eight empty cells in the ready state, with no
    /// points, a combo factor of one, and a rotation every five time units.
    pub fn init() -> (r: Self)
        ensures
            r.wf(),
            r.grid_width == 8,
            r.grid_height == 8,
            r.grid@.is_empty(),
            r.selected_pos is None,
            r.state == GameState::Ready,
            r.score == 0,
            r.combo == 1,
            r.rotation_timer == 0,
            r.rotation_interval == 5,
    {
        GameBoard {
            grid_width: 8,
            grid_height: 8,
            grid: Grid::new(8, 8),
            selected_pos: None,
            state: GameState::Ready,
            score: 0,
            combo: 1,
            rotation_timer: 0,
            rotation_interval: 5,
        }
    }

    /// Lets `delta` time units go by and tells whether a rotation is due.
    ///
    /// Time counts in the ready state only. When the time since the last
    /// rotation reaches the interval, the timer starts anew and the board
    /// goes to the state `Rotating`; [`GameBoard::finish_rotation`] then
    /// carries the rotation out.
    pub fn process(&mut self, delta: u64) -> (fired: bool)
        ensures
            fired == (old(self).state == GameState::Ready && old(self).rotation_timer + delta >= old(
                self,
            ).rotation_interval),
            final(self).rotation_timer == (if old(self).state != GameState::Ready {
                old(self).rotation_timer as int
            } else if fired {
                0
            } else {
                old(self).rotation_timer + delta
            }),
            final(self).state == (if fired {
                GameState::Rotating
            } else {
                old(self).state
            }),
            final(self).grid == old(self).grid,
            final(self).selected_pos == old(self).selected_pos,
            final(self).grid_width == old(self).grid_width,
            final(self).grid_height == old(self).grid_height,
            final(self).score == old(self).score,
            final(self).combo == old(self).combo,
            final(self).rotation_interval == old(self).rotation_interval,
            old(self).wf() ==> final(self).wf(),
    {
        if self.state == GameState::Ready {
            let due = delta >= self.rotation_interval || self.rotation_timer
                >= self.rotation_interval - delta;
            if due {
                self.rotation_timer = 0;
                self.trigger_rotation()
            } else {
                self.rotation_timer = self.rotation_timer + delta;
                false
            }
        } else {
            false
        }
    }

    /// Whether two coordinates are neighbours: one step apart along one axis
    /// and none along the other.
    pub fn is_adjacent(&self, pos1: GridPos, pos2: GridPos) -> (r: bool)
        ensures
            r == adjacent(pos1, pos2),
    {
        let dx: i64 = pos1.x as i64 - pos2.x as i64;
        let dy: i64 = pos1.y as i64 - pos2.y as i64;
        ((dx == 1 || dx == -1) && dy == 0) || (dx == 0 && (dy == 1 || dy == -1))
    }

    /// Selects the cell `pos`.
    pub fn select_symbol(&mut self, pos: GridPos)
        ensures
            final(self).selected_pos == Some(pos),
            final(self).state == GameState::Selected,
            final(self).grid == old(self).grid,
            final(self).same_account(old(self)),
            old(self).wf() ==> final(self).wf(),
    {
        self.selected_pos = Some(pos);
        self.state = GameState::Selected;
    }

    /// Drops the selection and goes back to the ready state.
    pub fn deselect_symbol(&mut self)
        ensures
            final(self).selected_pos is None,
            final(self).state == GameState::Ready,
            final(self).grid == old(self).grid,
            final(self).same_account(old(self)),
            old(self).wf() ==> final(self).wf(),
    {
        self.selected_pos = None;
        self.state = GameState::Ready;
    }

    /// Exchanges the symbols at `pos1` and `pos2` on the board. Where one
    /// of the two cells holds no symbol, the board stays as it is.
    pub fn swap_symbols(&mut self, pos1: GridPos, pos2: GridPos)
        requires
            old(self).grid.wf(),
        ensures
            final(self).grid.wf(),
            final(self).grid@ == old(self).grid@.swapped(pos1, pos2),
            old(self).grid@.positions_in_sync() ==> final(self).grid@.positions_in_sync(),
            final(self).selected_pos == old(self).selected_pos,
            final(self).state == old(self).state,
            final(self).same_account(old(self)),
            old(self).wf() ==> final(self).wf(),
    {
        proof {
            self.grid@.lemma_swapped(pos1, pos2);
            if self.grid@.positions_in_sync() {
                self.grid@.lemma_swapped_in_sync(pos1, pos2);
            }
        }
        self.grid.swap_cells(pos1, pos2);
    }

    /// Starts a rotation if the board is ready, and tells whether it did.
    /// In any other state nothing happens.
    pub fn trigger_rotation(&mut self) -> (started: bool)
        ensures
            started == (old(self).state == GameState::Ready),
            final(self).state == (if started {
                GameState::Rotating
            } else {
                old(self).state
            }),
            final(self).grid == old(self).grid,
            final(self).selected_pos == old(self).selected_pos,
            final(self).same_account(old(self)),
            old(self).wf() ==> final(self).wf(),
    {
        if self.state != GameState::Ready {
            return false;
        }
        self.state = GameState::Rotating;
        true
    }

    /// The points that `matches` are worth at the factor `combo`, held at
    /// the largest 32-bit number.
    fn points_for(matches: &Vec<Match>, combo: i32) -> (r: i32)
        requires
            combo >= 1,
        ensures
            r == capped(total_points(matches@, combo as int)),
            r >= 0,
    {
        let mut acc: i64 = 0;
        let mut i: usize = 0;
        while i < matches.len()
            invariant
                combo >= 1,
                i <= matches@.len(),
                acc == capped(total_points(matches@.take(i as int), combo as int)),
                0 <= acc <= i32::MAX,
            decreases matches@.len() - i,
        {
            let points: i64 = matches[i].score() as i64;
            proof {
                assert(matches@.take(i + 1).drop_last() == matches@.take(i as int));
                assert(matches@.take(i + 1).last() == matches@[i as int]);
                lemma_total_points(matches@.take(i as int), combo as int);
                assert(0 <= points * combo <= 400 * 0x8000_0000) by (nonlinear_arith)
                    requires
                        50 <= points <= 400,
                        1 <= combo <= 0x7fff_ffff,
                ;
            }
            let sum: i64 = acc + points * (combo as i64);
            acc = if sum > i32::MAX as i64 {
                i32::MAX as i64
            } else {
                sum
            };
            i += 1;
        }
        proof {
            assert(matches@.take(matches@.len() as int) == matches@);
        }
        acc as i32
    }

    /// Empties the cells at `positions`.
    pub fn clear_symbols(&mut self, positions: &[GridPos])
        requires
            old(self).grid.wf(),
        ensures
            final(self).grid.wf(),
            final(self).grid@ == old(self).grid@.without(positions@),
            old(self).grid@.positions_in_sync() ==> final(self).grid@.positions_in_sync(),
            final(self).selected_pos == old(self).selected_pos,
            final(self).state == old(self).state,
            final(self).same_account(old(self)),
            old(self).wf() ==> final(self).wf(),
    {
        let mut i: usize = 0;
        while i < positions.len()
            invariant
                i <= positions@.len(),
                self.grid.wf(),
                self.grid@ == old(self).grid@.without(positions@.take(i as int)),
                self.selected_pos == old(self).selected_pos,
                self.state == old(self).state,
                self.same_account(old(self)),
            decreases positions@.len() - i,
        {
            proof {
                assert(positions@.take(i + 1).drop_last() == positions@.take(i as int));
                assert(positions@.take(i + 1).last() == positions@[i as int]);
            }
            self.grid.set_at(positions[i], None);
            i += 1;
        }
        proof {
            assert(positions@.take(positions@.len() as int) == positions@);
            old(self).grid@.lemma_without(positions@);
            if old(self).grid@.positions_in_sync() {
                old(self).grid@.lemma_without_in_sync(positions@);
            }
        }
    }

    /// Resolves the matches on the board once.
    ///
    /// If there is no match, the combo factor goes back to one, the
    /// selection is dropped and the board is ready. Otherwise each match
    /// counts by its length times the combo factor, the factor grows by one
    /// for the cascade that may follow, the matched cells are emptied, and
    /// the board is in the state `Matching`. The score and the factor stop
    /// at the largest 32-bit number, so the score never goes down.
    pub fn process_matches(&mut self) -> (r: Resolution)
        requires
            old(self).wf_account(),
        ensures
            final(self).wf(),
            final(self).is_resolution_of(
                &r,
                old(self).grid@,
                old(self).score as int,
                old(self).combo as int,
            ),
            old(self).grid@.positions_in_sync() ==> final(self).grid@.positions_in_sync(),
            r.matches@.len() > 0 <==> has_match(old(self).grid@),
            final(self).combo == 1 <==> r.matches@.len() == 0,
            final(self).score >= old(self).score,
            final(self).selected_pos == (if r.matches@.len() == 0 {
                None
            } else {
                old(self).selected_pos
            }),
            final(self).same_setup(old(self)),
    {
        let matches = MatchFinder::find_all(&self.grid);
        if matches.len() == 0 {
            self.combo = 1;
            self.state = GameState::Ready;
            self.selected_pos = None;
            return Resolution { matches, score_delta: 0, cleared: Vec::new() };
        }
        self.state = GameState::Matching;
        let points = Self::points_for(&matches, self.combo);
        proof {
            lemma_total_points(matches@, self.combo as int);
        }
        let before = self.score;
        let sum: i64 = self.score as i64 + points as i64;
        self.score = if sum > i32::MAX as i64 {
            i32::MAX
        } else {
            sum as i32
        };
        if self.combo < i32::MAX {
            self.combo = self.combo + 1;
        }
        let cleared = MatchFinder::get_matched_positions(matches.as_slice());
        self.clear_symbols(cleared.as_slice());
        Resolution { matches, score_delta: self.score - before, cleared }
    }

    /// Exchanges the symbols at `pos1` and `pos2` if that makes a match, and
    /// resolves the matches. An exchange that makes no match is not carried
    /// out: the grid stays as it is, the selection is dropped, and the board
    /// is ready.
    pub fn try_swap(&mut self, pos1: GridPos, pos2: GridPos) -> (r: Option<Resolution>)
        requires
            old(self).wf(),
        ensures
            final(self).wf(),
            old(self).grid@.positions_in_sync() ==> final(self).grid@.positions_in_sync(),
            final(self).same_setup(old(self)),
            r is Some <==> old(self).grid@.can_swap(pos1, pos2) && has_match(
                old(self).grid@.swapped(pos1, pos2),
            ),
            match r {
                Some(resolution) => {
                    &&& final(self).is_resolution_of(
                        &resolution,
                        old(self).grid@.swapped(pos1, pos2),
                        old(self).score as int,
                        old(self).combo as int,
                    )
                    &&& resolution.matches@.len() > 0
                    &&& final(self).state == GameState::Matching
                    &&& final(self).selected_pos == old(self).selected_pos
                    &&& final(self).score >= old(self).score
                },
                None => {
                    &&& final(self).grid@ == old(self).grid@
                    &&& final(self).state == GameState::Ready
                    &&& final(self).selected_pos is None
                    &&& final(self).score == old(self).score
                    &&& final(self).combo == old(self).combo
                },
            },
    {
        if !MatchFinder::would_create_match(&self.grid, pos1, pos2) {
            self.deselect_symbol();
            return None;
        }
        self.state = GameState::Swapping;
        self.swap_symbols(pos1, pos2);
        Some(self.process_matches())
    }

    /// Takes a click on the cell `grid_pos`.
    ///
    /// A ready board selects the cell. A board with a selection tries to
    /// exchange the selected cell with the clicked one if the two are
    /// neighbours, and selects the clicked cell instead if they are not. A
    /// click outside the grid, or while the board is busy, does nothing.
    pub fn handle_click(&mut self, grid_pos: GridPos) -> (r: ClickOutcome)
        requires
            old(self).wf(),
        ensures
            final(self).wf(),
            old(self).grid@.positions_in_sync() ==> final(self).grid@.positions_in_sync(),
            final(self).same_setup(old(self)),
            final(self).score >= old(self).score,
            r is Ignored <==> !old(self).grid@.in_bounds(grid_pos.x as int, grid_pos.y as int) || (
            old(self).state != GameState::Ready && old(self).state != GameState::Selected),
            r is Selected <==> old(self).grid@.in_bounds(grid_pos.x as int, grid_pos.y as int) && (
            old(self).state == GameState::Ready || (old(self).state == GameState::Selected
                && !adjacent(old(self).selected_pos.unwrap(), grid_pos))),
            r is Swapped <==> old(self).grid@.in_bounds(grid_pos.x as int, grid_pos.y as int)
                && old(self).state == GameState::Selected && adjacent(
                old(self).selected_pos.unwrap(),
                grid_pos,
            ) && has_match(old(self).grid@.swapped(old(self).selected_pos.unwrap(), grid_pos))
                && old(self).grid@.can_swap(old(self).selected_pos.unwrap(), grid_pos),
            match r {
                ClickOutcome::Ignored => {
                    &&& final(self).grid@ == old(self).grid@
                    &&& final(self).state == old(self).state
                    &&& final(self).selected_pos == old(self).selected_pos
                    &&& final(self).score == old(self).score
                    &&& final(self).combo == old(self).combo
                },
                ClickOutcome::Selected => {
                    &&& final(self).grid@ == old(self).grid@
                    &&& final(self).state == GameState::Selected
                    &&& final(self).selected_pos == Some(grid_pos)
                    &&& final(self).score == old(self).score
                    &&& final(self).combo == old(self).combo
                },
                ClickOutcome::SwapRejected => {
                    &&& final(self).grid@ == old(self).grid@
                    &&& final(self).state == GameState::Ready
                    &&& final(self).selected_pos is None
                    &&& final(self).score == old(self).score
                    &&& final(self).combo == old(self).combo
                },
                ClickOutcome::Swapped(resolution) => {
                    &&& final(self).is_resolution_of(
                        &resolution,
                        old(self).grid@.swapped(old(self).selected_pos.unwrap(), grid_pos),
                        old(self).score as int,
                        old(self).combo as int,
                    )
                    &&& resolution.matches@.len() > 0
                    &&& final(self).state == GameState::Matching
                    &&& final(self).selected_pos == old(self).selected_pos
                },
            },
    {
        if !self.grid.is_valid(grid_pos.x, grid_pos.y) {
            return ClickOutcome::Ignored;
        }
        match self.state {
            GameState::Ready => {
                self.select_symbol(grid_pos);
                ClickOutcome::Selected
            },
            GameState::Selected => {
                match self.selected_pos {
                    Some(selected) => {
                        if self.is_adjacent(selected, grid_pos) {
                            match self.try_swap(selected, grid_pos) {
                                Some(resolution) => ClickOutcome::Swapped(resolution),
                                None => ClickOutcome::SwapRejected,
                            }
                        } else {
                            self.deselect_symbol();
                            self.select_symbol(grid_pos);
                            ClickOutcome::Selected
                        }
                    },
                    None => ClickOutcome::Ignored,
                }
            },
            _ => ClickOutcome::Ignored,
        }
    }

    /// Carries out the rotation: every symbol turns to its next face, and
    /// the matches that this has lined up are resolved.
    pub fn finish_rotation(&mut self) -> (r: Resolution)
        requires
            old(self).wf_account(),
        ensures
            final(self).wf(),
            old(self).grid@.positions_in_sync() ==> final(self).grid@.positions_in_sync(),
            final(self).same_setup(old(self)),
            final(self).is_resolution_of(
                &r,
                old(self).grid@.rotated(),
                old(self).score as int,
                old(self).combo as int,
            ),
            r.matches@.len() > 0 <==> has_match(old(self).grid@.rotated()),
            final(self).combo == 1 <==> r.matches@.len() == 0,
            final(self).score >= old(self).score,
            final(self).selected_pos == (if r.matches@.len() == 0 {
                None
            } else {
                old(self).selected_pos
            }),
    {
        proof {
            self.grid@.lemma_rotated();
            if self.grid@.positions_in_sync() {
                self.grid@.lemma_rotated_in_sync();
            }
        }
        self.grid.rotate_all();
        self.state = GameState::Ready;
        self.process_matches()
    }

    /// Lets the symbols fall: in each column they move down into the gaps
    /// below them, keep their order, and leave the cells above them empty.
    /// Returns the moves, column by column from the left and each column
    /// from the bottom up. The board is then in the state `Falling`.
    pub fn apply_gravity(&mut self) -> (moves: Vec<Fall>)
        requires
            old(self).grid.wf(),
        ensures
            final(self).grid.wf(),
            is_settled_from(final(self).grid@, old(self).grid@),
            forall|x: int, y: int|
                old(self).grid@.in_bounds(x, y) ==> ((#[trigger] final(self).grid@.cell(x, y))
                    is Some <==> y >= old(self).grid@.height - occupied_from(
                    old(self).grid@,
                    x,
                    0,
                )),
            is_fall_list(moves@, old(self).grid@),
            old(self).grid@.positions_in_sync() ==> final(self).grid@.positions_in_sync(),
            final(self).state == GameState::Falling,
            final(self).selected_pos == old(self).selected_pos,
            final(self).same_account(old(self)),
            old(self).wf() ==> final(self).wf(),
    {
        self.state = GameState::Falling;
        let width = self.grid.width;
        let height = self.grid.height;
        let ghost before = self.grid@;
        let mut moves: Vec<Fall> = Vec::new();
        let mut x: usize = 0;
        while x < width
            invariant
                before == old(self).grid@,
                before.wf(),
                self.grid.wf(),
                self.grid@.same_size(before),
                width == before.width,
                height == before.height,
                x <= width,
                forall|x2: int| 0 <= x2 < x ==> #[trigger] column_settled(before, self.grid@, x2),
                forall|x2: int, y: int|
                    x <= x2 ==> #[trigger] self.grid@.cell(x2, y) == before.cell(x2, y),
                is_fall_list_up_to(moves@, before, x as int, height as int),
                self.state == GameState::Falling,
                self.selected_pos == old(self).selected_pos,
                self.same_account(old(self)),
            decreases width - x,
        {
            let ghost at_column = self.grid@;
            let mut write_end: usize = height;
            let mut read_end: usize = height;
            while read_end > 0
                invariant
                    before == old(self).grid@,
                    before.wf(),
                    self.grid.wf(),
                    self.grid@.same_size(before),
                    width == before.width,
                    height == before.height,
                    x < width,
                    read_end <= write_end <= height,
                    write_end == height - occupied_from(before, x as int, read_end as int),
                    forall|x2: int, y: int|
                        x2 != x ==> #[trigger] self.grid@.cell(x2, y) == at_column.cell(x2, y),
                    forall|y: int|
                        y < read_end ==> #[trigger] self.grid@.cell(x as int, y) == before.cell(
                            x as int,
                            y,
                        ),
                    forall|y: int|
                        read_end <= y && (#[trigger] before.cell(x as int, y)) is Some
                            ==> self.grid@.cell(x as int, landing_row(before, x as int, y)) == Some(
                            landed(
                                before.cell(x as int, y).unwrap(),
                                x as int,
                                y,
                                landing_row(before, x as int, y),
                            ),
                        ),
                    forall|y: int|
                        read_end <= y < write_end ==> (#[trigger] self.grid@.cell(x as int, y))
                            is None,
                    is_fall_list_up_to(moves@, before, x as int, read_end as int),
                    self.state == GameState::Falling,
                    self.selected_pos == old(self).selected_pos,
                    self.same_account(old(self)),
                decreases read_end,
            {
                let read_y: usize = read_end - 1;
                let ghost grid_before = self.grid@;
                let ghost moves_before = moves@;
                proof {
                    lemma_occupied_from(before, x as int, read_y as int, read_end as int);
                    assert forall|y: int|
                        read_end <= y && (#[trigger] before.cell(x as int, y)) is Some implies landing_row(
                        before,
                        x as int,
                        y,
                    ) >= write_end by {
                        lemma_occupied_from(before, x as int, read_end as int, y);
                    }
                }
                if self.grid.get(x, read_y).is_some() {
                    let write_y: usize = write_end - 1;
                    assert(landing_row(before, x as int, read_y as int) == write_y);
                    if read_y != write_y {
                        let symbol = self.grid.take(x, read_y);
                        proof {
                            grid_before.lemma_put(x as int, read_y as int, None);
                        }
                        let ghost lifted = self.grid@;
                        match symbol {
                            Some(mut s) => {
                                s.grid_pos = GridPos::new(x as i32, write_y as i32);
                                proof {
                                    lifted.lemma_put(x as int, write_y as int, Some(s));
                                }
                                self.grid.set(x, write_y, Some(s));
                            },
                            None => {},
                        }
                        let fall = Fall {
                            from: GridPos::new(x as i32, read_y as i32),
                            to: GridPos::new(x as i32, write_y as i32),
                        };
                        moves.push(fall);
                        proof {
                            lemma_fall_list_push(
                                moves_before,
                                fall,
                                before,
                                x as int,
                                read_y as int,
                            );
                        }
                    } else {
                        proof {
                            lemma_fall_list_skip(moves@, before, x as int, read_y as int);
                        }
                    }
                    write_end = write_y;
                } else {
                    proof {
                        lemma_fall_list_skip(moves@, before, x as int, read_y as int);
                    }
                }
                read_end = read_y;
            }
            proof {
                let after = self.grid@;
                lemma_fall_list_next_column(moves@, before, x as int, read_end as int);
                assert(column_settled(before, after, x as int)) by {
                    assert forall|y: int|
                        (#[trigger] before.cell(x as int, y)) is Some implies after.cell(
                        x as int,
                        landing_row(before, x as int, y),
                    ) == Some(
                        landed(
                            before.cell(x as int, y).unwrap(),
                            x as int,
                            y,
                            landing_row(before, x as int, y),
                        ),
                    ) by {}
                }
                assert forall|x2: int| 0 <= x2 < x + 1 implies #[trigger] column_settled(
                    before,
                    after,
                    x2,
                ) by {
                    if x2 < x {
                        assert(column_settled(before, at_column, x2));
                        assert forall|y: int|
                            (#[trigger] before.cell(x2, y)) is Some implies after.cell(
                            x2,
                            landing_row(before, x2, y),
                        ) == Some(
                            landed(before.cell(x2, y).unwrap(), x2, y, landing_row(before, x2, y)),
                        ) by {
                            assert(after.cell(x2, landing_row(before, x2, y)) == at_column.cell(
                                x2,
                                landing_row(before, x2, y),
                            ));
                        }
                    }
                }
            }
            x += 1;
        }
        proof {
            if before.positions_in_sync() {
                lemma_settled_in_sync(self.grid@, before);
            }
            assert forall|x: int, y: int| before.in_bounds(x, y) implies ((
            #[trigger] self.grid@.cell(x, y)) is Some <==> y >= before.height - occupied_from(
                before,
                x,
                0,
            )) by {
                lemma_settled_is_compact(self.grid@, before, x, y);
            }
        }
        moves
    }

    /// Puts a new symbol of a type drawn at random into every gap, column by
    /// column from the left and each column from the top down, and returns
    /// what was put where. Occupied cells stay as they are.
    pub fn refill_board(&mut self) -> (refills: Vec<Refill>)
        requires
            old(self).grid.wf(),
        ensures
            final(self).grid.wf(),
            is_refilled_from(final(self).grid@, old(self).grid@, refills@),
            old(self).grid@.positions_in_sync() ==> final(self).grid@.positions_in_sync(),
            final(self).state == old(self).state,
            final(self).selected_pos == old(self).selected_pos,
            final(self).same_account(old(self)),
            old(self).wf() ==> final(self).wf(),
    {
        let width = self.grid.width;
        let height = self.grid.height;
        let ghost before = self.grid@;
        let mut refills: Vec<Refill> = Vec::new();
        let mut x: usize = 0;
        while x < width
            invariant
                before == old(self).grid@,
                before.wf(),
                self.grid.wf(),
                self.grid@.same_size(before),
                width == before.width,
                height == before.height,
                x <= width,
                forall|x2: int, y2: int|
                    (#[trigger] before.cell(x2, y2)) is Some ==> self.grid@.cell(x2, y2)
                        == before.cell(x2, y2),
                forall|x2: int, y2: int|
                    x <= x2 ==> #[trigger] self.grid@.cell(x2, y2) == before.cell(x2, y2),
                forall|x2: int, y2: int|
                    before.in_bounds(x2, y2) && x2 < x ==> (#[trigger] self.grid@.cell(x2, y2))
                        is Some,
                is_refill_list_up_to(refills@, before, self.grid@, x as int, 0),
                before.positions_in_sync() ==> self.grid@.positions_in_sync(),
                self.state == old(self).state,
                self.selected_pos == old(self).selected_pos,
                self.same_account(old(self)),
            decreases width - x,
        {
            let mut y: usize = 0;
            while y < height
                invariant
                    before == old(self).grid@,
                    before.wf(),
                    self.grid.wf(),
                    self.grid@.same_size(before),
                    width == before.width,
                    height == before.height,
                    x < width,
                    y <= height,
                    forall|x2: int, y2: int|
                        (#[trigger] before.cell(x2, y2)) is Some ==> self.grid@.cell(x2, y2)
                            == before.cell(x2, y2),
                    forall|x2: int, y2: int|
                        x < x2 || (x == x2 && y <= y2) ==> #[trigger] self.grid@.cell(x2, y2)
                            == before.cell(x2, y2),
                    forall|x2: int, y2: int|
                        before.in_bounds(x2, y2) && (x2 < x || (x2 == x && y2 < y)) ==> (
                        #[trigger] self.grid@.cell(x2, y2)) is Some,
                    is_refill_list_up_to(refills@, before, self.grid@, x as int, y as int),
                    before.positions_in_sync() ==> self.grid@.positions_in_sync(),
                    self.state == old(self).state,
                    self.selected_pos == old(self).selected_pos,
                    self.same_account(old(self)),
                decreases height - y,
            {
                if self.grid.get(x, y).is_none() {
                    let symbol_type = SymbolType::random();
                    let pos = GridPos::new(x as i32, y as i32);
                    let symbol = Symbol::with_type(pos, symbol_type);
                    let ghost grid_before = self.grid@;
                    let ghost list_before = refills@;
                    proof {
                        grid_before.lemma_put(x as int, y as int, Some(symbol));
                    }
                    self.grid.set(x, y, Some(symbol));
                    let refill = Refill { pos, symbol_type };
                    refills.push(refill);
                    proof {
                        let after = self.grid@;
                        assert(is_refill_in(refill, before, after));
                        assert forall|i: int| 0 <= i < refills@.len() implies {
                            &&& is_refill_in(#[trigger] refills@[i], before, after)
                            &&& (refills@[i].pos.x < x || (refills@[i].pos.x == x
                                && refills@[i].pos.y < y + 1))
                        } by {
                            if i < list_before.len() {
                                assert(refills@[i] == list_before[i]);
                                assert(is_refill_in(list_before[i], before, grid_before));
                            }
                        }
                        assert forall|x2: int, y2: int|
                            before.in_bounds(x2, y2) && (#[trigger] before.cell(x2, y2)) is None && (
                            x2 < x || (x2 == x && y2 < y + 1)) implies exists|i: int|
                            0 <= i < refills@.len() && (#[trigger] refills@[i]).pos == (GridPos {
                                x: x2 as i32,
                                y: y2 as i32,
                            }) by {
                            if x2 == x && y2 == y {
                                assert(refills@[list_before.len() as int].pos == (GridPos {
                                    x: x2 as i32,
                                    y: y2 as i32,
                                }));
                            } else {
                                let i = choose|i: int|
                                    0 <= i < list_before.len() && (#[trigger] list_before[i]).pos
                                        == (GridPos { x: x2 as i32, y: y2 as i32 });
                                assert(refills@[i] == list_before[i]);
                            }
                        }
                        assert forall|i: int, j: int| 0 <= i < j < refills@.len() implies (
                        #[trigger] refills@[i]).pos.x < (#[trigger] refills@[j]).pos.x || (
                        refills@[i].pos.x == refills@[j].pos.x && refills@[i].pos.y
                            < refills@[j].pos.y) by {
                            assert(refills@[i] == list_before[i]);
                            if j < list_before.len() {
                                assert(refills@[j] == list_before[j]);
                            }
                        }
                    }
                }
                y += 1;
            }
            x += 1;
        }
        refills
    }

    /// Sets up a new board of the size that `grid_width` and `grid_height`
    /// give, filled as [`Grid::fill_random`] fills it.
    pub fn initialize_board(&mut self)
        requires
            old(self).grid_width >= 0,
            old(self).grid_height >= 0,
            old(self).grid_width * old(self).grid_height <= usize::MAX,
        ensures
            final(self).grid.wf(),
            final(self).grid@.width == old(self).grid_width,
            final(self).grid@.height == old(self).grid_height,
            final(self).grid@.is_freshly_filled(),
            final(self).grid@.positions_in_sync(),
            final(self).state == old(self).state,
            final(self).selected_pos == old(self).selected_pos,
            final(self).same_account(old(self)),
    {
        self.grid = Grid::new(self.grid_width as usize, self.grid_height as usize);
        self.grid.fill_random();
    }

    /// Starts the game anew: no points, a combo factor of one, the timer at
    /// nought, nothing selected, and a new board.
    pub fn reset(&mut self)
        requires
            old(self).grid_width >= 0,
            old(self).grid_height >= 0,
            old(self).grid_width * old(self).grid_height <= usize::MAX,
        ensures
            final(self).wf(),
            final(self).score == 0,
            final(self).combo == 1,
            final(self).rotation_timer == 0,
            final(self).state == GameState::Ready,
            final(self).selected_pos is None,
            final(self).grid@.is_freshly_filled(),
            final(self).grid@.positions_in_sync(),
            final(self).grid_width == old(self).grid_width,
            final(self).grid_height == old(self).grid_height,
            final(self).rotation_interval == old(self).rotation_interval,
    {
        self.score = 0;
        self.combo = 1;
        self.rotation_timer = 0;
        self.state = GameState::Ready;
        self.selected_pos = None;
        self.initialize_board();
    }
}

} // verus!
