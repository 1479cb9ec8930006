//! Symbol types, symbols with their four faces, and the grid that owns them.

use rand::Rng;
use vstd::prelude::*;

verus! {

/// Number of distinct symbol types.
pub const SYMBOL_TYPE_COUNT: usize = 6;

/// The symbol types of the game, in their fixed order.
#[derive(Debug, Clone, Copy, PartialEq, Eq, Structural, Hash)]
pub enum SymbolType {
    Red,
    Blue,
    Green,
    Yellow,
    Purple,
    Orange,
}

impl Default for SymbolType {
    fn default() -> (r: Self)
        ensures
            r == SymbolType::Red,
    {
        SymbolType::Red
    }
}

/// The symbol type at position `i mod 6` of the fixed order.
pub open spec fn type_of_index(i: int) -> SymbolType {
    let k = i % 6;
    if k == 0 {
        SymbolType::Red
    } else if k == 1 {
        SymbolType::Blue
    } else if k == 2 {
        SymbolType::Green
    } else if k == 3 {
        SymbolType::Yellow
    } else if k == 4 {
        SymbolType::Purple
    } else {
        SymbolType::Orange
    }
}

/// Draws an index below `bound` from the thread-local generator of `rand`
/// (`rand::thread_rng().gen_range(0..bound)`).
///
/// Trusted: the result lies in the half-open range that was asked for. Which
/// value comes back is left open. `gen_range` panics on an empty range, which
/// the precondition excludes. The generator of `thread_rng` panics if the
/// system cannot seed it, at its first use or when it seeds itself anew;
/// no argument decides that.
#[verifier::external_body]
fn random_below(bound: usize) -> (r: usize)
    requires
        bound > 0,
    ensures
        r < bound,
{
    rand::thread_rng().gen_range(0..bound)
}

impl SymbolType {
    /// All symbol types, in order.
    pub const ALL: [SymbolType; 6] = [
        SymbolType::Red,
        SymbolType::Blue,
        SymbolType::Green,
        SymbolType::Yellow,
        SymbolType::Purple,
        SymbolType::Orange,
    ];

    /// Position of this type in the fixed order.
    pub open spec fn spec_index(self) -> int {
        match self {
            SymbolType::Red => 0,
            SymbolType::Blue => 1,
            SymbolType::Green => 2,
            SymbolType::Yellow => 3,
            SymbolType::Purple => 4,
            SymbolType::Orange => 5,
        }
    }

    /// The type that follows this one in the cycle of six.
    pub open spec fn successor(self) -> SymbolType {
        type_of_index(self.spec_index() + 1)
    }

    /// A symbol type drawn at random.
    pub fn random() -> (r: Self) {
        Self::from_index(random_below(SYMBOL_TYPE_COUNT))
    }

    /// Position of this type in the fixed order.
    pub fn index(&self) -> (r: usize)
        ensures
            r == self.spec_index(),
            r < 6,
    {
        match self {
            SymbolType::Red => 0,
            SymbolType::Blue => 1,
            SymbolType::Green => 2,
            SymbolType::Yellow => 3,
            SymbolType::Purple => 4,
            SymbolType::Orange => 5,
        }
    }

    /// The symbol type at position `index mod 6`.
    pub fn from_index(index: usize) -> (r: Self)
        ensures
            r == type_of_index(index as int),
            r.spec_index() == index % 6,
    {
        Self::ALL[index % SYMBOL_TYPE_COUNT]
    }
}

/// A coordinate on the grid: column `x`, row `y`; row 0 is the top row.
#[derive(Debug, Clone, Copy, PartialEq, Eq, Structural, Hash)]
pub struct GridPos {
    pub x: i32,
    pub y: i32,
}

impl GridPos {
    /// The coordinate with column `x` and row `y`.
    pub fn new(x: i32, y: i32) -> (r: Self)
        ensures
            r == (GridPos { x, y }),
    {
        GridPos { x, y }
    }
}

/// The four faces of a symbol that starts out as `symbol_type`: the type
/// itself and its next three successors.
pub open spec fn face_cycle(symbol_type: SymbolType) -> Seq<SymbolType> {
    seq![
        symbol_type,
        symbol_type.successor(),
        symbol_type.successor().successor(),
        symbol_type.successor().successor().successor(),
    ]
}

/// A symbol on the board. It shows one of its four faces at a time.
#[derive(Debug)]
pub struct Symbol {
    /// The faces, in the order in which rotation shows them.
    pub faces: [SymbolType; 4],
    /// Which face is showing, below 4.
    pub rotation_state: u8,
    /// The cell that holds this symbol.
    pub grid_pos: GridPos,
    /// Whether the player has selected this symbol.
    pub selected: bool,
    /// Whether this symbol is about to be cleared.
    pub marked_for_clear: bool,
}

impl Clone for Symbol {
    fn clone(&self) -> (r: Self)
        ensures
            r == *self,
    {
        Symbol {
            faces: self.faces,
            rotation_state: self.rotation_state,
            grid_pos: self.grid_pos,
            selected: self.selected,
            marked_for_clear: self.marked_for_clear,
        }
    }
}

impl Symbol {
    /// The rotation state selects one of the four faces.
    pub open spec fn wf(&self) -> bool {
        self.rotation_state < 4
    }

    /// The face that is showing.
    pub open spec fn spec_current_type(&self) -> SymbolType {
        self.faces@[self.rotation_state as int]
    }

    /// This symbol turned by one face; after the fourth face comes the first.
    pub open spec fn rotated(self) -> Symbol {
        Symbol { rotation_state: ((self.rotation_state + 1) % 4) as u8, ..self }
    }

    /// This symbol with another stored position.
    pub open spec fn at(self, pos: GridPos) -> Symbol {
        Symbol { grid_pos: pos, ..self }
    }

    /// Whether this is a symbol as `with_type` makes it for the cell `pos`:
    /// unrotated, unmarked, and with the face cycle of its first face.
    pub open spec fn is_fresh_at(&self, pos: GridPos) -> bool {
        &&& self.faces@ == face_cycle(self.faces@[0])
        &&& self.rotation_state == 0
        &&& self.grid_pos == pos
        &&& !self.selected
        &&& !self.marked_for_clear
    }

    /// A symbol for the cell `grid_pos` with four faces drawn at random.
    pub fn new(grid_pos: GridPos) -> (r: Self)
        ensures
            r.rotation_state == 0,
            r.grid_pos == grid_pos,
            !r.selected,
            !r.marked_for_clear,
    {
        let faces = [
            SymbolType::from_index(random_below(SYMBOL_TYPE_COUNT)),
            SymbolType::from_index(random_below(SYMBOL_TYPE_COUNT)),
            SymbolType::from_index(random_below(SYMBOL_TYPE_COUNT)),
            SymbolType::from_index(random_below(SYMBOL_TYPE_COUNT)),
        ];
        Symbol { faces, rotation_state: 0, grid_pos, selected: false, marked_for_clear: false }
    }

    /// A symbol for the cell `grid_pos` that shows `symbol_type`.
    ///
    /// Its faces are `symbol_type` and the three types after it, so that all
    /// symbols made from one type turn through the same colors and a
    /// pattern on the board stays a pattern when everything rotates.
    pub fn with_type(grid_pos: GridPos, symbol_type: SymbolType) -> (r: Self)
        ensures
            r.faces@ == face_cycle(symbol_type),
            r.is_fresh_at(grid_pos),
            r.wf(),
            r.spec_current_type() == symbol_type,
    {
        let start = symbol_type.index();
        let faces = [
            symbol_type,
            SymbolType::from_index(start + 1),
            SymbolType::from_index(start + 2),
            SymbolType::from_index(start + 3),
        ];
        Symbol { faces, rotation_state: 0, grid_pos, selected: false, marked_for_clear: false }
    }

    /// Whether the rotation state selects one of the four faces.
    pub fn is_well_formed(&self) -> (r: bool)
        ensures
            r == self.wf(),
    {
        self.rotation_state < 4
    }

    /// The face that is showing.
    pub fn current_type(&self) -> (r: SymbolType)
        requires
            self.wf(),
        ensures
            r == self.spec_current_type(),
    {
        self.faces[self.rotation_state as usize]
    }

    /// Turns the symbol to its next face.
    pub fn rotate(&mut self)
        requires
            old(self).wf(),
        ensures
            *final(self) == old(self).rotated(),
            final(self).wf(),
    {
        self.rotation_state = (self.rotation_state + 1) % 4;
    }

    /// Whether this symbol and `other` show the same type.
    pub fn matches(&self, other: &Symbol) -> (r: bool)
        requires
            self.wf(),
            other.wf(),
        ensures
            r == (self.spec_current_type() == other.spec_current_type()),
    {
        self.current_type() == other.current_type()
    }
}

/// The content of a cell after a rotation: a symbol turns, a gap stays a gap.
pub open spec fn rotated_cell(cell: Option<Symbol>) -> Option<Symbol> {
    match cell {
        Some(s) => Some(s.rotated()),
        None => None,
    }
}

/// Four rotations bring a symbol back to the face it showed: a well-formed
/// symbol that is rotated four times is the symbol it was.
pub proof fn lemma_symbol_four_rotations(s: Symbol)
    requires
        s.wf(),
    ensures
        s.rotated().wf(),
        s.rotated().rotated().rotated().rotated() == s,
        s.rotated().rotated().rotated().rotated().spec_current_type() == s.spec_current_type(),
{
}

/// A cell index is below the number of cells.
pub proof fn lemma_index_in_range(width: int, height: int, x: int, y: int)
    requires
        0 <= x < width,
        0 <= y < height,
    ensures
        0 <= y * width + x < width * height,
{
    assert(y * width + x < width * height) by (nonlinear_arith)
        requires
            0 <= x < width,
            0 <= y < height,
    ;
    assert(0 <= y * width) by (nonlinear_arith)
        requires
            0 <= y,
            0 < width,
    ;
}

/// Two cells with one index are one cell.
pub proof fn lemma_index_injective(width: int, x1: int, y1: int, x2: int, y2: int)
    requires
        0 <= x1 < width,
        0 <= x2 < width,
        0 <= y1,
        0 <= y2,
        y1 * width + x1 == y2 * width + x2,
    ensures
        x1 == x2,
        y1 == y2,
{
    assert(y1 == y2 && x1 == x2) by (nonlinear_arith)
        requires
            0 <= x1 < width,
            0 <= x2 < width,
            0 <= y1,
            0 <= y2,
            y1 * width + x1 == y2 * width + x2,
    ;
}

/// The grid as a mathematical value: its size and its cells, row by row.
pub struct GridView {
    pub width: nat,
    pub height: nat,
    pub cells: Seq<Option<Symbol>>,
}

impl GridView {
    /// There is one cell for each coordinate, coordinates fit the signed
    /// 32-bit numbers of a `GridPos`, and every symbol is well formed.
    pub open spec fn wf(self) -> bool {
        &&& self.width <= i32::MAX
        &&& self.height <= i32::MAX
        &&& self.cells.len() == self.width * self.height
        &&& forall|i: int|
            0 <= i < self.cells.len() ==> ((#[trigger] self.cells[i]) matches Some(s) ==> s.wf())
    }

    /// Whether column `x`, row `y` is a cell of the grid.
    pub open spec fn in_bounds(self, x: int, y: int) -> bool {
        0 <= x < self.width && 0 <= y < self.height
    }

    /// Where the cell at column `x`, row `y` is stored.
    pub open spec fn index(self, x: int, y: int) -> int {
        y * self.width + x
    }

    /// What stands at column `x`, row `y`; nothing stands outside the grid.
    pub open spec fn cell(self, x: int, y: int) -> Option<Symbol> {
        if self.in_bounds(x, y) {
            self.cells[self.index(x, y)]
        } else {
            None
        }
    }

    /// What stands at `pos`.
    pub open spec fn cell_at(self, pos: GridPos) -> Option<Symbol> {
        self.cell(pos.x as int, pos.y as int)
    }

    /// The type that shows at column `x`, row `y`, if a symbol stands there.
    pub open spec fn type_at(self, x: int, y: int) -> Option<SymbolType> {
        match self.cell(x, y) {
            Some(s) => Some(s.spec_current_type()),
            None => None,
        }
    }

    /// Whether `other` has the same width and height.
    pub open spec fn same_size(self, other: GridView) -> bool {
        self.width == other.width && self.height == other.height
    }

    /// Whether every cell is empty.
    pub open spec fn is_empty(self) -> bool {
        forall|x: int, y: int| (#[trigger] self.cell(x, y)) is None
    }

    /// Whether every symbol's stored position is the cell that holds it.
    pub open spec fn positions_in_sync(self) -> bool {
        forall|x: int, y: int|
            ((#[trigger] self.cell(x, y)) matches Some(s) ==> s.grid_pos.x == x && s.grid_pos.y
                == y)
    }

    /// Whether every cell holds a symbol as `Symbol::with_type` makes it for
    /// that cell.
    pub open spec fn is_freshly_filled(self) -> bool {
        forall|x: int, y: int|
            self.in_bounds(x, y) ==> ((#[trigger] self.cell(x, y)) matches Some(s) && s.is_fresh_at(
                GridPos { x: x as i32, y: y as i32 },
            ))
    }

    /// Whether placing a symbol of type `t` at column `x`, row `y` would
    /// end a run of three with the two cells to its left or the two above.
    pub open spec fn completes_run(self, x: int, y: int, t: SymbolType) -> bool {
        ||| (self.type_at(x - 1, y) == Some(t) && self.type_at(x - 2, y) == Some(t))
        ||| (self.type_at(x, y - 1) == Some(t) && self.type_at(x, y - 2) == Some(t))
    }

    /// This grid with `content` at column `x`, row `y`; the grid itself
    /// where that is no cell of it.
    pub open spec fn put(self, x: int, y: int, content: Option<Symbol>) -> GridView {
        if self.in_bounds(x, y) {
            GridView { cells: self.cells.update(self.index(x, y), content), ..self }
        } else {
            self
        }
    }

    /// This grid with `content` at `pos`.
    pub open spec fn put_at(self, pos: GridPos, content: Option<Symbol>) -> GridView {
        self.put(pos.x as int, pos.y as int, content)
    }

    /// This grid after every symbol has turned to its next face.
    pub open spec fn rotated(self) -> GridView {
        GridView { cells: Seq::new(self.cells.len(), |i: int| rotated_cell(self.cells[i])), ..self }
    }

    /// This grid after an exchange of the symbols at `a` and `b`.
    ///
    /// The two symbols change places, and each takes the position of its
    /// new cell. Where `a` and `b` are one occupied cell, its symbol stays
    /// and takes the position of that cell. Where one of the two cells is
    /// empty or no cell of the grid there is nothing to exchange, and the
    /// grid stays as it is.
    pub open spec fn swapped(self, a: GridPos, b: GridPos) -> GridView {
        if self.can_swap(a, b) {
            self.put_at(b, Some(self.cell_at(a).unwrap().at(b))).put_at(
                a,
                Some(self.cell_at(b).unwrap().at(a)),
            )
        } else {
            self
        }
    }

    /// Whether `a` and `b` are occupied cells, so that their symbols can
    /// change places.
    pub open spec fn can_swap(self, a: GridPos, b: GridPos) -> bool {
        self.cell_at(a) is Some && self.cell_at(b) is Some
    }

    /// This grid with the cells at `positions` emptied. Coordinates that
    /// are no cells of the grid count for nothing.
    pub open spec fn without(self, positions: Seq<GridPos>) -> GridView
        decreases positions.len(),
    {
        if positions.len() == 0 {
            self
        } else {
            self.without(positions.drop_last()).put_at(positions.last(), None)
        }
    }

    /// Emptying cells empties those cells and leaves the others as they are.
    pub proof fn lemma_without(self, positions: Seq<GridPos>)
        requires
            self.wf(),
        ensures
            self.without(positions).wf(),
            self.without(positions).same_size(self),
            forall|x: int, y: int|
                #[trigger] self.without(positions).cell(x, y) == if exists|i: int|
                    0 <= i < positions.len() && (#[trigger] positions[i]).x == x && positions[i].y
                        == y {
                    None
                } else {
                    self.cell(x, y)
                },
        decreases positions.len(),
    {
        if positions.len() > 0 {
            let front = positions.drop_last();
            let last = positions.last();
            let before = self.without(front);
            self.lemma_without(front);
            before.lemma_put(last.x as int, last.y as int, None);
            assert forall|x: int, y: int|
                #[trigger] self.without(positions).cell(x, y) == if exists|i: int|
                    0 <= i < positions.len() && (#[trigger] positions[i]).x == x && positions[i].y
                        == y {
                    None
                } else {
                    self.cell(x, y)
                } by {
                let hit = exists|i: int|
                    0 <= i < positions.len() && (#[trigger] positions[i]).x == x && positions[i].y
                        == y;
                let hit_front = exists|i: int|
                    0 <= i < front.len() && (#[trigger] front[i]).x == x && front[i].y == y;
                if hit_front {
                    let i = choose|i: int|
                        0 <= i < front.len() && (#[trigger] front[i]).x == x && front[i].y == y;
                    assert(positions[i].x == x && positions[i].y == y);
                }
                if last.x == x && last.y == y {
                    assert(positions[positions.len() - 1].x == x);
                }
                if hit {
                    let i = choose|i: int|
                        0 <= i < positions.len() && (#[trigger] positions[i]).x == x
                            && positions[i].y == y;
                    if i < front.len() {
                        assert(front[i].x == x && front[i].y == y);
                    }
                }
            }
        }
    }

    /// An exchange keeps the grid well formed and its size.
    pub proof fn lemma_swapped(self, a: GridPos, b: GridPos)
        requires
            self.wf(),
        ensures
            self.swapped(a, b).wf(),
            self.swapped(a, b).same_size(self),
    {
        if self.can_swap(a, b) {
            self.lemma_cells(a.x as int, a.y as int);
            self.lemma_cells(b.x as int, b.y as int);
            let s1 = self.cell_at(a).unwrap().at(b);
            let s2 = self.cell_at(b).unwrap().at(a);
            self.lemma_put(b.x as int, b.y as int, Some(s1));
            self.put_at(b, Some(s1)).lemma_put(a.x as int, a.y as int, Some(s2));
        }
    }

    /// An exchange does not go by the order in which its two cells are
    /// named.
    pub proof fn lemma_swapped_is_symmetric(self, a: GridPos, b: GridPos)
        requires
            self.wf(),
        ensures
            self.swapped(a, b) == self.swapped(b, a),
    {
        self.lemma_swapped(a, b);
        self.lemma_swapped(b, a);
        if self.can_swap(a, b) {
            self.lemma_cells(a.x as int, a.y as int);
            self.lemma_cells(b.x as int, b.y as int);
            let s1 = self.cell_at(a).unwrap();
            let s2 = self.cell_at(b).unwrap();
            self.lemma_put(b.x as int, b.y as int, Some(s1.at(b)));
            self.put_at(b, Some(s1.at(b))).lemma_put(a.x as int, a.y as int, Some(s2.at(a)));
            self.lemma_put(a.x as int, a.y as int, Some(s2.at(a)));
            self.put_at(a, Some(s2.at(a))).lemma_put(b.x as int, b.y as int, Some(s1.at(b)));
            self.swapped(a, b).lemma_same_cells(self.swapped(b, a));
        }
    }

    /// An exchange keeps every symbol's stored position in step with its
    /// cell.
    pub proof fn lemma_swapped_in_sync(self, a: GridPos, b: GridPos)
        requires
            self.wf(),
            self.positions_in_sync(),
        ensures
            self.swapped(a, b).positions_in_sync(),
    {
        if self.can_swap(a, b) {
            self.lemma_cells(a.x as int, a.y as int);
            self.lemma_cells(b.x as int, b.y as int);
            let s1 = self.cell_at(a).unwrap().at(b);
            let s2 = self.cell_at(b).unwrap().at(a);
            self.lemma_put(b.x as int, b.y as int, Some(s1));
            self.put_at(b, Some(s1)).lemma_put(a.x as int, a.y as int, Some(s2));
        }
    }

    /// Emptying cells keeps every symbol's stored position in step with its
    /// cell.
    pub proof fn lemma_without_in_sync(self, positions: Seq<GridPos>)
        requires
            self.wf(),
            self.positions_in_sync(),
        ensures
            self.without(positions).positions_in_sync(),
    {
        self.lemma_without(positions);
    }

    /// A rotation keeps every symbol's stored position in step with its
    /// cell.
    pub proof fn lemma_rotated_in_sync(self)
        requires
            self.wf(),
            self.positions_in_sync(),
        ensures
            self.rotated().positions_in_sync(),
    {
        self.lemma_rotated();
    }

    /// In a well-formed grid every cell has its place in the storage, every
    /// symbol is well formed, and different cells are stored apart.
    pub proof fn lemma_cells(self, x: int, y: int)
        requires
            self.wf(),
            self.in_bounds(x, y),
        ensures
            0 <= self.index(x, y) < self.cells.len(),
            self.cell(x, y) matches Some(s) ==> s.wf(),
            forall|x2: int, y2: int|
                self.in_bounds(x2, y2) && (x2 != x || y2 != y) ==> #[trigger] self.index(x2, y2)
                    != self.index(x, y),
    {
        lemma_index_in_range(self.width as int, self.height as int, x, y);
        assert forall|x2: int, y2: int|
            self.in_bounds(x2, y2) && (x2 != x || y2 != y) implies #[trigger] self.index(x2, y2)
            != self.index(x, y) by {
            if self.index(x2, y2) == self.index(x, y) {
                lemma_index_injective(self.width as int, x, y, x2, y2);
            }
        }
    }

    /// Putting something into a cell changes that cell and no other, and
    /// keeps the grid well formed.
    pub proof fn lemma_put(self, x: int, y: int, content: Option<Symbol>)
        requires
            self.wf(),
            content matches Some(s) ==> s.wf(),
        ensures
            self.put(x, y, content).wf(),
            self.put(x, y, content).same_size(self),
            forall|x2: int, y2: int|
                #[trigger] self.put(x, y, content).cell(x2, y2) == if x2 == x && y2 == y
                    && self.in_bounds(x, y) {
                    content
                } else {
                    self.cell(x2, y2)
                },
    {
        let after = self.put(x, y, content);
        if self.in_bounds(x, y) {
            self.lemma_cells(x, y);
            assert forall|x2: int, y2: int|
                #[trigger] after.cell(x2, y2) == if x2 == x && y2 == y {
                    content
                } else {
                    self.cell(x2, y2)
                } by {
                if self.in_bounds(x2, y2) {
                    lemma_index_in_range(self.width as int, self.height as int, x2, y2);
                    if x2 != x || y2 != y {
                        assert(self.index(x2, y2) != self.index(x, y));
                    }
                }
            }
        }
    }

    /// A rotation turns each symbol where it stands, and keeps the grid
    /// well formed.
    pub proof fn lemma_rotated(self)
        requires
            self.wf(),
        ensures
            self.rotated().wf(),
            self.rotated().same_size(self),
            forall|x: int, y: int|
                #[trigger] self.rotated().cell(x, y) == rotated_cell(self.cell(x, y)),
    {
        assert forall|x: int, y: int|
            #[trigger] self.rotated().cell(x, y) == rotated_cell(self.cell(x, y)) by {
            if self.in_bounds(x, y) {
                lemma_index_in_range(self.width as int, self.height as int, x, y);
            }
        }
    }

    /// Four rotations with nothing in between bring every symbol back: the
    /// grid is as it was, and so each symbol shows the type that it showed
    /// before the first of them.
    pub proof fn lemma_four_rotations(self)
        requires
            self.wf(),
        ensures
            self.rotated().rotated().rotated().rotated() == self,
            forall|x: int, y: int|
                #[trigger] self.rotated().rotated().rotated().rotated().type_at(x, y)
                    == self.type_at(x, y),
    {
        let once = self.rotated();
        let twice = once.rotated();
        let thrice = twice.rotated();
        let back = thrice.rotated();
        assert forall|i: int| 0 <= i < self.cells.len() implies back.cells[i] == self.cells[i] by {
            if let Some(s) = self.cells[i] {
                lemma_symbol_four_rotations(s);
                assert(once.cells[i] == Some(s.rotated()));
                assert(twice.cells[i] == Some(s.rotated().rotated()));
                assert(thrice.cells[i] == Some(s.rotated().rotated().rotated()));
            }
        }
        assert(back.cells =~= self.cells);
    }

    /// Two well-formed grids of one size with the same content in every
    /// cell are one grid.
    pub proof fn lemma_same_cells(self, other: GridView)
        requires
            self.wf(),
            other.wf(),
            self.same_size(other),
            forall|x: int, y: int|
                self.in_bounds(x, y) ==> #[trigger] self.cell(x, y) == other.cell(x, y),
        ensures
            self == other,
    {
        assert forall|i: int| 0 <= i < self.cells.len() implies self.cells[i] == other.cells[i] by {
            let w = self.width as int;
            let h = self.height as int;
            assert(w > 0) by (nonlinear_arith)
                requires
                    0 <= i < w * h,
                    0 <= w,
                    0 <= h,
            ;
            let x = i % w;
            let y = i / w;
            assert(y * w + x == i && 0 <= y < h && 0 <= x < w) by (nonlinear_arith)
                requires
                    0 <= i < w * h,
                    0 < w,
                    0 <= h,
                    x == i % w,
                    y == i / w,
            ;
            assert(self.cell(x, y) == other.cell(x, y));
        }
        assert(self.cells =~= other.cells);
    }
}

/// The grid: `width` columns and `height` rows of cells, stored row by row.
/// A cell is empty or holds one symbol.
#[derive(Debug)]
pub struct Grid {
    pub width: usize,
    pub height: usize,
    pub cells: Vec<Option<Symbol>>,
}

impl View for Grid {
    type V = GridView;

    open spec fn view(&self) -> GridView {
        GridView { width: self.width as nat, height: self.height as nat, cells: self.cells@ }
    }
}

impl Clone for Grid {
    fn clone(&self) -> (r: Self)
        ensures
            r@ == self@,
    {
        let mut cells: Vec<Option<Symbol>> = Vec::new();
        let mut i: usize = 0;
        while i < self.cells.len()
            invariant
                i <= self.cells@.len(),
                cells@ == self.cells@.take(i as int),
            decreases self.cells@.len() - i,
        {
            let cell = match &self.cells[i] {
                Some(s) => Some(s.clone()),
                None => None,
            };
            cells.push(cell);
            assert(self.cells@.take(i + 1) == self.cells@.take(i as int).push(
                self.cells@[i as int],
            ));
            i += 1;
        }
        assert(self.cells@.take(self.cells@.len() as int) == self.cells@);
        Grid { width: self.width, height: self.height, cells }
    }
}

impl Grid {
    /// The grid's invariant: that of its view.
    pub open spec fn wf(&self) -> bool {
        self@.wf()
    }

    /// Whether the grid's invariant holds. It does for every grid that was
    /// made and changed by the functions of this type alone.
    pub fn is_well_formed(&self) -> (r: bool)
        ensures
            r == self.wf(),
    {
        if self.width > 0x7fff_ffff || self.height > 0x7fff_ffff {
            return false;
        }
        proof {
            assert(self.width * self.height <= 0x7fff_ffff * 0x7fff_ffff) by (nonlinear_arith)
                requires
                    self.width <= 0x7fff_ffff,
                    self.height <= 0x7fff_ffff,
            ;
        }
        if (self.width as u64) * (self.height as u64) != self.cells.len() as u64 {
            return false;
        }
        let mut i: usize = 0;
        while i < self.cells.len()
            invariant
                i <= self.cells@.len(),
                forall|k: int|
                    0 <= k < i ==> ((#[trigger] self.cells@[k]) matches Some(s) ==> s.wf()),
            decreases self.cells@.len() - i,
        {
            match &self.cells[i] {
                Some(s) => {
                    if !s.is_well_formed() {
                        return false;
                    }
                },
                None => {},
            }
            i += 1;
        }
        true
    }

    /// An empty grid of `width` columns and `height` rows.
    pub fn new(width: usize, height: usize) -> (r: Self)
        requires
            width <= i32::MAX,
            height <= i32::MAX,
            width * height <= usize::MAX,
        ensures
            r.wf(),
            r@.width == width,
            r@.height == height,
            r@.is_empty(),
    {
        let count = width * height;
        let mut cells: Vec<Option<Symbol>> = Vec::new();
        let mut i: usize = 0;
        while i < count
            invariant
                i <= count,
                cells@.len() == i,
                forall|k: int| 0 <= k < i ==> (#[trigger] cells@[k]) is None,
            decreases count - i,
        {
            cells.push(None);
            i += 1;
        }
        let r = Grid { width, height, cells };
        proof {
            assert forall|x: int, y: int| (#[trigger] r@.cell(x, y)) is None by {
                if r@.in_bounds(x, y) {
                    lemma_index_in_range(width as int, height as int, x, y);
                }
            }
        }
        r
    }

    /// Where the cell at column `x`, row `y` is stored.
    fn index(&self, x: usize, y: usize) -> (r: usize)
        requires
            self.wf(),
            self@.in_bounds(x as int, y as int),
        ensures
            r == self@.index(x as int, y as int),
            r < self.cells@.len(),
    {
        let count = self.cells.len();
        proof {
            lemma_index_in_range(self.width as int, self.height as int, x as int, y as int);
            assert(0 <= y * self.width) by (nonlinear_arith)
                requires
                    0 <= y,
                    0 <= self.width,
            ;
            assert(y * self.width + x < count);
        }
        y * self.width + x
    }

    /// Whether column `x`, row `y` is a cell of the grid.
    pub fn is_valid(&self, x: i32, y: i32) -> (r: bool)
        ensures
            r == self@.in_bounds(x as int, y as int),
    {
        x >= 0 && y >= 0 && (x as usize) < self.width && (y as usize) < self.height
    }

    /// The symbol at column `x`, row `y`, if one stands there. Outside the
    /// grid nothing stands.
    pub fn get(&self, x: usize, y: usize) -> (r: Option<&Symbol>)
        requires
            self.wf(),
        ensures
            match r {
                Some(s) => self@.cell(x as int, y as int) == Some(*s) && s.wf(),
                None => self@.cell(x as int, y as int) is None,
            },
    {
        if x < self.width && y < self.height {
            let idx = self.index(x, y);
            self.cells[idx].as_ref()
        } else {
            None
        }
    }

    /// The symbol at column `x`, row `y`, to be changed in place. Outside
    /// the grid, and for an empty cell, that is nothing.
    ///
    /// The grid stays well formed if the symbol is well formed when the
    /// borrow ends.
    pub fn get_mut(&mut self, x: usize, y: usize) -> (r: Option<&mut Symbol>)
        requires
            old(self).wf(),
        ensures
            match r {
                Some(s) => {
                    &&& old(self)@.cell(x as int, y as int) == Some(*s)
                    &&& s.wf()
                    &&& final(self)@ =~= old(self)@.put(x as int, y as int, Some(*final(s)))
                },
                None => {
                    &&& old(self)@.cell(x as int, y as int) is None
                    &&& final(self)@ == old(self)@
                },
            },
    {
        if x < self.width && y < self.height {
            let idx = self.index(x, y);
            if self.cells[idx].is_some() {
                self.cells[idx].as_mut()
            } else {
                None
            }
        } else {
            None
        }
    }

    /// Puts `symbol`, or a gap, at column `x`, row `y`. Outside the grid
    /// nothing happens.
    pub fn set(&mut self, x: usize, y: usize, symbol: Option<Symbol>)
        requires
            old(self).wf(),
            symbol matches Some(s) ==> s.wf(),
        ensures
            final(self).wf(),
            final(self)@ == old(self)@.put(x as int, y as int, symbol),
    {
        proof {
            self@.lemma_put(x as int, y as int, symbol);
        }
        if x < self.width && y < self.height {
            let idx = self.index(x, y);
            self.cells[idx] = symbol;
        }
    }

    /// Removes and returns the symbol at column `x`, row `y`. Outside the
    /// grid, and from an empty cell, that is nothing.
    pub fn take(&mut self, x: usize, y: usize) -> (r: Option<Symbol>)
        requires
            old(self).wf(),
        ensures
            r == old(self)@.cell(x as int, y as int),
            r matches Some(s) ==> s.wf(),
            final(self).wf(),
            final(self)@ == old(self)@.put(x as int, y as int, None),
    {
        proof {
            self@.lemma_put(x as int, y as int, None);
        }
        if x < self.width && y < self.height {
            let idx = self.index(x, y);
            let taken = self.cells[idx].take();
            taken
        } else {
            None
        }
    }

    /// Whether a symbol of type `symbol_type` shows at column `x`, row `y`.
    pub fn shows(&self, x: usize, y: usize, symbol_type: SymbolType) -> (r: bool)
        requires
            self.wf(),
        ensures
            r == (self@.type_at(x as int, y as int) == Some(symbol_type)),
    {
        match self.get(x, y) {
            Some(s) => s.current_type() == symbol_type,
            None => false,
        }
    }

    /// Whether a symbol of type `symbol_type` at column `x`, row `y` would
    /// end a run of three with the two cells to its left or the two above.
    pub fn completes_run(&self, x: usize, y: usize, symbol_type: SymbolType) -> (r: bool)
        requires
            self.wf(),
        ensures
            r == self@.completes_run(x as int, y as int, symbol_type),
    {
        let across = x >= 2 && self.shows(x - 1, y, symbol_type) && self.shows(
            x - 2,
            y,
            symbol_type,
        );
        let down = y >= 2 && self.shows(x, y - 1, symbol_type) && self.shows(
            x,
            y - 2,
            symbol_type,
        );
        across || down
    }

    /// Whether a type drawn for column `x`, row `y` is placed there: one
    /// that would not end a run of three with the cells to the left or above
    /// always, any other only when ten types have been drawn again for that
    /// cell already.
    pub fn accepts_draw(&self, x: usize, y: usize, symbol_type: SymbolType, attempts: u32) -> (r:
        bool)
        requires
            self.wf(),
        ensures
            r == (attempts >= 10 || !self@.completes_run(x as int, y as int, symbol_type)),
    {
        attempts >= 10 || !self.completes_run(x, y, symbol_type)
    }

    /// Fills every cell, row by row, with a new symbol of a type drawn at
    /// random.
    ///
    /// A type that would end a run of three with the two cells to the left
    /// or the two cells above is drawn again, up to ten times; after that
    /// the last draw is placed as it is. The board therefore mostly, but not
    /// always, starts without a run of three. That is intended.
    pub fn fill_random(&mut self)
        requires
            old(self).wf(),
        ensures
            final(self).wf(),
            final(self)@.same_size(old(self)@),
            final(self)@.is_freshly_filled(),
            final(self)@.positions_in_sync(),
    {
        let mut y: usize = 0;
        while y < self.height
            invariant
                self.wf(),
                self@.same_size(old(self)@),
                y <= self.height,
                forall|x2: int, y2: int|
                    self@.in_bounds(x2, y2) && y2 < y ==> ((#[trigger] self@.cell(x2, y2)) matches Some(
                        s,
                    ) && s.is_fresh_at(GridPos { x: x2 as i32, y: y2 as i32 })),
            decreases self.height - y,
        {
            let mut x: usize = 0;
            while x < self.width
                invariant
                    self.wf(),
                    self@.same_size(old(self)@),
                    y < self.height,
                    x <= self.width,
                    forall|x2: int, y2: int|
                        self@.in_bounds(x2, y2) && (y2 < y || (y2 == y && x2 < x)) ==> ((
                        #[trigger] self@.cell(x2, y2)) matches Some(s) && s.is_fresh_at(
                            GridPos { x: x2 as i32, y: y2 as i32 },
                        )),
                decreases self.width - x,
            {
                let mut symbol_type = SymbolType::random();
                let mut attempts: u32 = 0;
                while !self.accepts_draw(x, y, symbol_type, attempts)
                    invariant
                        self.wf(),
                        attempts <= 10,
                    decreases 10 - attempts,
                {
                    symbol_type = SymbolType::random();
                    attempts += 1;
                }
                let symbol = Symbol::with_type(GridPos::new(x as i32, y as i32), symbol_type);
                proof {
                    self@.lemma_put(x as int, y as int, Some(symbol));
                }
                self.set(x, y, Some(symbol));
                x += 1;
            }
            y += 1;
        }
    }

    /// Turns every symbol to its next face. Which cells are occupied does
    /// not change.
    pub fn rotate_all(&mut self)
        requires
            old(self).wf(),
        ensures
            final(self).wf(),
            final(self)@ == old(self)@.rotated(),
    {
        let count = self.cells.len();
        let mut i: usize = 0;
        while i < count
            invariant
                i <= count,
                count == old(self).cells@.len(),
                self@.same_size(old(self)@),
                self.cells@.len() == count,
                forall|k: int|
                    0 <= k < i ==> #[trigger] self.cells@[k] == rotated_cell(old(self).cells@[k]),
                forall|k: int| i <= k < count ==> #[trigger] self.cells@[k] == old(self).cells@[k],
                old(self).wf(),
            decreases count - i,
        {
            if let Some(symbol) = &mut self.cells[i] {
                symbol.rotate();
            }
            i += 1;
        }
        proof {
            assert(self.cells@ =~= old(self)@.rotated().cells);
            old(self)@.lemma_rotated();
        }
    }

    /// Exchanges the symbols at `a` and `b` and tells whether both cells
    /// held one. If not, the grid stays as it is.
    pub fn swap_cells(&mut self, a: GridPos, b: GridPos) -> (r: bool)
        requires
            old(self).wf(),
        ensures
            final(self).wf(),
            r == old(self)@.can_swap(a, b),
            final(self)@ == old(self)@.swapped(a, b),
    {
        if self.get_at(a).is_none() || self.get_at(b).is_none() {
            return false;
        }
        let ghost before = self@;
        proof {
            before.lemma_swapped(a, b);
            before.lemma_cells(a.x as int, a.y as int);
            before.lemma_cells(b.x as int, b.y as int);
            before.lemma_put(a.x as int, a.y as int, None);
            before.lemma_put(
                b.x as int,
                b.y as int,
                Some(before.cell_at(a).unwrap().at(b)),
            );
            before.put_at(b, Some(before.cell_at(a).unwrap().at(b))).lemma_put(
                a.x as int,
                a.y as int,
                Some(before.cell_at(b).unwrap().at(a)),
            );
        }
        let first = self.take_at(a);
        if a == b {
            match first {
                Some(mut s) => {
                    s.grid_pos = a;
                    proof {
                        self@.lemma_put(a.x as int, a.y as int, Some(s));
                    }
                    self.set_at(a, Some(s));
                },
                None => {},
            }
        } else {
            let ghost lifted = self@;
            proof {
                lifted.lemma_put(b.x as int, b.y as int, None);
            }
            let second = self.take_at(b);
            match (first, second) {
                (Some(mut s1), Some(mut s2)) => {
                    s1.grid_pos = b;
                    s2.grid_pos = a;
                    proof {
                        self@.lemma_put(b.x as int, b.y as int, Some(s1));
                    }
                    self.set_at(b, Some(s1));
                    proof {
                        self@.lemma_put(a.x as int, a.y as int, Some(s2));
                    }
                    self.set_at(a, Some(s2));
                },
                _ => {},
            }
        }
        proof {
            self@.lemma_same_cells(before.swapped(a, b));
        }
        true
    }

    /// The symbol at `pos`, if one stands there; nothing where `pos` is no
    /// cell of the grid.
    pub fn get_at(&self, pos: GridPos) -> (r: Option<&Symbol>)
        requires
            self.wf(),
        ensures
            match r {
                Some(s) => self@.cell_at(pos) == Some(*s) && s.wf(),
                None => self@.cell_at(pos) is None,
            },
    {
        if pos.x >= 0 && pos.y >= 0 {
            self.get(pos.x as usize, pos.y as usize)
        } else {
            None
        }
    }

    /// Removes and returns the symbol at `pos`; nothing where `pos` is no
    /// cell of the grid.
    pub fn take_at(&mut self, pos: GridPos) -> (r: Option<Symbol>)
        requires
            old(self).wf(),
        ensures
            r == old(self)@.cell_at(pos),
            r matches Some(s) ==> s.wf(),
            final(self).wf(),
            final(self)@ == old(self)@.put_at(pos, None),
    {
        if pos.x >= 0 && pos.y >= 0 {
            self.take(pos.x as usize, pos.y as usize)
        } else {
            None
        }
    }

    /// Puts `symbol`, or a gap, at `pos`; nothing happens where `pos` is no
    /// cell of the grid.
    pub fn set_at(&mut self, pos: GridPos, symbol: Option<Symbol>)
        requires
            old(self).wf(),
            symbol matches Some(s) ==> s.wf(),
        ensures
            final(self).wf(),
            final(self)@ == old(self)@.put_at(pos, symbol),
    {
        if pos.x >= 0 && pos.y >= 0 {
            self.set(pos.x as usize, pos.y as usize, symbol);
        }
    }
}

} // verus!
