//! Match detection: runs of three or more symbols that show the same type.

use crate::symbols::{Grid, GridPos, GridView, Symbol, SymbolType};
use vstd::prelude::*;

verus! {

/// The points that a match of `len` cells is worth.
///
/// The tiers are flat on purpose: three cells give 50, four 100, five 200,
/// and every other length 400.
pub open spec fn score_for_len(len: int) -> int {
    if len == 3 {
        50
    } else if len == 4 {
        100
    } else if len == 5 {
        200
    } else {
        400
    }
}

/// The column of the `k`-th cell of a line: a horizontal line is a row and
/// `k` counts its columns, a vertical line is a column and `k` counts its rows.
pub open spec fn column_along(horizontal: bool, line: int, k: int) -> int {
    if horizontal {
        k
    } else {
        line
    }
}

/// The row of the `k`-th cell of a line.
pub open spec fn row_along(horizontal: bool, line: int, k: int) -> int {
    if horizontal {
        line
    } else {
        k
    }
}

/// The coordinate of the `k`-th cell of a line.
pub open spec fn pos_along(horizontal: bool, line: int, k: int) -> GridPos {
    GridPos {
        x: column_along(horizontal, line, k) as i32,
        y: row_along(horizontal, line, k) as i32,
    }
}

/// The type that shows in the `k`-th cell of a line, if a symbol stands
/// there. Outside the grid nothing stands.
pub open spec fn type_along(g: GridView, horizontal: bool, line: int, k: int) -> Option<
    SymbolType,
> {
    g.type_at(column_along(horizontal, line, k), row_along(horizontal, line, k))
}

/// Whether the `len` cells of a line from its cell `start` on are a run:
/// occupied cells that all show one type, with no cell of that type right
/// before or right after them.
pub open spec fn is_run(g: GridView, horizontal: bool, line: int, start: int, len: int) -> bool {
    &&& len >= 1
    &&& type_along(g, horizontal, line, start) is Some
    &&& forall|k: int|
        start <= k < start + len ==> #[trigger] type_along(g, horizontal, line, k) == type_along(
            g,
            horizontal,
            line,
            start,
        )
    &&& type_along(g, horizontal, line, start - 1) != type_along(g, horizontal, line, start)
    &&& type_along(g, horizontal, line, start + len) != type_along(g, horizontal, line, start)
}

/// The coordinates of `len` cells of a line from its cell `start` on.
pub open spec fn run_positions(horizontal: bool, line: int, start: int, len: int) -> Seq<GridPos> {
    Seq::new(len as nat, |i: int| pos_along(horizontal, line, start + i))
}

/// Whether the grid holds a run of three or more, in a row or in a column.
pub open spec fn has_match(g: GridView) -> bool {
    exists|horizontal: bool, line: int, start: int, len: int|
        #[trigger] is_run(g, horizontal, line, start, len) && len >= 3
}

/// A run of three or more symbols of one type, in a row or in a column.
#[derive(Debug)]
pub struct Match {
    /// The cells of the match, from left to right or from top to bottom.
    pub positions: Vec<GridPos>,
    /// Whether the cells lie in one row.
    pub horizontal: bool,
}

impl Clone for Match {
    fn clone(&self) -> (r: Self)
        ensures
            r.positions@ == self.positions@,
            r.horizontal == self.horizontal,
    {
        let mut positions: Vec<GridPos> = Vec::new();
        let mut i: usize = 0;
        while i < self.positions.len()
            invariant
                i <= self.positions@.len(),
                positions@ == self.positions@.take(i as int),
            decreases self.positions@.len() - i,
        {
            positions.push(self.positions[i]);
            assert(self.positions@.take(i + 1) == self.positions@.take(i as int).push(
                self.positions@[i as int],
            ));
            i += 1;
        }
        assert(self.positions@.take(self.positions@.len() as int) == self.positions@);
        Match { positions, horizontal: self.horizontal }
    }
}

impl Match {
    /// The line that the match lies in: its row if it is horizontal, its
    /// column if not.
    pub open spec fn line(&self) -> int {
        if self.horizontal {
            self.positions@[0].y as int
        } else {
            self.positions@[0].x as int
        }
    }

    /// Where in its line the match begins.
    pub open spec fn start(&self) -> int {
        if self.horizontal {
            self.positions@[0].x as int
        } else {
            self.positions@[0].y as int
        }
    }

    /// Whether the match is the `len` cells from `start` on of that line.
    pub open spec fn covers(&self, horizontal: bool, line: int, start: int, len: int) -> bool {
        self.horizontal == horizontal && self.positions@ == run_positions(
            horizontal,
            line,
            start,
            len,
        )
    }

    /// Whether this is a match of the grid `g`: at least three cells, one
    /// after the other in one line, that are a run of `g`.
    pub open spec fn is_match_in(&self, g: GridView) -> bool {
        &&& self.positions@.len() >= 3
        &&& self.covers(self.horizontal, self.line(), self.start(), self.positions@.len() as int)
        &&& is_run(g, self.horizontal, self.line(), self.start(), self.positions@.len() as int)
    }

    /// Whether this match comes before `other` in a scan: in an earlier
    /// line, or earlier in the same line.
    pub open spec fn comes_before(&self, other: &Match) -> bool {
        self.line() < other.line() || (self.line() == other.line() && self.start() < other.start())
    }

    /// Number of cells in the match.
    pub fn len(&self) -> (r: usize)
        ensures
            r == self.positions@.len(),
    {
        self.positions.len()
    }

    /// Whether the match has no cell.
    pub fn is_empty(&self) -> (r: bool)
        ensures
            r == (self.positions@.len() == 0),
    {
        self.positions.len() == 0
    }

    /// The points that this match is worth, by its length.
    pub fn score(&self) -> (r: i32)
        ensures
            r == score_for_len(self.positions@.len() as int),
    {
        let n = self.len();
        if n == 3 {
            50
        } else if n == 4 {
            100
        } else if n == 5 {
            200
        } else {
            400
        }
    }
}

/// The cells of a match of `g` lie in one line, one after the other, are
/// all occupied, and all show the same type.
pub proof fn lemma_match_cells(m: &Match, g: GridView, i: int, j: int)
    requires
        g.wf(),
        m.is_match_in(g),
        0 <= i < m.positions@.len(),
        0 <= j < m.positions@.len(),
    ensures
        m.positions@.len() >= 3,
        g.cell_at(m.positions@[i]) is Some,
        g.type_at(m.positions@[i].x as int, m.positions@[i].y as int) == g.type_at(
            m.positions@[j].x as int,
            m.positions@[j].y as int,
        ),
        m.horizontal ==> m.positions@[i].y == m.positions@[j].y && m.positions@[i].x
            - m.positions@[j].x == i - j,
        !m.horizontal ==> m.positions@[i].x == m.positions@[j].x && m.positions@[i].y
            - m.positions@[j].y == i - j,
{
    let h = m.horizontal;
    let line = m.line();
    let start = m.start();
    assert(type_along(g, h, line, start + i) == type_along(g, h, line, start));
    assert(type_along(g, h, line, start + j) == type_along(g, h, line, start));
    assert(m.positions@[i] == pos_along(h, line, start + i));
    assert(m.positions@[j] == pos_along(h, line, start + j));
}

/// Whether `ms` is what a scan of the grid `g` along one axis yields: only
/// matches of `g` along that axis, every run of three or more of that axis,
/// and each before the next in the order of the scan. That makes the scan one
/// sequence, see [`lemma_scan_unique`].
pub open spec fn is_scan(ms: Seq<Match>, g: GridView, horizontal: bool) -> bool {
    is_scan_up_to(ms, g, horizontal, if horizontal {
        g.height as int
    } else {
        g.width as int
    }, 0)
}

/// Whether `ms` is what a scan of `g` has yielded when it has gone through
/// the lines before `line` and, in that line, through the cells before `k`.
pub open spec fn is_scan_up_to(
    ms: Seq<Match>,
    g: GridView,
    horizontal: bool,
    line: int,
    k: int,
) -> bool {
    &&& forall|i: int|
        0 <= i < ms.len() ==> {
            &&& (#[trigger] ms[i]).horizontal == horizontal
            &&& ms[i].is_match_in(g)
            &&& (ms[i].line() < line || (ms[i].line() == line && ms[i].start()
                + ms[i].positions@.len() <= k))
        }
    &&& forall|l: int, s: int, n: int|
        #[trigger] is_run(g, horizontal, l, s, n) && n >= 3 && (l < line || (l == line && s < k))
            ==> exists|i: int| 0 <= i < ms.len() && (#[trigger] ms[i]).covers(horizontal, l, s, n)
    &&& forall|i: int, j: int|
        0 <= i < j < ms.len() ==> (#[trigger] ms[i]).comes_before(#[trigger] &ms[j])
}

/// A run lies inside the grid.
pub proof fn lemma_run_in_grid(g: GridView, horizontal: bool, line: int, start: int, len: int)
    requires
        is_run(g, horizontal, line, start, len),
    ensures
        0 <= start,
        horizontal ==> 0 <= line < g.height && start + len <= g.width,
        !horizontal ==> 0 <= line < g.width && start + len <= g.height,
{
    assert(type_along(g, horizontal, line, start) is Some);
    assert(type_along(g, horizontal, line, start + len - 1) == type_along(
        g,
        horizontal,
        line,
        start,
    ));
}

/// Two runs of one line that begin in the same cell, or of which one begins
/// inside the other, are one run.
pub proof fn lemma_runs_apart(
    g: GridView,
    horizontal: bool,
    line: int,
    s1: int,
    n1: int,
    s2: int,
    n2: int,
)
    requires
        is_run(g, horizontal, line, s1, n1),
        is_run(g, horizontal, line, s2, n2),
        s1 <= s2 < s1 + n1,
    ensures
        s1 == s2,
        n1 == n2,
{
    assert(type_along(g, horizontal, line, s2) == type_along(g, horizontal, line, s1));
    if s1 < s2 {
        assert(type_along(g, horizontal, line, s2 - 1) == type_along(g, horizontal, line, s1));
    }
    if n1 < n2 {
        assert(type_along(g, horizontal, line, s2 + n1) == type_along(g, horizontal, line, s2));
    }
    if n2 < n1 {
        assert(type_along(g, horizontal, line, s1 + n2) == type_along(g, horizontal, line, s1));
    }
}

/// A scan that stands on an empty cell may step over it.
proof fn lemma_scan_over_gap(ms: Seq<Match>, g: GridView, horizontal: bool, line: int, k: int)
    requires
        is_scan_up_to(ms, g, horizontal, line, k),
        type_along(g, horizontal, line, k) is None,
    ensures
        is_scan_up_to(ms, g, horizontal, line, k + 1),
{
}

/// A scan that stands on the first cell of a run too short to be a match
/// may step over the run.
proof fn lemma_scan_over_short_run(
    ms: Seq<Match>,
    g: GridView,
    horizontal: bool,
    line: int,
    k: int,
    n: int,
)
    requires
        is_scan_up_to(ms, g, horizontal, line, k),
        is_run(g, horizontal, line, k, n),
        n < 3,
    ensures
        is_scan_up_to(ms, g, horizontal, line, k + n),
{
    assert forall|l: int, s: int, len: int|
        #[trigger] is_run(g, horizontal, l, s, len) && len >= 3 && (l < line || (l == line && s < k
            + n)) implies exists|i: int|
        0 <= i < ms.len() && (#[trigger] ms[i]).covers(horizontal, l, s, len) by {
        if l == line && s >= k {
            lemma_runs_apart(g, horizontal, line, k, n, s, len);
        }
    }
}

/// A scan that stands on the first cell of a run of three or more steps
/// over the run and yields it as its next match.
proof fn lemma_scan_over_match(
    ms: Seq<Match>,
    m: Match,
    g: GridView,
    horizontal: bool,
    line: int,
    k: int,
    n: int,
)
    requires
        g.wf(),
        is_scan_up_to(ms, g, horizontal, line, k),
        is_run(g, horizontal, line, k, n),
        n >= 3,
        m.covers(horizontal, line, k, n),
    ensures
        is_scan_up_to(ms.push(m), g, horizontal, line, k + n),
{
    let after = ms.push(m);
    lemma_run_in_grid(g, horizontal, line, k, n);
    assert(m.positions@[0] == pos_along(horizontal, line, k));
    assert(m.line() == line && m.start() == k);
    assert(m.is_match_in(g));
    assert forall|i: int| 0 <= i < after.len() implies {
        &&& (#[trigger] after[i]).horizontal == horizontal
        &&& after[i].is_match_in(g)
        &&& (after[i].line() < line || (after[i].line() == line && after[i].start()
            + after[i].positions@.len() <= k + n))
    } by {
        if i < ms.len() {
            assert(after[i] == ms[i]);
        }
    }
    assert forall|l: int, s: int, len: int|
        #[trigger] is_run(g, horizontal, l, s, len) && len >= 3 && (l < line || (l == line && s < k
            + n)) implies exists|i: int|
        0 <= i < after.len() && (#[trigger] after[i]).covers(horizontal, l, s, len) by {
        if l == line && s >= k {
            lemma_runs_apart(g, horizontal, line, k, n, s, len);
            assert(after[ms.len() as int].covers(horizontal, l, s, len));
        } else {
            let i = choose|i: int|
                0 <= i < ms.len() && (#[trigger] ms[i]).covers(horizontal, l, s, len);
            assert(after[i] == ms[i]);
            assert(after[i].covers(horizontal, l, s, len));
        }
    }
    assert forall|i: int, j: int| 0 <= i < j < after.len() implies (#[trigger] after[i]).comes_before(
        #[trigger] &after[j],
    ) by {
        assert(after[i] == ms[i]);
        if j < ms.len() {
            assert(after[j] == ms[j]);
        }
    }
}

/// A scan that has reached the end of a line stands at the start of the next.
proof fn lemma_scan_next_line(ms: Seq<Match>, g: GridView, horizontal: bool, line: int, k: int)
    requires
        is_scan_up_to(ms, g, horizontal, line, k),
        k >= (if horizontal {
            g.width as int
        } else {
            g.height as int
        }),
    ensures
        is_scan_up_to(ms, g, horizontal, line + 1, 0),
{
    assert forall|l: int, s: int, len: int|
        #[trigger] is_run(g, horizontal, l, s, len) && len >= 3 && (l < line + 1 || (l == line + 1
            && s < 0)) implies exists|i: int|
        0 <= i < ms.len() && (#[trigger] ms[i]).covers(horizontal, l, s, len) by {
        lemma_run_in_grid(g, horizontal, l, s, len);
    }
}

/// A finished scan holds every run of three or more of its axis.
pub proof fn lemma_scan_is_complete(
    ms: Seq<Match>,
    g: GridView,
    horizontal: bool,
    line: int,
    start: int,
    len: int,
)
    requires
        is_scan(ms, g, horizontal),
        is_run(g, horizontal, line, start, len),
        len >= 3,
    ensures
        exists|i: int| 0 <= i < ms.len() && (#[trigger] ms[i]).covers(horizontal, line, start, len),
{
    lemma_run_in_grid(g, horizontal, line, start, len);
}

/// Whether `ms` is what a scan of the whole grid yields: the horizontal
/// matches in the order of their scan, then the vertical ones in the order of
/// theirs. A cell that lies in a horizontal and in a vertical match occurs in
/// both.
pub open spec fn is_full_scan(ms: Seq<Match>, g: GridView) -> bool {
    exists|k: int|
        0 <= k <= ms.len() && is_scan(#[trigger] ms.take(k), g, true) && is_scan(
            ms.skip(k),
            g,
            false,
        )
}

/// A scan of the whole grid yields matches of the grid only, and yields one
/// if and only if the grid holds a run of three or more.
pub proof fn lemma_full_scan(ms: Seq<Match>, g: GridView)
    requires
        is_full_scan(ms, g),
    ensures
        forall|i: int| 0 <= i < ms.len() ==> (#[trigger] ms[i]).is_match_in(g),
        ms.len() > 0 <==> has_match(g),
{
    let k = choose|k: int|
        0 <= k <= ms.len() && is_scan(#[trigger] ms.take(k), g, true) && is_scan(
            ms.skip(k),
            g,
            false,
        );
    let across = ms.take(k);
    let down = ms.skip(k);
    assert forall|i: int| 0 <= i < ms.len() implies (#[trigger] ms[i]).is_match_in(g) by {
        if i < k {
            assert(across[i] == ms[i]);
        } else {
            assert(down[i - k] == ms[i]);
        }
    }
    if has_match(g) {
        let (horizontal, line, start, len) = choose|
            horizontal: bool,
            line: int,
            start: int,
            len: int,
        | #[trigger] is_run(g, horizontal, line, start, len) && len >= 3;
        if horizontal {
            lemma_scan_is_complete(across, g, true, line, start, len);
        } else {
            lemma_scan_is_complete(down, g, false, line, start, len);
        }
    }
    if ms.len() > 0 {
        let m = ms[0];
        assert(m.is_match_in(g));
        assert(is_run(g, m.horizontal, m.line(), m.start(), m.positions@.len() as int));
    }
}

/// Runs go by what the cells show: a run of one grid is a run of every grid
/// whose cells show the same types.
pub proof fn lemma_run_of_same_types(
    g: GridView,
    other: GridView,
    horizontal: bool,
    line: int,
    start: int,
    len: int,
)
    requires
        forall|x: int, y: int| #[trigger] other.type_at(x, y) == g.type_at(x, y),
        is_run(g, horizontal, line, start, len),
    ensures
        is_run(other, horizontal, line, start, len),
{
    assert forall|k: int| start <= k < start + len implies #[trigger] type_along(
        other,
        horizontal,
        line,
        k,
    ) == type_along(other, horizontal, line, start) by {
        assert(type_along(g, horizontal, line, k) == type_along(g, horizontal, line, start));
    }
}

/// An exchange of two symbols that show the same type changes nothing that
/// can be seen: every cell shows what it showed, so the board holds a run of
/// three or more after the exchange if and only if it held one before.
pub proof fn lemma_swap_of_equal_types(g: GridView, a: GridPos, b: GridPos)
    requires
        g.wf(),
        g.can_swap(a, b),
        g.cell_at(a).unwrap().spec_current_type() == g.cell_at(b).unwrap().spec_current_type(),
    ensures
        forall|x: int, y: int| #[trigger] g.swapped(a, b).type_at(x, y) == g.type_at(x, y),
        has_match(g.swapped(a, b)) <==> has_match(g),
{
    let s1 = g.cell_at(a).unwrap().at(b);
    let s2 = g.cell_at(b).unwrap().at(a);
    let after = g.swapped(a, b);
    g.lemma_cells(a.x as int, a.y as int);
    g.lemma_cells(b.x as int, b.y as int);
    g.lemma_put(b.x as int, b.y as int, Some(s1));
    g.put_at(b, Some(s1)).lemma_put(a.x as int, a.y as int, Some(s2));
    assert forall|x: int, y: int| #[trigger] after.type_at(x, y) == g.type_at(x, y) by {}
    if has_match(g) {
        let (horizontal, line, start, len) = choose|
            horizontal: bool,
            line: int,
            start: int,
            len: int,
        | #[trigger] is_run(g, horizontal, line, start, len) && len >= 3;
        lemma_run_of_same_types(g, after, horizontal, line, start, len);
    }
    if has_match(after) {
        let (horizontal, line, start, len) = choose|
            horizontal: bool,
            line: int,
            start: int,
            len: int,
        | #[trigger] is_run(after, horizontal, line, start, len) && len >= 3;
        lemma_run_of_same_types(after, g, horizontal, line, start, len);
    }
}

/// The cells of all matches of `ms`, one match after the other.
pub open spec fn all_positions(ms: Seq<Match>) -> Seq<GridPos>
    decreases ms.len(),
{
    if ms.len() == 0 {
        Seq::empty()
    } else {
        all_positions(ms.drop_last()) + ms.last().positions@
    }
}

/// The sequence `s` without repeats: of each coordinate its first
/// occurrence stays, in its place among the others.
pub open spec fn without_repeats(s: Seq<GridPos>) -> Seq<GridPos>
    decreases s.len(),
{
    if s.len() == 0 {
        Seq::empty()
    } else {
        let before = without_repeats(s.drop_last());
        if before.contains(s.last()) {
            before
        } else {
            before.push(s.last())
        }
    }
}

/// A sequence without its repeats holds no coordinate twice, and holds the
/// coordinates of the sequence and no others.
pub proof fn lemma_without_repeats(s: Seq<GridPos>)
    ensures
        without_repeats(s).no_duplicates(),
        forall|p: GridPos| without_repeats(s).contains(p) <==> s.contains(p),
    decreases s.len(),
{
    if s.len() > 0 {
        let front = s.drop_last();
        let before = without_repeats(front);
        let after = without_repeats(s);
        lemma_without_repeats(front);
        assert forall|p: GridPos| after.contains(p) <==> s.contains(p) by {
            if after.contains(p) {
                let i = choose|i: int| 0 <= i < after.len() && after[i] == p;
                if i < before.len() {
                    assert(before[i] == p);
                    assert(before.contains(p));
                    assert(front.contains(p));
                    let j = choose|j: int| 0 <= j < front.len() && front[j] == p;
                    assert(s[j] == p);
                } else {
                    assert(s[s.len() - 1] == p);
                }
            }
            if s.contains(p) {
                let j = choose|j: int| 0 <= j < s.len() && s[j] == p;
                if j < front.len() {
                    assert(front[j] == p);
                    assert(front.contains(p));
                    assert(before.contains(p));
                    let i = choose|i: int| 0 <= i < before.len() && before[i] == p;
                    assert(after[i] == p);
                } else {
                    assert(p == s.last());
                    if !before.contains(p) {
                        assert(after[before.len() as int] == p);
                    } else {
                        let i = choose|i: int| 0 <= i < before.len() && before[i] == p;
                        assert(after[i] == p);
                    }
                }
            }
        }
    }
}

/// Each match of a finished scan occurs in every other finished scan of the
/// same grid and axis, with the same cells.
proof fn lemma_scan_counterpart(
    a: Seq<Match>,
    b: Seq<Match>,
    g: GridView,
    horizontal: bool,
    i: int,
) -> (j: int)
    requires
        is_scan(a, g, horizontal),
        is_scan(b, g, horizontal),
        0 <= i < a.len(),
    ensures
        0 <= j < b.len(),
        b[j].positions@ == a[i].positions@,
        b[j].horizontal == a[i].horizontal,
        b[j].line() == a[i].line(),
        b[j].start() == a[i].start(),
{
    let m = a[i];
    assert(m.is_match_in(g));
    lemma_scan_is_complete(b, g, horizontal, m.line(), m.start(), m.positions@.len() as int);
    choose|j: int|
        0 <= j < b.len() && (#[trigger] b[j]).covers(
            horizontal,
            m.line(),
            m.start(),
            m.positions@.len() as int,
        )
}

/// Two finished scans of one grid along one axis agree in their first `n`
/// matches, as far as both have that many.
proof fn lemma_scan_prefix(a: Seq<Match>, b: Seq<Match>, g: GridView, horizontal: bool, n: int)
    requires
        is_scan(a, g, horizontal),
        is_scan(b, g, horizontal),
        0 <= n <= a.len(),
        n <= b.len(),
    ensures
        forall|i: int|
            0 <= i < n ==> (#[trigger] a[i]).positions@ == b[i].positions@ && a[i].horizontal
                == b[i].horizontal,
    decreases n,
{
    if n > 0 {
        lemma_scan_prefix(a, b, g, horizontal, n - 1);
        let last = n - 1;
        let j = lemma_scan_counterpart(a, b, g, horizontal, last);
        let k = lemma_scan_counterpart(b, a, g, horizontal, last);
        if j < last {
            assert(a[j].comes_before(&a[last]));
        }
        if k < last {
            assert(b[k].comes_before(&b[last]));
        }
        if j > last {
            assert(b[last].comes_before(&b[j]));
            if k > last {
                assert(a[last].comes_before(&a[k]));
            }
        }
    }
}

/// The scan of a grid along one axis is one sequence of matches: any two
/// sequences that are scans of the same grid and axis have the same matches
/// with the same cells in the same order.
pub proof fn lemma_scan_unique(a: Seq<Match>, b: Seq<Match>, g: GridView, horizontal: bool)
    requires
        is_scan(a, g, horizontal),
        is_scan(b, g, horizontal),
    ensures
        a.len() == b.len(),
        forall|i: int|
            0 <= i < a.len() ==> (#[trigger] a[i]).positions@ == b[i].positions@ && a[i].horizontal
                == b[i].horizontal,
{
    if a.len() > b.len() {
        lemma_scan_prefix(a, b, g, horizontal, b.len() as int);
        let j = lemma_scan_counterpart(a, b, g, horizontal, b.len() as int);
        assert(a[j].comes_before(&a[b.len() as int]));
    }
    if b.len() > a.len() {
        lemma_scan_prefix(a, b, g, horizontal, a.len() as int);
        let k = lemma_scan_counterpart(b, a, g, horizontal, a.len() as int);
        assert(b[k].comes_before(&b[a.len() as int]));
    }
    if a.len() == b.len() {
        lemma_scan_prefix(a, b, g, horizontal, a.len() as int);
    }
}

/// Finds the matches of a grid.
pub struct MatchFinder;

impl MatchFinder {
    /// The symbol in the `k`-th cell of a line, if one stands there.
    fn get_along(grid: &Grid, horizontal: bool, line: usize, k: usize) -> (r: Option<&Symbol>)
        requires
            grid.wf(),
        ensures
            match r {
                Some(s) => s.wf() && type_along(grid@, horizontal, line as int, k as int) == Some(
                    s.spec_current_type(),
                ),
                None => type_along(grid@, horizontal, line as int, k as int) is None,
            },
    {
        if horizontal {
            grid.get(k, line)
        } else {
            grid.get(line, k)
        }
    }

    /// The coordinates of `len` cells of a line from its cell `start` on.
    fn positions_along(horizontal: bool, line: usize, start: usize, len: usize) -> (r: Vec<GridPos>)
        requires
            line <= i32::MAX,
            start + len <= i32::MAX,
        ensures
            r@ == run_positions(horizontal, line as int, start as int, len as int),
    {
        let mut positions: Vec<GridPos> = Vec::new();
        let mut i: usize = 0;
        while i < len
            invariant
                i <= len,
                line <= i32::MAX,
                start + len <= i32::MAX,
                positions@.len() == i,
                forall|j: int|
                    0 <= j < i ==> #[trigger] positions@[j] == pos_along(
                        horizontal,
                        line as int,
                        start + j,
                    ),
            decreases len - i,
        {
            let pos = if horizontal {
                GridPos::new((start + i) as i32, line as i32)
            } else {
                GridPos::new(line as i32, (start + i) as i32)
            };
            positions.push(pos);
            i += 1;
        }
        assert(positions@ =~= run_positions(horizontal, line as int, start as int, len as int));
        positions
    }

    /// Scans the grid along one axis, line by line and each line from its
    /// first cell on: the rows from left to right where `horizontal`, else
    /// the columns from top to bottom. Each run of three or more becomes one
    /// match that covers the whole run; an empty cell ends a run.
    fn scan(grid: &Grid, horizontal: bool) -> (r: Vec<Match>)
        requires
            grid.wf(),
        ensures
            is_scan(r@, grid@, horizontal),
    {
        let lines = if horizontal {
            grid.height
        } else {
            grid.width
        };
        let length = if horizontal {
            grid.width
        } else {
            grid.height
        };
        let mut matches: Vec<Match> = Vec::new();
        let mut line: usize = 0;
        while line < lines
            invariant
                grid.wf(),
                lines == (if horizontal {
                    grid.height
                } else {
                    grid.width
                }),
                length == (if horizontal {
                    grid.width
                } else {
                    grid.height
                }),
                line <= lines,
                is_scan_up_to(matches@, grid@, horizontal, line as int, 0),
            decreases lines - line,
        {
            let mut k: usize = 0;
            while k < length
                invariant
                    grid.wf(),
                    lines == (if horizontal {
                        grid.height
                    } else {
                        grid.width
                    }),
                    length == (if horizontal {
                        grid.width
                    } else {
                        grid.height
                    }),
                    line < lines,
                    k <= length,
                    is_scan_up_to(matches@, grid@, horizontal, line as int, k as int),
                    type_along(grid@, horizontal, line as int, k as int) is Some ==> type_along(
                        grid@,
                        horizontal,
                        line as int,
                        k - 1,
                    ) != type_along(grid@, horizontal, line as int, k as int),
                decreases length - k,
            {
                match Self::get_along(grid, horizontal, line, k) {
                    Some(symbol) => {
                        let symbol_type = symbol.current_type();
                        let mut match_len: usize = 1;
                        while k + match_len < length && Self::shows_along(
                            grid,
                            horizontal,
                            line,
                            k + match_len,
                            symbol_type,
                        )
                            invariant
                                grid.wf(),
                                1 <= match_len,
                                k + match_len <= length,
                                forall|j: int|
                                    k <= j < k + match_len ==> #[trigger] type_along(
                                        grid@,
                                        horizontal,
                                        line as int,
                                        j,
                                    ) == Some(symbol_type),
                            decreases length - k - match_len,
                        {
                            match_len += 1;
                        }
                        assert(is_run(grid@, horizontal, line as int, k as int, match_len as int));
                        if match_len >= 3 {
                            let positions = Self::positions_along(horizontal, line, k, match_len);
                            let found = Match { positions, horizontal };
                            proof {
                                lemma_scan_over_match(
                                    matches@,
                                    found,
                                    grid@,
                                    horizontal,
                                    line as int,
                                    k as int,
                                    match_len as int,
                                );
                            }
                            matches.push(found);
                        } else {
                            proof {
                                lemma_scan_over_short_run(
                                    matches@,
                                    grid@,
                                    horizontal,
                                    line as int,
                                    k as int,
                                    match_len as int,
                                );
                            }
                        }
                        k += match_len;
                    },
                    None => {
                        proof {
                            lemma_scan_over_gap(matches@, grid@, horizontal, line as int, k as int);
                        }
                        k += 1;
                    },
                }
            }
            proof {
                lemma_scan_next_line(matches@, grid@, horizontal, line as int, k as int);
            }
            line += 1;
        }
        matches
    }

    /// Whether a symbol of type `symbol_type` shows in the `k`-th cell of a
    /// line.
    fn shows_along(
        grid: &Grid,
        horizontal: bool,
        line: usize,
        k: usize,
        symbol_type: SymbolType,
    ) -> (r: bool)
        requires
            grid.wf(),
        ensures
            r == (type_along(grid@, horizontal, line as int, k as int) == Some(symbol_type)),
    {
        if horizontal {
            grid.shows(k, line, symbol_type)
        } else {
            grid.shows(line, k, symbol_type)
        }
    }

    /// The horizontal matches: each row is scanned from left to right, the
    /// rows from top to bottom, and each run of three or more symbols of
    /// one type becomes one match that covers the whole run.
    pub fn find_horizontal(grid: &Grid) -> (r: Vec<Match>)
        requires
            grid.wf(),
        ensures
            is_scan(r@, grid@, true),
    {
        Self::scan(grid, true)
    }

    /// The vertical matches: each column is scanned from top to bottom, the
    /// columns from left to right, and each run of three or more symbols of
    /// one type becomes one match that covers the whole run.
    pub fn find_vertical(grid: &Grid) -> (r: Vec<Match>)
        requires
            grid.wf(),
        ensures
            is_scan(r@, grid@, false),
    {
        Self::scan(grid, false)
    }

    /// All matches: the horizontal ones, then the vertical ones. A cell at
    /// which a horizontal and a vertical match cross lies in both.
    pub fn find_all(grid: &Grid) -> (r: Vec<Match>)
        requires
            grid.wf(),
        ensures
            is_full_scan(r@, grid@),
            forall|i: int| 0 <= i < r@.len() ==> (#[trigger] r@[i]).is_match_in(grid@),
            forall|i: int, j: int|
                0 <= i < r@.len() && 0 <= j < r@[i].positions@.len() ==> grid@.cell_at(
                    #[trigger] r@[i].positions@[j],
                ) is Some,
            r@.len() > 0 <==> has_match(grid@),
    {
        let mut matches = Self::find_horizontal(grid);
        let mut down = Self::find_vertical(grid);
        let ghost across = matches@;
        let ghost below = down@;
        matches.append(&mut down);
        proof {
            assert(matches@.take(across.len() as int) =~= across);
            assert(matches@.skip(across.len() as int) =~= below);
            lemma_full_scan(matches@, grid@);
            assert forall|i: int, j: int|
                0 <= i < matches@.len() && 0 <= j < matches@[i].positions@.len() implies grid@.cell_at(
                #[trigger] matches@[i].positions@[j],
            ) is Some by {
                lemma_match_cells(&matches@[i], grid@, j, j);
            }
        }
        matches
    }

    /// Whether `pos` is among `positions`.
    fn contains(positions: &Vec<GridPos>, pos: GridPos) -> (r: bool)
        ensures
            r == positions@.contains(pos),
    {
        let mut i: usize = 0;
        while i < positions.len()
            invariant
                i <= positions@.len(),
                forall|j: int| 0 <= j < i ==> positions@[j] != pos,
            decreases positions@.len() - i,
        {
            if positions[i] == pos {
                return true;
            }
            i += 1;
        }
        false
    }

    /// The cells that lie in any of the matches, each once, in the order in
    /// which they first occur.
    pub fn get_matched_positions(matches: &[Match]) -> (r: Vec<GridPos>)
        ensures
            r@ == without_repeats(all_positions(matches@)),
            r@.no_duplicates(),
            forall|p: GridPos| r@.contains(p) <==> all_positions(matches@).contains(p),
    {
        let mut positions: Vec<GridPos> = Vec::new();
        let mut i: usize = 0;
        while i < matches.len()
            invariant
                i <= matches@.len(),
                positions@ == without_repeats(all_positions(matches@.take(i as int))),
            decreases matches@.len() - i,
        {
            let m = &matches[i];
            let ghost done = all_positions(matches@.take(i as int));
            let mut j: usize = 0;
            while j < m.positions.len()
                invariant
                    j <= m.positions@.len(),
                    positions@ == without_repeats(done + m.positions@.take(j as int)),
                decreases m.positions@.len() - j,
            {
                let pos = m.positions[j];
                proof {
                    let seen = done + m.positions@.take(j as int);
                    let next = done + m.positions@.take(j + 1);
                    assert(next.drop_last() =~= seen);
                    assert(next.last() == pos);
                }
                if !Self::contains(&positions, pos) {
                    positions.push(pos);
                }
                j += 1;
            }
            proof {
                assert(m.positions@.take(m.positions@.len() as int) == m.positions@);
                assert(matches@.take(i + 1).drop_last() == matches@.take(i as int));
                assert(matches@.take(i + 1).last() == matches@[i as int]);
            }
            i += 1;
        }
        proof {
            assert(matches@.take(matches@.len() as int) == matches@);
            lemma_without_repeats(all_positions(matches@));
        }
        positions
    }

    /// Whether an exchange of the symbols at `pos1` and `pos2` would leave a
    /// match on the board.
    ///
    /// The exchange is tried on a copy; the grid itself is only read. If
    /// either cell is empty or outside the grid, the answer is no. If both
    /// are one occupied cell, the exchange changes nothing that shows, and
    /// the answer is whether the board holds a match as it is.
    pub fn would_create_match(grid: &Grid, pos1: GridPos, pos2: GridPos) -> (r: bool)
        requires
            grid.wf(),
        ensures
            r == (grid@.cell_at(pos1) is Some && grid@.cell_at(pos2) is Some && has_match(
                if pos1 == pos2 {
                    grid@
                } else {
                    grid@.swapped(pos1, pos2)
                },
            )),
            r == (grid@.can_swap(pos1, pos2) && has_match(grid@.swapped(pos1, pos2))),
    {
        let mut temp_grid = grid.clone();
        proof {
            if pos1 == pos2 && grid@.can_swap(pos1, pos2) {
                lemma_swap_of_equal_types(grid@, pos1, pos2);
            }
        }
        if temp_grid.swap_cells(pos1, pos2) {
            let matches = Self::find_all(&temp_grid);
            matches.len() > 0
        } else {
            false
        }
    }
}

} // verus!
