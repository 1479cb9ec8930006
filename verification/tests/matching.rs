use revolving_match3::matching::{Match, MatchFinder};
use revolving_match3::symbols::{Grid, GridPos, Symbol, SymbolType};

use revolving_match3::symbols::SymbolType::{Blue, Green, Orange, Purple, Red, Yellow};

fn grid_of(rows: &[&[Option<SymbolType>]]) -> Grid {
    let height = rows.len();
    let width = if height == 0 { 0 } else { rows[0].len() };
    let mut g = Grid::new(width, height);
    for (y, row) in rows.iter().enumerate() {
        for (x, cell) in row.iter().enumerate() {
            if let Some(t) = cell {
                g.set(x, y, Some(Symbol::with_type(GridPos::new(x as i32, y as i32), *t)));
            }
        }
    }
    g
}

fn shown(g: &Grid) -> Vec<Option<SymbolType>> {
    g.cells.iter().map(|c| c.as_ref().map(|s| s.current_type())).collect()
}

fn stored(g: &Grid) -> Vec<Option<GridPos>> {
    g.cells.iter().map(|c| c.as_ref().map(|s| s.grid_pos)).collect()
}

fn cells(m: &Match) -> Vec<(i32, i32)> {
    m.positions.iter().map(|p| (p.x, p.y)).collect()
}

fn match_of(len: usize) -> Match {
    Match { positions: (0..len).map(|i| GridPos::new(i as i32, 0)).collect(), horizontal: true }
}

#[test]
fn strip_of_three_gives_one_match_worth_fifty() {
    let mut g = grid_of(&[&[Some(Red), Some(Red), Some(Blue)]]);
    assert!(MatchFinder::find_horizontal(&g).is_empty());
    g.set(2, 0, Some(Symbol::with_type(GridPos::new(2, 0), Red)));
    let found = MatchFinder::find_horizontal(&g);
    assert_eq!(found.len(), 1);
    assert!(found[0].horizontal);
    assert_eq!(found[0].len(), 3);
    assert_eq!(found[0].score(), 50);
    assert_eq!(cells(&found[0]), vec![(0, 0), (1, 0), (2, 0)]);
    assert!(MatchFinder::find_vertical(&g).is_empty());
    assert_eq!(MatchFinder::find_all(&g).len(), 1);
}

#[test]
fn score_goes_by_flat_tiers() {
    assert_eq!(match_of(3).score(), 50);
    assert_eq!(match_of(4).score(), 100);
    assert_eq!(match_of(5).score(), 200);
    assert_eq!(match_of(6).score(), 400);
    assert_eq!(match_of(7).score(), 400);
    assert_eq!(match_of(100).score(), 400);
}

#[test]
fn score_of_what_is_too_short_for_a_match_is_the_top_tier() {
    assert_eq!(match_of(0).score(), 400);
    assert_eq!(match_of(1).score(), 400);
    assert_eq!(match_of(2).score(), 400);
}

#[test]
fn len_and_is_empty_count_the_cells() {
    assert_eq!(match_of(0).len(), 0);
    assert!(match_of(0).is_empty());
    assert_eq!(match_of(4).len(), 4);
    assert!(!match_of(4).is_empty());
}

#[test]
fn match_clone_has_the_same_cells() {
    let m = Match { positions: vec![GridPos::new(1, 2), GridPos::new(1, 3)], horizontal: false };
    let c = m.clone();
    assert_eq!(c.positions, m.positions);
    assert!(!c.horizontal);
}

#[test]
fn empty_grid_has_no_match() {
    let g = Grid::new(5, 5);
    assert!(MatchFinder::find_horizontal(&g).is_empty());
    assert!(MatchFinder::find_vertical(&g).is_empty());
    assert!(MatchFinder::find_all(&g).is_empty());
    let none = Grid::new(0, 0);
    assert!(MatchFinder::find_all(&none).is_empty());
}

#[test]
fn two_in_a_row_are_no_match() {
    let g = grid_of(&[&[Some(Red), Some(Red), Some(Blue), Some(Blue)]]);
    assert!(MatchFinder::find_all(&g).is_empty());
}

#[test]
fn run_of_four_is_one_match_of_four() {
    let g = grid_of(&[&[Some(Green), Some(Green), Some(Green), Some(Green)]]);
    let found = MatchFinder::find_horizontal(&g);
    assert_eq!(found.len(), 1);
    assert_eq!(cells(&found[0]), vec![(0, 0), (1, 0), (2, 0), (3, 0)]);
    assert_eq!(found[0].score(), 100);
}

#[test]
fn run_in_the_middle_of_a_row_is_covered_exactly() {
    let g = grid_of(&[&[
        Some(Red),
        Some(Blue),
        Some(Blue),
        Some(Blue),
        Some(Blue),
        Some(Blue),
        Some(Red),
    ]]);
    let found = MatchFinder::find_horizontal(&g);
    assert_eq!(found.len(), 1);
    assert_eq!(cells(&found[0]), vec![(1, 0), (2, 0), (3, 0), (4, 0), (5, 0)]);
    assert_eq!(found[0].score(), 200);
}

#[test]
fn two_runs_in_one_row_come_from_left_to_right() {
    let g = grid_of(&[&[Some(Red), Some(Red), Some(Red), Some(Blue), Some(Blue), Some(Blue)]]);
    let found = MatchFinder::find_horizontal(&g);
    assert_eq!(found.len(), 2);
    assert_eq!(cells(&found[0]), vec![(0, 0), (1, 0), (2, 0)]);
    assert_eq!(cells(&found[1]), vec![(3, 0), (4, 0), (5, 0)]);
}

#[test]
fn a_gap_breaks_a_run() {
    let g = grid_of(&[&[Some(Red), Some(Red), None, Some(Red), Some(Red)]]);
    assert!(MatchFinder::find_horizontal(&g).is_empty());
    let g = grid_of(&[&[None, Some(Red), Some(Red), Some(Red), None]]);
    let found = MatchFinder::find_horizontal(&g);
    assert_eq!(found.len(), 1);
    assert_eq!(cells(&found[0]), vec![(1, 0), (2, 0), (3, 0)]);
}

#[test]
fn rows_are_scanned_from_top_to_bottom() {
    let g = grid_of(&[
        &[Some(Red), Some(Blue), Some(Red)],
        &[Some(Blue), Some(Blue), Some(Blue)],
        &[Some(Green), Some(Green), Some(Green)],
    ]);
    let found = MatchFinder::find_horizontal(&g);
    assert_eq!(found.len(), 2);
    assert_eq!(cells(&found[0]), vec![(0, 1), (1, 1), (2, 1)]);
    assert_eq!(cells(&found[1]), vec![(0, 2), (1, 2), (2, 2)]);
    assert!(found.iter().all(|m| m.horizontal));
}

#[test]
fn vertical_run_is_found_from_top_to_bottom() {
    let g = grid_of(&[
        &[Some(Red), Some(Blue)],
        &[Some(Green), Some(Blue)],
        &[Some(Red), Some(Blue)],
        &[Some(Red), Some(Blue)],
    ]);
    assert!(MatchFinder::find_horizontal(&g).is_empty());
    let found = MatchFinder::find_vertical(&g);
    assert_eq!(found.len(), 1);
    assert!(!found[0].horizontal);
    assert_eq!(cells(&found[0]), vec![(1, 0), (1, 1), (1, 2), (1, 3)]);
    assert_eq!(found[0].score(), 100);
}

#[test]
fn columns_are_scanned_from_left_to_right() {
    let g = grid_of(&[
        &[Some(Red), Some(Yellow), Some(Blue)],
        &[Some(Red), Some(Green), Some(Blue)],
        &[Some(Red), Some(Yellow), Some(Blue)],
    ]);
    let found = MatchFinder::find_vertical(&g);
    assert_eq!(found.len(), 2);
    assert_eq!(cells(&found[0]), vec![(0, 0), (0, 1), (0, 2)]);
    assert_eq!(cells(&found[1]), vec![(2, 0), (2, 1), (2, 2)]);
}

#[test]
fn matches_go_by_the_face_that_shows() {
    let mut g = grid_of(&[&[Some(Red), Some(Red), Some(Orange)]]);
    assert!(MatchFinder::find_all(&g).is_empty());
    g.get_mut(2, 0).unwrap().rotate();
    assert_eq!(MatchFinder::find_all(&g).len(), 1);
    g.rotate_all();
    assert_eq!(MatchFinder::find_all(&g).len(), 1);
    g.rotate_all();
    assert_eq!(MatchFinder::find_all(&g).len(), 1);
    g.rotate_all();
    assert!(MatchFinder::find_all(&g).is_empty());
}

#[test]
fn find_all_gives_horizontal_matches_first() {
    let g = grid_of(&[
        &[Some(Red), Some(Blue), Some(Green)],
        &[Some(Red), Some(Yellow), Some(Purple)],
        &[Some(Red), Some(Orange), Some(Orange)],
        &[Some(Blue), Some(Blue), Some(Blue)],
    ]);
    let found = MatchFinder::find_all(&g);
    assert_eq!(found.len(), 2);
    assert!(found[0].horizontal);
    assert_eq!(cells(&found[0]), vec![(0, 3), (1, 3), (2, 3)]);
    assert!(!found[1].horizontal);
    assert_eq!(cells(&found[1]), vec![(0, 0), (0, 1), (0, 2)]);
}

#[test]
fn crossing_matches_share_a_cell() {
    let g = grid_of(&[
        &[Some(Blue), Some(Red), Some(Green)],
        &[Some(Red), Some(Red), Some(Red)],
        &[Some(Green), Some(Red), Some(Blue)],
    ]);
    let found = MatchFinder::find_all(&g);
    assert_eq!(found.len(), 2);
    assert_eq!(cells(&found[0]), vec![(0, 1), (1, 1), (2, 1)]);
    assert_eq!(cells(&found[1]), vec![(1, 0), (1, 1), (1, 2)]);
    let unique = MatchFinder::get_matched_positions(&found);
    let unique: Vec<(i32, i32)> = unique.iter().map(|p| (p.x, p.y)).collect();
    assert_eq!(unique, vec![(0, 1), (1, 1), (2, 1), (1, 0), (1, 2)]);
}

#[test]
fn every_cell_of_a_match_is_occupied_and_shows_one_type() {
    let mut g = Grid::new(8, 8);
    for round in 0..20 {
        g.fill_random();
        if round % 2 == 1 {
            g.rotate_all();
        }
        for m in MatchFinder::find_all(&g) {
            assert!(m.len() >= 3);
            let first = m.positions[0];
            let t = g.get(first.x as usize, first.y as usize).unwrap().current_type();
            for (i, p) in m.positions.iter().enumerate() {
                assert!(g.is_valid(p.x, p.y));
                assert_eq!(g.get(p.x as usize, p.y as usize).unwrap().current_type(), t);
                if m.horizontal {
                    assert_eq!((p.x, p.y), (first.x + i as i32, first.y));
                } else {
                    assert_eq!((p.x, p.y), (first.x, first.y + i as i32));
                }
            }
        }
    }
}

#[test]
fn matched_positions_of_no_matches_are_none() {
    assert!(MatchFinder::get_matched_positions(&[]).is_empty());
    assert!(MatchFinder::get_matched_positions(&[match_of(0)]).is_empty());
}

#[test]
fn matched_positions_keep_the_order_of_first_appearance() {
    let a = Match {
        positions: vec![GridPos::new(2, 0), GridPos::new(1, 0), GridPos::new(2, 0)],
        horizontal: true,
    };
    let b = Match {
        positions: vec![GridPos::new(0, 0), GridPos::new(1, 0), GridPos::new(3, 3)],
        horizontal: false,
    };
    let unique = MatchFinder::get_matched_positions(&[a, b]);
    assert_eq!(
        unique,
        vec![GridPos::new(2, 0), GridPos::new(1, 0), GridPos::new(0, 0), GridPos::new(3, 3)]
    );
}

#[test]
fn matched_positions_hold_no_cell_twice() {
    let mut g = Grid::new(8, 8);
    for _ in 0..20 {
        g.fill_random();
        g.rotate_all();
        let found = MatchFinder::find_all(&g);
        let unique = MatchFinder::get_matched_positions(&found);
        for i in 0..unique.len() {
            for j in 0..i {
                assert_ne!(unique[i], unique[j]);
            }
        }
        for m in &found {
            for p in &m.positions {
                assert!(unique.contains(p));
            }
        }
    }
}

#[test]
fn swap_that_lines_up_three_would_create_a_match() {
    let g = grid_of(&[
        &[Some(Red), Some(Red), Some(Blue), Some(Green)],
        &[Some(Green), Some(Yellow), Some(Red), Some(Yellow)],
    ]);
    assert!(MatchFinder::would_create_match(&g, GridPos::new(2, 0), GridPos::new(2, 1)));
    assert!(MatchFinder::would_create_match(&g, GridPos::new(2, 1), GridPos::new(2, 0)));
    assert!(!MatchFinder::would_create_match(&g, GridPos::new(3, 0), GridPos::new(3, 1)));
    assert!(!MatchFinder::would_create_match(&g, GridPos::new(0, 0), GridPos::new(0, 1)));
}

#[test]
fn would_create_match_leaves_the_grid_as_it_is() {
    let g = grid_of(&[
        &[Some(Red), Some(Red), Some(Blue), Some(Green)],
        &[Some(Green), Some(Yellow), Some(Red), None],
    ]);
    let types = shown(&g);
    let positions = stored(&g);
    for (a, b) in [
        (GridPos::new(2, 0), GridPos::new(2, 1)),
        (GridPos::new(3, 0), GridPos::new(3, 1)),
        (GridPos::new(0, 0), GridPos::new(1, 0)),
        (GridPos::new(0, 0), GridPos::new(0, 0)),
        (GridPos::new(-1, 0), GridPos::new(0, 0)),
        (GridPos::new(0, 0), GridPos::new(9, 9)),
    ] {
        MatchFinder::would_create_match(&g, a, b);
        assert_eq!(shown(&g), types);
        assert_eq!(stored(&g), positions);
        assert_eq!((g.width, g.height), (4, 2));
    }
}

#[test]
fn swap_of_two_equal_symbols_makes_no_match_of_itself() {
    let g = grid_of(&[
        &[Some(Red), Some(Red), Some(Blue), Some(Green)],
        &[Some(Green), Some(Yellow), Some(Blue), Some(Yellow)],
    ]);
    assert!(!MatchFinder::would_create_match(&g, GridPos::new(0, 0), GridPos::new(1, 0)));
    assert!(!MatchFinder::would_create_match(&g, GridPos::new(2, 0), GridPos::new(2, 1)));
}

#[test]
fn swap_on_a_board_with_a_match_elsewhere_would_create_a_match() {
    let g = grid_of(&[
        &[Some(Red), Some(Red), Some(Red), Some(Green)],
        &[Some(Green), Some(Yellow), Some(Blue), Some(Yellow)],
    ]);
    assert!(MatchFinder::would_create_match(&g, GridPos::new(3, 0), GridPos::new(3, 1)));
    assert!(!MatchFinder::would_create_match(&g, GridPos::new(0, 0), GridPos::new(0, 1)));
}

#[test]
fn swap_with_a_gap_would_create_no_match() {
    let g = grid_of(&[
        &[Some(Red), Some(Red), None, Some(Green)],
        &[Some(Green), Some(Yellow), Some(Red), Some(Yellow)],
    ]);
    assert!(!MatchFinder::would_create_match(&g, GridPos::new(2, 0), GridPos::new(2, 1)));
    assert!(!MatchFinder::would_create_match(&g, GridPos::new(2, 1), GridPos::new(2, 0)));
}

#[test]
fn swap_with_a_gap_is_refused_even_beside_a_match() {
    let g = grid_of(&[&[Some(Red), Some(Red), Some(Red), Some(Green), None]]);
    assert!(!MatchFinder::would_create_match(&g, GridPos::new(3, 0), GridPos::new(4, 0)));
}

#[test]
fn swap_outside_the_grid_would_create_no_match() {
    let g = grid_of(&[&[Some(Red), Some(Red), Some(Red), Some(Green)]]);
    assert!(!MatchFinder::would_create_match(&g, GridPos::new(3, 0), GridPos::new(4, 0)));
    assert!(!MatchFinder::would_create_match(&g, GridPos::new(3, 0), GridPos::new(3, -1)));
    assert!(!MatchFinder::would_create_match(&g, GridPos::new(-1, 0), GridPos::new(0, 0)));
    let far = GridPos::new(i32::MIN, i32::MAX);
    assert!(!MatchFinder::would_create_match(&g, far, GridPos::new(0, 0)));
}

#[test]
fn swap_of_a_cell_with_itself_is_judged_by_the_board_as_it_is() {
    let g = grid_of(&[&[Some(Red), Some(Red), Some(Red), Some(Green)]]);
    assert!(MatchFinder::would_create_match(&g, GridPos::new(3, 0), GridPos::new(3, 0)));
    assert!(MatchFinder::would_create_match(&g, GridPos::new(0, 0), GridPos::new(0, 0)));
    let g = grid_of(&[&[Some(Red), Some(Red), Some(Blue), Some(Green)]]);
    assert!(!MatchFinder::would_create_match(&g, GridPos::new(3, 0), GridPos::new(3, 0)));
    assert!(!MatchFinder::would_create_match(&g, GridPos::new(0, 0), GridPos::new(0, 0)));
    let g = grid_of(&[&[Some(Red), Some(Red), Some(Red), None]]);
    assert!(!MatchFinder::would_create_match(&g, GridPos::new(3, 0), GridPos::new(3, 0)));
    assert!(!MatchFinder::would_create_match(&g, GridPos::new(4, 0), GridPos::new(4, 0)));
}

#[test]
fn would_create_match_does_not_go_by_the_order_of_the_two_cells() {
    let g = grid_of(&[
        &[Some(Red), Some(Red), Some(Blue), Some(Green)],
        &[Some(Green), Some(Yellow), Some(Red), None],
    ]);
    for ay in 0..3 {
        for ax in -1..5 {
            for by in 0..3 {
                for bx in -1..5 {
                    let a = GridPos::new(ax, ay);
                    let b = GridPos::new(bx, by);
                    assert_eq!(
                        MatchFinder::would_create_match(&g, a, b),
                        MatchFinder::would_create_match(&g, b, a)
                    );
                }
            }
        }
    }
}

#[test]
fn swap_need_not_be_between_neighbours_to_be_judged() {
    let g = grid_of(&[
        &[Some(Red), Some(Red), Some(Blue), Some(Green)],
        &[Some(Green), Some(Yellow), Some(Purple), Some(Red)],
    ]);
    assert!(MatchFinder::would_create_match(&g, GridPos::new(2, 0), GridPos::new(3, 1)));
}

#[test]
fn six_types_in_turn_make_no_match() {
    let order = [Red, Blue, Green, Yellow, Purple, Orange];
    let mut g = Grid::new(6, 6);
    for y in 0..6 {
        for x in 0..6 {
            let t = order[(x + 2 * y) % 6];
            g.set(x, y, Some(Symbol::with_type(GridPos::new(x as i32, y as i32), t)));
        }
    }
    assert!(MatchFinder::find_all(&g).is_empty());
    g.rotate_all();
    assert!(MatchFinder::find_all(&g).is_empty());
}
