use revolving_match3::symbols::{Grid, GridPos, Symbol, SymbolType};
use revolving_match3::symbols::SymbolType::{Blue, Green, Orange, Purple, Red, Yellow};

const ORDER: [SymbolType; 6] = [
    SymbolType::Red,
    SymbolType::Blue,
    SymbolType::Green,
    SymbolType::Yellow,
    SymbolType::Purple,
    SymbolType::Orange,
];

fn symbol(x: usize, y: usize, t: SymbolType) -> Symbol {
    Symbol::with_type(GridPos::new(x as i32, y as i32), t)
}

#[test]
fn all_lists_the_six_types_in_order() {
    assert_eq!(SymbolType::ALL, ORDER);
}

#[test]
fn index_gives_the_place_in_the_order() {
    for (i, t) in ORDER.iter().enumerate() {
        assert_eq!(t.index(), i);
    }
}

#[test]
fn from_index_is_the_inverse_of_index() {
    for t in ORDER {
        assert_eq!(SymbolType::from_index(t.index()), t);
    }
}

#[test]
fn from_index_wraps_around_after_six() {
    assert_eq!(SymbolType::from_index(6), SymbolType::Red);
    assert_eq!(SymbolType::from_index(7), SymbolType::Blue);
    assert_eq!(SymbolType::from_index(11), SymbolType::Orange);
    assert_eq!(SymbolType::from_index(6 * 1000 + 4), SymbolType::Purple);
    assert_eq!(SymbolType::from_index(usize::MAX), SymbolType::from_index(usize::MAX % 6));
}

#[test]
fn random_types_are_not_all_the_same() {
    let first = SymbolType::random();
    let mut other = false;
    for _ in 0..1000 {
        if SymbolType::random() != first {
            other = true;
        }
    }
    assert!(other);
}

#[test]
fn random_types_reach_every_type() {
    let mut seen = [false; 6];
    for _ in 0..10_000 {
        seen[SymbolType::random().index()] = true;
    }
    assert_eq!(seen, [true; 6]);
}

#[test]
fn grid_pos_new_keeps_both_numbers() {
    let p = GridPos::new(3, -4);
    assert_eq!(p.x, 3);
    assert_eq!(p.y, -4);
    assert_eq!(p, GridPos { x: 3, y: -4 });
}

#[test]
fn with_type_gives_each_type_its_fixed_cycle() {
    let p = GridPos::new(0, 0);
    assert_eq!(Symbol::with_type(p, Red).faces, [Red, Blue, Green, Yellow]);
    assert_eq!(Symbol::with_type(p, Blue).faces, [Blue, Green, Yellow, Purple]);
    assert_eq!(Symbol::with_type(p, Green).faces, [Green, Yellow, Purple, Orange]);
    assert_eq!(Symbol::with_type(p, Yellow).faces, [Yellow, Purple, Orange, Red]);
    assert_eq!(Symbol::with_type(p, Purple).faces, [Purple, Orange, Red, Blue]);
    assert_eq!(Symbol::with_type(p, Orange).faces, [Orange, Red, Blue, Green]);
}

#[test]
fn with_type_starts_unrotated_and_unmarked() {
    let s = Symbol::with_type(GridPos::new(2, 5), SymbolType::Green);
    assert_eq!(s.rotation_state, 0);
    assert_eq!(s.grid_pos, GridPos::new(2, 5));
    assert!(!s.selected);
    assert!(!s.marked_for_clear);
    assert_eq!(s.current_type(), SymbolType::Green);
}

#[test]
fn new_symbol_starts_unrotated_at_its_cell() {
    for _ in 0..50 {
        let s = Symbol::new(GridPos::new(1, 7));
        assert_eq!(s.rotation_state, 0);
        assert_eq!(s.grid_pos, GridPos::new(1, 7));
        assert!(!s.selected);
        assert!(!s.marked_for_clear);
        assert_eq!(s.current_type(), s.faces[0]);
    }
}

#[test]
fn new_symbols_do_not_all_have_the_same_faces() {
    let first = Symbol::new(GridPos::new(0, 0)).faces;
    let mut other = false;
    for _ in 0..200 {
        if Symbol::new(GridPos::new(0, 0)).faces != first {
            other = true;
        }
    }
    assert!(other);
}

#[test]
fn rotate_shows_the_faces_one_after_the_other() {
    let mut s = Symbol::with_type(GridPos::new(0, 0), SymbolType::Purple);
    let faces = s.faces;
    for turn in 0..9 {
        assert_eq!(s.rotation_state as usize, turn % 4);
        assert_eq!(s.current_type(), faces[turn % 4]);
        s.rotate();
    }
}

#[test]
fn four_rotations_bring_a_symbol_back() {
    for t in ORDER {
        let mut s = Symbol::with_type(GridPos::new(0, 0), t);
        s.rotate();
        let start = s.rotation_state;
        let shown = s.current_type();
        for _ in 0..4 {
            s.rotate();
        }
        assert_eq!(s.rotation_state, start);
        assert_eq!(s.current_type(), shown);
    }
}

#[test]
fn rotate_leaves_the_rest_of_the_symbol_alone() {
    let mut s = Symbol::with_type(GridPos::new(4, 2), SymbolType::Blue);
    s.selected = true;
    let faces = s.faces;
    s.rotate();
    assert_eq!(s.faces, faces);
    assert_eq!(s.grid_pos, GridPos::new(4, 2));
    assert!(s.selected);
    assert!(!s.marked_for_clear);
}

#[test]
fn matches_goes_by_the_face_that_shows() {
    let red = Symbol::with_type(GridPos::new(0, 0), SymbolType::Red);
    let mut orange = Symbol::with_type(GridPos::new(1, 0), SymbolType::Orange);
    assert!(!red.matches(&orange));
    assert!(red.matches(&red));
    orange.rotate();
    assert_eq!(orange.current_type(), SymbolType::Red);
    assert!(red.matches(&orange));
    assert!(orange.matches(&red));
}

#[test]
fn symbol_clone_is_the_same_symbol() {
    let mut s = Symbol::with_type(GridPos::new(3, 3), SymbolType::Yellow);
    s.rotate();
    s.marked_for_clear = true;
    let c = s.clone();
    assert_eq!(c.faces, s.faces);
    assert_eq!(c.rotation_state, 1);
    assert_eq!(c.grid_pos, s.grid_pos);
    assert_eq!(c.selected, s.selected);
    assert!(c.marked_for_clear);
}

#[test]
fn new_grid_is_empty() {
    let g = Grid::new(4, 3);
    assert_eq!(g.width, 4);
    assert_eq!(g.height, 3);
    assert_eq!(g.cells.len(), 12);
    for y in 0..3 {
        for x in 0..4 {
            assert!(g.get(x, y).is_none());
        }
    }
}

#[test]
fn grid_without_cells_answers_nothing() {
    let mut g = Grid::new(0, 5);
    assert_eq!(g.cells.len(), 0);
    assert!(g.get(0, 0).is_none());
    assert!(g.take(0, 0).is_none());
    g.set(0, 0, Some(symbol(0, 0, SymbolType::Red)));
    assert_eq!(g.cells.len(), 0);
    g.rotate_all();
    g.fill_random();
    assert_eq!(g.cells.len(), 0);
}

#[test]
fn is_valid_takes_the_cells_of_the_grid_only() {
    let g = Grid::new(4, 3);
    assert!(g.is_valid(0, 0));
    assert!(g.is_valid(3, 2));
    assert!(!g.is_valid(4, 2));
    assert!(!g.is_valid(3, 3));
    assert!(!g.is_valid(-1, 0));
    assert!(!g.is_valid(0, -1));
    assert!(!g.is_valid(i32::MIN, i32::MIN));
    assert!(!g.is_valid(i32::MAX, 0));
}

#[test]
fn set_and_get_use_column_then_row() {
    let mut g = Grid::new(4, 3);
    g.set(3, 1, Some(symbol(3, 1, SymbolType::Green)));
    assert_eq!(g.get(3, 1).unwrap().current_type(), SymbolType::Green);
    assert!(g.get(1, 3).is_none());
    assert!(g.get(1, 2).is_none());
    assert!(g.cells[1 * 4 + 3].is_some());
    let occupied = g.cells.iter().filter(|c| c.is_some()).count();
    assert_eq!(occupied, 1);
}

#[test]
fn set_outside_the_grid_does_nothing() {
    let mut g = Grid::new(4, 3);
    g.set(4, 0, Some(symbol(4, 0, SymbolType::Red)));
    g.set(0, 3, Some(symbol(0, 3, SymbolType::Red)));
    g.set(usize::MAX, usize::MAX, Some(symbol(0, 0, SymbolType::Red)));
    assert!(g.cells.iter().all(|c| c.is_none()));
    assert_eq!(g.cells.len(), 12);
}

#[test]
fn set_with_nothing_empties_the_cell() {
    let mut g = Grid::new(2, 2);
    g.set(1, 1, Some(symbol(1, 1, SymbolType::Red)));
    g.set(1, 1, None);
    assert!(g.get(1, 1).is_none());
}

#[test]
fn take_removes_the_symbol() {
    let mut g = Grid::new(2, 2);
    g.set(0, 1, Some(symbol(0, 1, SymbolType::Orange)));
    let s = g.take(0, 1).unwrap();
    assert_eq!(s.current_type(), SymbolType::Orange);
    assert_eq!(s.grid_pos, GridPos::new(0, 1));
    assert!(g.get(0, 1).is_none());
    assert!(g.take(0, 1).is_none());
}

#[test]
fn take_outside_the_grid_is_nothing() {
    let mut g = Grid::new(2, 2);
    g.set(0, 0, Some(symbol(0, 0, SymbolType::Orange)));
    assert!(g.take(2, 0).is_none());
    assert!(g.take(0, 2).is_none());
    assert!(g.get(0, 0).is_some());
}

#[test]
fn get_outside_the_grid_is_nothing() {
    let mut g = Grid::new(2, 2);
    g.fill_random();
    assert!(g.get(2, 0).is_none());
    assert!(g.get(0, 2).is_none());
    assert!(g.get(usize::MAX, 0).is_none());
}

#[test]
fn get_mut_changes_the_symbol_in_its_cell() {
    let mut g = Grid::new(3, 3);
    g.set(2, 0, Some(symbol(2, 0, SymbolType::Red)));
    g.get_mut(2, 0).unwrap().rotate();
    assert_eq!(g.get(2, 0).unwrap().current_type(), SymbolType::Blue);
    g.get_mut(2, 0).unwrap().selected = true;
    assert!(g.get(2, 0).unwrap().selected);
}

#[test]
fn get_mut_of_a_gap_or_outside_is_nothing() {
    let mut g = Grid::new(3, 3);
    assert!(g.get_mut(1, 1).is_none());
    assert!(g.get_mut(3, 0).is_none());
    assert!(g.get_mut(0, 3).is_none());
}

#[test]
fn at_variants_treat_negative_coordinates_as_outside() {
    let mut g = Grid::new(2, 2);
    g.set_at(GridPos::new(1, 0), Some(symbol(1, 0, SymbolType::Green)));
    assert_eq!(g.get(1, 0).unwrap().current_type(), SymbolType::Green);
    g.set_at(GridPos::new(-1, 0), Some(symbol(0, 0, SymbolType::Red)));
    g.set_at(GridPos::new(0, -1), Some(symbol(0, 0, SymbolType::Red)));
    assert!(g.take_at(GridPos::new(-1, 0)).is_none());
    assert!(g.take_at(GridPos::new(0, -1)).is_none());
    assert_eq!(g.cells.iter().filter(|c| c.is_some()).count(), 1);
    assert_eq!(g.take_at(GridPos::new(1, 0)).unwrap().current_type(), SymbolType::Green);
    assert!(g.cells.iter().all(|c| c.is_none()));
}

#[test]
fn shows_tells_the_type_in_a_cell() {
    let mut g = Grid::new(2, 2);
    g.set(0, 0, Some(symbol(0, 0, SymbolType::Green)));
    assert!(g.shows(0, 0, SymbolType::Green));
    assert!(!g.shows(0, 0, SymbolType::Red));
    assert!(!g.shows(1, 0, SymbolType::Green));
    assert!(!g.shows(5, 5, SymbolType::Green));
}

#[test]
fn completes_run_looks_two_cells_left_and_two_up() {
    let mut g = Grid::new(4, 4);
    g.set(0, 2, Some(symbol(0, 2, SymbolType::Red)));
    g.set(1, 2, Some(symbol(1, 2, SymbolType::Red)));
    g.set(3, 0, Some(symbol(3, 0, SymbolType::Blue)));
    g.set(3, 1, Some(symbol(3, 1, SymbolType::Blue)));
    assert!(g.completes_run(2, 2, SymbolType::Red));
    assert!(!g.completes_run(2, 2, SymbolType::Blue));
    assert!(g.completes_run(3, 2, SymbolType::Blue));
    assert!(!g.completes_run(3, 2, SymbolType::Red));
    assert!(!g.completes_run(1, 2, SymbolType::Red));
    assert!(!g.completes_run(0, 0, SymbolType::Red));
    assert!(!g.completes_run(3, 3, SymbolType::Blue));
}

#[test]
fn completes_run_needs_both_neighbours() {
    let mut g = Grid::new(3, 3);
    g.set(1, 0, Some(symbol(1, 0, SymbolType::Red)));
    assert!(!g.completes_run(2, 0, SymbolType::Red));
    g.set(0, 0, Some(symbol(0, 0, SymbolType::Blue)));
    assert!(!g.completes_run(2, 0, SymbolType::Red));
    g.set(0, 0, Some(symbol(0, 0, SymbolType::Red)));
    assert!(g.completes_run(2, 0, SymbolType::Red));
}

#[test]
fn fill_random_fills_every_cell_with_a_fresh_symbol() {
    let mut g = Grid::new(8, 8);
    g.fill_random();
    for y in 0..8 {
        for x in 0..8 {
            let s = g.get(x, y).unwrap();
            assert_eq!(s.grid_pos, GridPos::new(x as i32, y as i32));
            assert_eq!(s.rotation_state, 0);
            assert!(!s.selected);
            assert!(!s.marked_for_clear);
            assert_eq!(s.faces, Symbol::with_type(s.grid_pos, s.faces[0]).faces);
        }
    }
}

#[test]
fn fill_random_replaces_what_was_there() {
    let mut g = Grid::new(3, 3);
    let mut s = symbol(1, 1, SymbolType::Red);
    s.rotate();
    s.selected = true;
    g.set(1, 1, Some(s));
    g.fill_random();
    let s = g.get(1, 1).unwrap();
    assert_eq!(s.rotation_state, 0);
    assert!(!s.selected);
}

#[test]
fn fill_random_does_not_give_every_cell_one_type() {
    let mut g = Grid::new(8, 8);
    g.fill_random();
    let first = g.get(0, 0).unwrap().current_type();
    assert!(g.cells.iter().any(|c| c.as_ref().unwrap().current_type() != first));
}

#[test]
fn rotate_all_once_shows_every_second_face() {
    let mut g = Grid::new(8, 8);
    g.fill_random();
    let second: Vec<SymbolType> = g.cells.iter().map(|c| c.as_ref().unwrap().faces[1]).collect();
    g.rotate_all();
    for y in 0..8 {
        for x in 0..8 {
            let s = g.get(x, y).unwrap();
            assert_eq!(s.rotation_state, 1);
            assert_eq!(s.current_type(), second[y * 8 + x]);
        }
    }
}

#[test]
fn rotate_all_four_times_shows_what_was_shown() {
    let mut g = Grid::new(5, 4);
    g.fill_random();
    g.set(2, 2, None);
    g.rotate_all();
    let shown: Vec<Option<SymbolType>> =
        g.cells.iter().map(|c| c.as_ref().map(|s| s.current_type())).collect();
    let states: Vec<Option<u8>> =
        g.cells.iter().map(|c| c.as_ref().map(|s| s.rotation_state)).collect();
    for _ in 0..4 {
        g.rotate_all();
    }
    let after: Vec<Option<SymbolType>> =
        g.cells.iter().map(|c| c.as_ref().map(|s| s.current_type())).collect();
    let states_after: Vec<Option<u8>> =
        g.cells.iter().map(|c| c.as_ref().map(|s| s.rotation_state)).collect();
    assert_eq!(after, shown);
    assert_eq!(states_after, states);
}

#[test]
fn rotate_all_keeps_gaps_and_positions() {
    let mut g = Grid::new(3, 2);
    g.set(0, 0, Some(symbol(0, 0, SymbolType::Red)));
    g.set(2, 1, Some(symbol(2, 1, SymbolType::Orange)));
    g.rotate_all();
    assert_eq!(g.cells.iter().filter(|c| c.is_some()).count(), 2);
    assert_eq!(g.get(0, 0).unwrap().current_type(), SymbolType::Blue);
    assert_eq!(g.get(0, 0).unwrap().grid_pos, GridPos::new(0, 0));
    assert_eq!(g.get(2, 1).unwrap().current_type(), SymbolType::Red);
    assert!(g.get(1, 0).is_none());
}

#[test]
fn grid_clone_is_a_grid_of_its_own() {
    let mut g = Grid::new(3, 2);
    g.set(1, 1, Some(symbol(1, 1, SymbolType::Purple)));
    let mut c = g.clone();
    assert_eq!(c.width, 3);
    assert_eq!(c.height, 2);
    assert_eq!(c.get(1, 1).unwrap().current_type(), SymbolType::Purple);
    c.set(1, 1, None);
    c.set(0, 0, Some(symbol(0, 0, SymbolType::Red)));
    assert!(g.get(1, 1).is_some());
    assert!(g.get(0, 0).is_none());
}

#[test]
fn swap_cells_exchanges_two_symbols_and_their_positions() {
    let mut g = Grid::new(3, 3);
    g.set(0, 0, Some(symbol(0, 0, SymbolType::Red)));
    g.set(2, 1, Some(symbol(2, 1, SymbolType::Blue)));
    assert!(g.swap_cells(GridPos::new(0, 0), GridPos::new(2, 1)));
    let a = g.get(0, 0).unwrap();
    let b = g.get(2, 1).unwrap();
    assert_eq!(a.current_type(), SymbolType::Blue);
    assert_eq!(a.grid_pos, GridPos::new(0, 0));
    assert_eq!(b.current_type(), SymbolType::Red);
    assert_eq!(b.grid_pos, GridPos::new(2, 1));
    assert_eq!(g.cells.iter().filter(|c| c.is_some()).count(), 2);
}

#[test]
fn swap_cells_with_a_gap_leaves_the_grid_as_it_is() {
    let mut g = Grid::new(3, 3);
    g.set(0, 0, Some(symbol(0, 0, SymbolType::Red)));
    assert!(!g.swap_cells(GridPos::new(0, 0), GridPos::new(1, 0)));
    assert!(!g.swap_cells(GridPos::new(1, 0), GridPos::new(0, 0)));
    assert!(!g.swap_cells(GridPos::new(1, 0), GridPos::new(2, 0)));
    assert_eq!(g.get(0, 0).unwrap().current_type(), SymbolType::Red);
    assert_eq!(g.get(0, 0).unwrap().grid_pos, GridPos::new(0, 0));
    assert_eq!(g.cells.iter().filter(|c| c.is_some()).count(), 1);
}

#[test]
fn swap_cells_of_a_cell_with_itself_keeps_its_symbol() {
    let mut g = Grid::new(3, 3);
    let mut s = symbol(1, 1, SymbolType::Red);
    s.rotate();
    s.grid_pos = GridPos::new(7, 7);
    g.set(1, 1, Some(s));
    assert!(g.swap_cells(GridPos::new(1, 1), GridPos::new(1, 1)));
    let kept = g.get(1, 1).unwrap();
    assert_eq!(kept.current_type(), SymbolType::Blue);
    assert_eq!(kept.rotation_state, 1);
    assert_eq!(kept.grid_pos, GridPos::new(1, 1));
    assert_eq!(g.cells.iter().filter(|c| c.is_some()).count(), 1);
    assert!(!g.swap_cells(GridPos::new(0, 0), GridPos::new(0, 0)));
    assert_eq!(g.cells.iter().filter(|c| c.is_some()).count(), 1);
}

#[test]
fn swap_cells_outside_the_grid_leaves_the_grid_as_it_is() {
    let mut g = Grid::new(3, 3);
    g.set(1, 1, Some(symbol(1, 1, SymbolType::Red)));
    g.set(0, 0, Some(symbol(0, 0, SymbolType::Blue)));
    assert!(!g.swap_cells(GridPos::new(-1, 1), GridPos::new(1, 1)));
    assert!(!g.swap_cells(GridPos::new(1, 1), GridPos::new(1, 3)));
    assert!(!g.swap_cells(GridPos::new(3, 0), GridPos::new(0, -1)));
    assert_eq!(g.get(1, 1).unwrap().current_type(), SymbolType::Red);
    assert_eq!(g.get(0, 0).unwrap().current_type(), SymbolType::Blue);
    assert_eq!(g.cells.iter().filter(|c| c.is_some()).count(), 2);
}

#[test]
fn get_at_treats_negative_coordinates_as_outside() {
    let mut g = Grid::new(2, 2);
    g.set(1, 0, Some(symbol(1, 0, SymbolType::Green)));
    assert_eq!(g.get_at(GridPos::new(1, 0)).unwrap().current_type(), SymbolType::Green);
    assert!(g.get_at(GridPos::new(0, 0)).is_none());
    assert!(g.get_at(GridPos::new(-1, 0)).is_none());
    assert!(g.get_at(GridPos::new(1, -1)).is_none());
    assert!(g.get_at(GridPos::new(2, 0)).is_none());
}

#[test]
fn symbol_type_defaults_to_red() {
    assert_eq!(SymbolType::default(), Red);
}

#[test]
fn accepts_draw_redraws_what_ends_a_run_up_to_ten_times() {
    let mut g = Grid::new(4, 4);
    g.set(0, 0, Some(symbol(0, 0, Red)));
    g.set(1, 0, Some(symbol(1, 0, Red)));
    for attempts in 0..10 {
        assert!(!g.accepts_draw(2, 0, Red, attempts));
        assert!(g.accepts_draw(2, 0, Blue, attempts));
        assert!(g.accepts_draw(3, 0, Red, attempts));
    }
    assert!(g.accepts_draw(2, 0, Red, 10));
    assert!(g.accepts_draw(2, 0, Red, 11));
    assert!(g.accepts_draw(2, 0, Red, u32::MAX));
    assert!(g.accepts_draw(2, 0, Blue, 10));
}

#[test]
fn symbol_is_well_formed_with_a_rotation_state_below_four() {
    let mut s = symbol(0, 0, Green);
    for state in 0..4 {
        s.rotation_state = state;
        assert!(s.is_well_formed());
    }
    for state in [4, 5, 200, 255] {
        s.rotation_state = state;
        assert!(!s.is_well_formed());
    }
}

#[test]
fn grid_is_well_formed_when_made_and_changed_by_its_functions() {
    let mut g = Grid::new(5, 3);
    assert!(g.is_well_formed());
    g.fill_random();
    g.rotate_all();
    g.take(1, 1);
    g.swap_cells(GridPos::new(0, 0), GridPos::new(4, 2));
    assert!(g.is_well_formed());
    assert!(Grid::new(0, 0).is_well_formed());
    assert!(Grid::new(0, 7).is_well_formed());
}

#[test]
fn grid_is_not_well_formed_with_cells_amiss() {
    let mut g = Grid::new(2, 2);
    g.cells.pop();
    assert!(!g.is_well_formed());
    let mut g = Grid::new(2, 2);
    g.width = 3;
    assert!(!g.is_well_formed());
    let mut g = Grid::new(2, 2);
    g.cells.push(None);
    assert!(!g.is_well_formed());
    let mut g = Grid::new(2, 2);
    let mut s = symbol(1, 1, Red);
    s.rotation_state = 4;
    g.cells[3] = Some(s);
    assert!(!g.is_well_formed());
    let g = Grid { width: usize::MAX, height: 0, cells: Vec::new() };
    assert!(!g.is_well_formed());
    let g = Grid { width: 0, height: usize::MAX, cells: Vec::new() };
    assert!(!g.is_well_formed());
}
