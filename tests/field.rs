use minesweeper::{cell_image_index, face_image_index, Cell, CellType, Face, MineSweeper, MAX_SEARCH_DEPTH};

fn at(f: &MineSweeper, x: usize, y: usize) -> Cell {
    f.cell_at(x, y).unwrap()
}

fn count_mines_in(f: &MineSweeper) -> usize {
    let mut n = 0;
    for y in 0..f.height() {
        for x in 0..f.width() {
            if at(f, x, y).cell_type == CellType::Mine {
                n += 1;
            }
        }
    }
    n
}

fn visible_count(f: &MineSweeper) -> usize {
    let mut n = 0;
    for y in 0..f.height() {
        for x in 0..f.width() {
            if at(f, x, y).visible {
                n += 1;
            }
        }
    }
    n
}

#[test]
fn single_cell_without_mines_is_empty() {
    let mut f = MineSweeper::new(1, 1, 0);
    assert_eq!(at(&f, 0, 0).cell_type, CellType::Empty);
    assert!(!f.reveal_cell(0, 0, 0));
    assert!(at(&f, 0, 0).visible);
    assert!(!at(&f, 0, 0).incorrect);
}

#[test]
fn centre_mine_makes_every_other_cell_safe_one() {
    let mut f = MineSweeper::with_mines(3, 3, &vec![(1, 1)]);
    for y in 0..3 {
        for x in 0..3 {
            let c = at(&f, x, y);
            if x == 1 && y == 1 {
                assert_eq!(c.cell_type, CellType::Mine);
            } else {
                assert_eq!(c.cell_type, CellType::Safe(1));
            }
        }
    }
    assert!(!f.reveal_cell(0, 0, 0));
    assert!(at(&f, 0, 0).visible);
    assert_eq!(visible_count(&f), 1);
}

#[test]
fn flagging_the_only_mine_wins_and_unflagging_undoes_it() {
    let mut f = MineSweeper::with_mines(2, 2, &vec![(1, 0)]);
    assert!(!f.is_win(1));
    f.flag(1, 0);
    assert!(f.is_win(1));
    f.flag(1, 0);
    assert!(!f.is_win(1));
    assert!(!at(&f, 1, 0).flag);
}

#[test]
fn neighbour_counts_match_mines_around() {
    let f = MineSweeper::with_mines(4, 3, &vec![(0, 0), (2, 0), (3, 2)]);
    assert_eq!(at(&f, 1, 0).cell_type, CellType::Safe(2));
    assert_eq!(at(&f, 0, 1).cell_type, CellType::Safe(1));
    assert_eq!(at(&f, 1, 1).cell_type, CellType::Safe(2));
    assert_eq!(at(&f, 2, 1).cell_type, CellType::Safe(2));
    assert_eq!(at(&f, 3, 1).cell_type, CellType::Safe(2));
    assert_eq!(at(&f, 0, 2).cell_type, CellType::Empty);
    assert_eq!(at(&f, 2, 2).cell_type, CellType::Safe(1));
    assert_eq!(count_mines_in(&f), 3);
}

#[test]
fn count_mines_counts_the_clipped_block() {
    let f = MineSweeper::with_mines(3, 3, &vec![(0, 0), (1, 0), (2, 2)]);
    let mut grid = Vec::new();
    for y in 0..3 {
        let mut row = Vec::new();
        for x in 0..3 {
            row.push(at(&f, x, y));
        }
        grid.push(row);
    }
    assert_eq!(MineSweeper::count_mines(&grid, 1, 1), 3);
    assert_eq!(MineSweeper::count_mines(&grid, 0, 2), 0);
    assert_eq!(MineSweeper::count_mines(&grid, 2, 0), 1);
}

#[test]
fn duplicate_positions_hold_one_mine() {
    let f = MineSweeper::with_mines(3, 3, &vec![(2, 2), (2, 2)]);
    assert_eq!(count_mines_in(&f), 1);
    assert_eq!(at(&f, 1, 1).cell_type, CellType::Safe(1));
}

#[test]
fn revealing_a_mine_reports_it() {
    let mut f = MineSweeper::with_mines(2, 2, &vec![(0, 1)]);
    assert!(f.reveal_cell(0, 1, 0));
    let c = at(&f, 0, 1);
    assert!(c.visible && c.incorrect);
    assert_eq!(visible_count(&f), 1);
}

#[test]
fn revealing_visible_flagged_or_outside_cells_changes_nothing() {
    let mut f = MineSweeper::with_mines(3, 3, &vec![(1, 1)]);
    assert!(!f.reveal_cell(5, 0, 0));
    assert!(!f.reveal_cell(0, 7, 0));
    assert_eq!(visible_count(&f), 0);
    f.flag(1, 1);
    assert!(!f.reveal_cell(1, 1, 0));
    assert!(!at(&f, 1, 1).visible);
    assert!(!f.reveal_cell(0, 0, 0));
    assert!(!f.reveal_cell(0, 0, 0));
    assert_eq!(visible_count(&f), 1);
}

#[test]
fn flag_toggles_only_hidden_cells() {
    let mut f = MineSweeper::with_mines(3, 3, &vec![(2, 2)]);
    f.flag(0, 0);
    assert!(at(&f, 0, 0).flag);
    assert!(!f.is_win(1));
    f.reveal_cell(2, 0, 0);
    f.flag(2, 0);
    assert!(!at(&f, 2, 0).flag);
    f.flag(9, 9);
    f.flag(2, 2);
    assert!(f.is_win(1));
    assert!(!f.is_win(0));
}

#[test]
fn is_win_compares_with_the_flagged_mines() {
    let mut f = MineSweeper::with_mines(3, 3, &vec![(0, 0), (2, 2)]);
    assert!(f.is_win(0));
    f.flag(0, 0);
    assert!(f.is_win(1));
    assert!(!f.is_win(2));
    f.flag(1, 1);
    assert!(!f.is_win(2));
    f.flag(2, 2);
    assert!(f.is_win(2));
    assert_eq!(f.correct_flags(), 2);
    f.flag(0, 0);
    assert_eq!(f.correct_flags(), 1);
}

#[test]
fn cascade_reveals_the_empty_region_and_its_border() {
    let mut f = MineSweeper::with_mines(3, 3, &vec![(2, 2)]);
    assert!(!f.reveal_cell(0, 0, 0));
    for y in 0..3 {
        for x in 0..3 {
            assert_eq!(at(&f, x, y).visible, !(x == 2 && y == 2));
        }
    }
}

#[test]
fn cascade_on_a_wide_region_is_bounded_by_depth() {
    let mut f = MineSweeper::with_mines(5, 5, &vec![(4, 4)]);
    assert!(!f.reveal_cell(0, 0, 0));
    let hidden = [(0, 4), (1, 4), (2, 3), (2, 4), (3, 3), (3, 4), (4, 3), (4, 4)];
    for y in 0..5 {
        for x in 0..5 {
            assert_eq!(at(&f, x, y).visible, !hidden.contains(&(x, y)));
        }
    }
    assert!(!at(&f, 4, 4).visible);
}

#[test]
fn cascade_stops_at_numbered_cells() {
    let mut f = MineSweeper::with_mines(5, 1, &vec![(3, 0)]);
    assert!(!f.reveal_cell(0, 0, 0));
    assert!(at(&f, 0, 0).visible);
    assert!(at(&f, 1, 0).visible);
    assert!(at(&f, 2, 0).visible);
    assert!(!at(&f, 3, 0).visible);
    assert!(!at(&f, 4, 0).visible);
}

#[test]
fn cascade_does_not_pass_a_flag() {
    let mut f = MineSweeper::with_mines(5, 1, &vec![]);
    f.flag(2, 0);
    assert!(!f.reveal_cell(0, 0, 0));
    assert!(at(&f, 1, 0).visible);
    assert!(!at(&f, 2, 0).visible);
    assert!(!at(&f, 3, 0).visible);
}

#[test]
fn cascade_is_cut_at_the_depth_limit() {
    let mut f = MineSweeper::with_mines(12, 1, &vec![]);
    assert!(!f.reveal_cell(0, 0, 0));
    assert!(at(&f, MAX_SEARCH_DEPTH + 1, 0).visible);
    assert!(!at(&f, MAX_SEARCH_DEPTH + 2, 0).visible);
    let mut g = MineSweeper::with_mines(3, 1, &vec![]);
    assert!(!g.reveal_cell(0, 0, MAX_SEARCH_DEPTH + 1));
    assert!(at(&g, 0, 0).visible);
    assert!(!at(&g, 1, 0).visible);
}

#[test]
fn reveal_all_shows_everything_and_marks_wrong_flags() {
    let mut f = MineSweeper::with_mines(3, 3, &vec![(0, 0)]);
    f.flag(0, 0);
    f.flag(2, 2);
    f.reveal_all();
    for y in 0..3 {
        for x in 0..3 {
            assert!(at(&f, x, y).visible);
        }
    }
    assert!(!at(&f, 0, 0).incorrect);
    assert!(at(&f, 2, 2).incorrect);
    assert!(!at(&f, 1, 1).incorrect);
}

#[test]
fn random_field_has_the_given_size_and_hidden_cells() {
    let f = MineSweeper::new(10, 8, 10);
    assert_eq!(f.width(), 10);
    assert_eq!(f.height(), 8);
    let mines = count_mines_in(&f);
    assert!(mines >= 1 && mines <= 10);
    for y in 0..8 {
        for x in 0..10 {
            let c = at(&f, x, y);
            assert!(!c.visible && !c.flag && !c.incorrect);
        }
    }
    assert!(f.cell_at(10, 0).is_none());
    assert!(f.cell_at(0, 8).is_none());
}

#[test]
fn random_field_without_mines_has_none() {
    let f = MineSweeper::new(4, 4, 0);
    assert_eq!(count_mines_in(&f), 0);
}

#[test]
fn fresh_cell_is_hidden_and_empty() {
    let c = Cell::new();
    assert_eq!(c.cell_type, CellType::Empty);
    assert!(!c.visible && !c.flag && !c.incorrect);
}

#[test]
fn sprite_of_each_cell_state() {
    let hidden = Cell::new();
    assert_eq!(cell_image_index(&hidden), 9);
    let mut c = Cell::new();
    c.visible = true;
    assert_eq!(cell_image_index(&c), 0);
    c.cell_type = CellType::Safe(3);
    assert_eq!(cell_image_index(&c), 3);
    c.cell_type = CellType::Mine;
    assert_eq!(cell_image_index(&c), 12);
    c.incorrect = true;
    assert_eq!(cell_image_index(&c), 13);
    let mut flagged = Cell::new();
    flagged.flag = true;
    assert_eq!(cell_image_index(&flagged), 10);
    flagged.incorrect = true;
    flagged.visible = true;
    assert_eq!(cell_image_index(&flagged), 11);
}

#[test]
fn sprite_of_each_face() {
    assert_eq!(face_image_index(&Face::Smile), 0);
    assert_eq!(face_image_index(&Face::Pressed), 1);
    assert_eq!(face_image_index(&Face::Won), 3);
    assert_eq!(face_image_index(&Face::Lost), 4);
}

#[test]
fn count_mines_on_uneven_fields_and_outside_positions() {
    let mut mine = Cell::new();
    mine.cell_type = CellType::Mine;
    let safe = Cell::new();
    let grid = vec![vec![mine, safe, mine], vec![mine], vec![]];
    assert_eq!(MineSweeper::count_mines(&grid, 1, 1), 3);
    assert_eq!(MineSweeper::count_mines(&grid, 1, 0), 3);
    assert_eq!(MineSweeper::count_mines(&grid, 3, 0), 1);
    assert_eq!(MineSweeper::count_mines(&grid, 0, 3), 0);
    assert_eq!(MineSweeper::count_mines(&grid, usize::MAX, usize::MAX), 0);
    assert_eq!(MineSweeper::count_mines(&Vec::new(), 0, 0), 0);
}

#[test]
fn revealing_a_numbered_cell_shows_only_it() {
    let mut f = MineSweeper::with_mines(4, 4, &vec![(3, 3)]);
    assert!(!f.reveal_cell(2, 2, 0));
    assert_eq!(visible_count(&f), 1);
    assert!(at(&f, 2, 2).visible);
}
