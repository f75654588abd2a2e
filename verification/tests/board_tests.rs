use mine_sweeper::mine_sweeper::GameBoard;
use mine_sweeper::panel::{OpenResult, OpenState};

fn fresh() -> GameBoard {
    GameBoard {
        panel_mat: Vec::new(),
        size_x: 0,
        size_y: 0,
        field_size_x: 0,
        field_size_y: 0,
    }
}

fn count_bombs(gb: &GameBoard) -> usize {
    let mut n = 0;
    for row in gb.panel_mat.iter() {
        for p in row.iter() {
            if p.is_bomb() {
                n += 1;
            }
        }
    }
    n
}

fn opened(gb: &GameBoard, y: usize, x: usize) -> bool {
    gb.panel_mat[y][x].get_open_state() == OpenState::Open
}

#[test]
fn bomb_count_is_exact() {
    let mut gb = fresh();
    gb.new(5, 5, 7);
    assert_eq!(count_bombs(&gb), 7);
}

#[test]
fn bomb_count_zero_and_full() {
    let mut gb = fresh();
    gb.new(4, 6, 0);
    assert_eq!(count_bombs(&gb), 0);
    let mut gb2 = fresh();
    gb2.new(2, 2, 3);
    assert_eq!(count_bombs(&gb2), 3);
}

#[test]
fn bombs_stay_inside_the_frame() {
    let mut gb = fresh();
    gb.new(3, 3, 8);
    for row in 0..gb.field_size_y {
        for col in 0..gb.field_size_x {
            if gb.panel_mat[row][col].is_bomb() {
                assert!(1 <= row && row <= gb.size_y);
                assert!(1 <= col && col <= gb.size_x);
            }
        }
    }
}

#[test]
fn board_sizes_are_stored() {
    let mut gb = fresh();
    gb.new(4, 7, 3);
    assert_eq!(gb.size_y, 4);
    assert_eq!(gb.size_x, 7);
    assert_eq!(gb.field_size_y, 6);
    assert_eq!(gb.field_size_x, 9);
    assert!(gb.in_bounds(1, 1));
    assert!(gb.in_bounds(4, 7));
    assert!(!gb.in_bounds(0, 1));
    assert!(!gb.in_bounds(5, 1));
    assert!(!gb.in_bounds(1, 8));
}

#[test]
fn adjacency_around_centre_bomb() {
    let mut gb = fresh();
    gb.new_with_bombs(3, 3, &vec![(2, 2)]);
    for y in 1..=3usize {
        for x in 1..=3usize {
            if y == 2 && x == 2 {
                assert!(gb.panel_mat[y][x].is_bomb());
            } else {
                assert_eq!(gb.panel_mat[y][x].get_bomb_value(), Some(1));
            }
        }
    }
}

#[test]
fn adjacency_at_corner_bomb() {
    let mut gb = fresh();
    gb.new_with_bombs(3, 3, &vec![(1, 1)]);
    assert_eq!(gb.panel_mat[1][2].get_bomb_value(), Some(1));
    assert_eq!(gb.panel_mat[2][1].get_bomb_value(), Some(1));
    assert_eq!(gb.panel_mat[2][2].get_bomb_value(), Some(1));
    assert_eq!(gb.panel_mat[1][3].get_bomb_value(), Some(0));
    assert_eq!(gb.panel_mat[3][1].get_bomb_value(), Some(0));
    assert_eq!(gb.panel_mat[3][3].get_bomb_value(), Some(0));
    assert_eq!(gb.panel_mat[2][3].get_bomb_value(), Some(0));
    assert_eq!(gb.panel_mat[3][2].get_bomb_value(), Some(0));
}

#[test]
fn adjacency_with_two_bombs() {
    let mut gb = fresh();
    gb.new_with_bombs(3, 4, &vec![(1, 1), (1, 3)]);
    assert_eq!(gb.panel_mat[1][2].get_bomb_value(), Some(2));
    assert_eq!(gb.panel_mat[2][2].get_bomb_value(), Some(2));
    assert_eq!(gb.panel_mat[2][1].get_bomb_value(), Some(1));
    assert_eq!(gb.panel_mat[1][4].get_bomb_value(), Some(1));
    assert_eq!(gb.panel_mat[3][1].get_bomb_value(), Some(0));
    assert_eq!(gb.panel_mat[3][4].get_bomb_value(), Some(0));
}

#[test]
fn flag_protects_from_open() {
    let mut gb = fresh();
    gb.new_with_bombs(3, 3, &vec![(2, 2)]);
    gb.flag(1, 1);
    let r = gb.open(1, 1);
    assert_eq!(r, OpenResult::Safe);
    assert!(!opened(&gb, 1, 1));
}

#[test]
fn flag_protects_a_bomb_too() {
    let mut gb = fresh();
    gb.new_with_bombs(3, 3, &vec![(2, 2)]);
    gb.flag(2, 2);
    let r = gb.open(2, 2);
    assert_eq!(r, OpenResult::Safe);
    assert!(!opened(&gb, 2, 2));
}

#[test]
fn flag_toggles_back() {
    let mut gb = fresh();
    gb.new_with_bombs(3, 3, &vec![(2, 2)]);
    gb.flag(1, 2);
    gb.flag(1, 2);
    let r = gb.open(1, 2);
    assert_eq!(r, OpenResult::Safe);
    assert!(opened(&gb, 1, 2));
}

#[test]
fn opening_a_bomb_detonates() {
    let mut gb = fresh();
    gb.new_with_bombs(3, 3, &vec![(2, 2)]);
    let r = gb.open(2, 2);
    assert_eq!(r, OpenResult::Bomb);
    assert!(opened(&gb, 2, 2));
}

#[test]
fn open_bombs_reveals_every_bomb() {
    let mut gb = fresh();
    gb.new_with_bombs(3, 3, &vec![(2, 2)]);
    let r = gb.open(2, 2);
    assert_eq!(r, OpenResult::Bomb);
    gb.open_bombs();
    assert!(opened(&gb, 2, 2));
    let mut gb2 = fresh();
    gb2.new_with_bombs(2, 2, &vec![(1, 1), (2, 2)]);
    gb2.flag(1, 1);
    gb2.open_bombs();
    assert!(opened(&gb2, 1, 1));
    assert!(opened(&gb2, 2, 2));
    assert!(!opened(&gb2, 1, 2));
    assert!(!opened(&gb2, 2, 1));
}

#[test]
fn cascade_stops_at_positive_counts() {
    let mut gb = fresh();
    gb.new_with_bombs(3, 3, &vec![(2, 2)]);
    let r = gb.open(1, 1);
    assert_eq!(r, OpenResult::Safe);
    gb.cascade_open();
    assert!(opened(&gb, 1, 1));
    for y in 1..=3usize {
        for x in 1..=3usize {
            if !(y == 1 && x == 1) {
                assert!(!opened(&gb, y, x));
            }
        }
    }
}

#[test]
fn cascade_opens_an_empty_board() {
    let mut gb = fresh();
    gb.new(5, 5, 0);
    let r = gb.open(1, 1);
    assert_eq!(r, OpenResult::Safe);
    gb.cascade_open();
    for y in 1..=5usize {
        for x in 1..=5usize {
            assert!(opened(&gb, y, x));
        }
    }
}

#[test]
fn cascade_twice_changes_nothing() {
    let mut gb = fresh();
    gb.new_with_bombs(4, 4, &vec![(4, 4)]);
    gb.open(1, 1);
    gb.cascade_open();
    let first = gb.render();
    gb.cascade_open();
    let second = gb.render();
    assert_eq!(first, second);
}

#[test]
fn cascade_crosses_zero_regions() {
    let mut gb = fresh();
    gb.new_with_bombs(3, 3, &vec![(1, 1)]);
    gb.open(3, 3);
    gb.cascade_open();
    assert!(opened(&gb, 3, 3));
    assert!(opened(&gb, 3, 1));
    assert!(opened(&gb, 1, 3));
    assert!(opened(&gb, 2, 2));
    assert!(!opened(&gb, 1, 1));
}

#[test]
fn win_needs_every_safe_panel_open() {
    let mut gb = fresh();
    gb.new_with_bombs(2, 2, &vec![(1, 1)]);
    assert!(!gb.is_finished());
    gb.open(1, 2);
    assert!(!gb.is_finished());
    gb.open(2, 1);
    gb.open(2, 2);
    assert!(gb.is_finished());
}

#[test]
fn win_ignores_flags_and_bomb_state() {
    let mut gb = fresh();
    gb.new_with_bombs(2, 2, &vec![(2, 2)]);
    gb.flag(2, 2);
    gb.open(1, 1);
    gb.open(1, 2);
    gb.open(2, 1);
    assert!(gb.is_finished());
}

#[test]
fn render_shows_frame_covers_and_counts() {
    let mut gb = fresh();
    gb.new_with_bombs(1, 2, &vec![(1, 1)]);
    let before: String = gb.render().into_iter().collect();
    assert_eq!(before, "= = = = \n= # # = \n= = = = \n");
    gb.open(1, 2);
    let after: String = gb.render().into_iter().collect();
    assert_eq!(after, "= = = = \n= # 1 = \n= = = = \n");
    gb.flag(1, 1);
    let flagged: String = gb.render().into_iter().collect();
    assert_eq!(flagged, "= = = = \n= F 1 = \n= = = = \n");
    gb.open_bombs();
    let shown: String = gb.render().into_iter().collect();
    assert_eq!(shown, "= = = = \n= F 1 = \n= = = = \n");
}

#[test]
fn flag_symbol_wins_even_over_a_revealed_bomb() {
    let mut gb = fresh();
    gb.new_with_bombs(1, 2, &vec![(1, 1)]);
    gb.open(1, 1);
    gb.flag(1, 1);
    let shown: String = gb.render().into_iter().collect();
    assert_eq!(shown, "= = = = \n= F # = \n= = = = \n");
}

#[test]
fn render_shows_detonated_bomb_and_blank_space() {
    let mut gb = fresh();
    gb.new_with_bombs(1, 2, &vec![(1, 1)]);
    gb.open(1, 1);
    let lost: String = gb.render().into_iter().collect();
    assert_eq!(lost, "= = = = \n= B # = \n= = = = \n");
    let mut gb2 = fresh();
    gb2.new(1, 1, 0);
    gb2.open(1, 1);
    let blank: String = gb2.render().into_iter().collect();
    assert_eq!(blank, "= = = \n=   = \n= = = \n");
}
