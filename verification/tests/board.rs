use connect_four::{Area, Error, State, AREA_COLS, AREA_ROWS, VICTORY_NUMBER};

fn drop_all(area: &mut Area, moves: &[(State, usize)]) {
    for (token, column) in moves {
        assert_eq!(area.set_token(*token, *column), Ok(false));
    }
}

#[test]
fn dimensions_are_seven_by_six_and_four_win() {
    assert_eq!(AREA_COLS, 7);
    assert_eq!(AREA_ROWS, 6);
    assert_eq!(VICTORY_NUMBER, 4);
}

#[test]
fn default_state_is_no_token() {
    assert_eq!(State::default(), State::NoToken);
}

#[test]
fn new_area_is_empty() {
    let area = Area::new();
    assert!(area.is_empty());
    assert_eq!(area.get_available_columns(), vec![0, 1, 2, 3, 4, 5, 6]);
    for column in 0..AREA_COLS {
        assert_eq!(area.is_filled_column(column), Ok(false));
        for row in 0..AREA_ROWS {
            assert_eq!(area.get(column, row), State::NoToken);
        }
    }
}

#[test]
fn default_area_is_empty() {
    let area = Area::default();
    assert!(area.is_empty());
}

#[test]
fn token_lands_on_lowest_free_row() {
    let mut area = Area::new();
    assert_eq!(area.set_token(State::YellowToken, 3), Ok(false));
    assert_eq!(area.get(3, 0), State::YellowToken);
    assert_eq!(area.get(3, 1), State::NoToken);
    assert_eq!(area.set_token(State::RedToken, 3), Ok(false));
    assert_eq!(area.get(3, 0), State::YellowToken);
    assert_eq!(area.get(3, 1), State::RedToken);
    assert_eq!(area.get(3, 2), State::NoToken);
    assert_eq!(area.get(2, 0), State::NoToken);
}

#[test]
fn placement_changes_exactly_one_cell() {
    let mut area = Area::new();
    drop_all(&mut area, &[(State::YellowToken, 1), (State::RedToken, 5), (State::YellowToken, 1)]);
    let before = area.clone();
    assert_eq!(area.set_token(State::RedToken, 5), Ok(false));
    let mut changed = 0;
    for column in 0..AREA_COLS {
        for row in 0..AREA_ROWS {
            if area.get(column, row) != before.get(column, row) {
                changed += 1;
                assert_eq!((column, row), (5, 1));
            }
        }
    }
    assert_eq!(changed, 1);
}

#[test]
fn columns_stay_contiguous_from_the_bottom() {
    let mut area = Area::new();
    let columns = [3, 3, 0, 6, 3, 2, 2, 5, 0, 0, 1, 4, 6, 6, 3, 1];
    for (turn, column) in columns.iter().enumerate() {
        let token = if turn % 2 == 0 { State::YellowToken } else { State::RedToken };
        assert!(area.set_token(token, *column).is_ok());
        for c in 0..AREA_COLS {
            let mut seen_free = false;
            for r in 0..AREA_ROWS {
                if area.get(c, r) == State::NoToken {
                    seen_free = true;
                } else {
                    assert!(!seen_free);
                }
            }
        }
    }
}

#[test]
fn is_empty_is_false_after_first_placement() {
    for column in 0..AREA_COLS {
        let mut area = Area::new();
        assert!(area.is_empty());
        assert_eq!(area.set_token(State::RedToken, column), Ok(false));
        assert!(!area.is_empty());
    }
}

#[test]
fn refused_placement_leaves_area_empty() {
    let mut area = Area::new();
    assert_eq!(area.set_token(State::NoToken, 0), Err(Error::NotAToken));
    assert_eq!(area.set_token(State::RedToken, AREA_COLS), Err(Error::InvalidColumn));
    assert!(area.is_empty());
}

#[test]
fn empty_marker_is_refused() {
    let mut area = Area::new();
    assert_eq!(area.set_token(State::NoToken, 0), Err(Error::NotAToken));
    assert_eq!(area.set_token(State::NoToken, 99), Err(Error::NotAToken));
    for _ in 0..AREA_ROWS {
        assert!(area.set_token(State::RedToken, 2).is_ok());
    }
    assert_eq!(area.set_token(State::NoToken, 2), Err(Error::NotAToken));
}

#[test]
fn column_out_of_range_is_refused() {
    let mut area = Area::new();
    assert_eq!(area.set_token(State::YellowToken, 7), Err(Error::InvalidColumn));
    assert_eq!(area.set_token(State::RedToken, usize::MAX), Err(Error::InvalidColumn));
    assert_eq!(area.is_filled_column(7), Err(Error::InvalidColumn));
    assert_eq!(area.is_filled_column(usize::MAX), Err(Error::InvalidColumn));
    assert_eq!(area.is_filled_column(6), Ok(false));
}

#[test]
fn full_column_is_refused() {
    let mut area = Area::new();
    let tokens = [
        State::YellowToken,
        State::RedToken,
        State::YellowToken,
        State::RedToken,
        State::YellowToken,
        State::RedToken,
    ];
    for (placed, token) in tokens.iter().enumerate() {
        assert_eq!(area.is_filled_column(4), Ok(false));
        assert_eq!(area.set_token(*token, 4), Ok(false));
        assert_eq!(area.get(4, placed), *token);
    }
    assert_eq!(area.is_filled_column(4), Ok(true));
    let before = area.clone();
    assert_eq!(area.set_token(State::YellowToken, 4), Err(Error::FilledColumn));
    assert_eq!(area.set_token(State::RedToken, 4), Err(Error::FilledColumn));
    assert_eq!(area.to_text(), before.to_text());
    assert_eq!(area.get_available_columns(), vec![0, 1, 2, 3, 5, 6]);
}

#[test]
fn available_columns_are_ascending_and_skip_full_ones() {
    let mut area = Area::new();
    for column in [0, 3, 6] {
        for turn in 0..AREA_ROWS {
            let token = if turn % 2 == 0 { State::YellowToken } else { State::RedToken };
            assert_eq!(area.set_token(token, column), Ok(false));
        }
    }
    assert_eq!(area.get_available_columns(), vec![1, 2, 4, 5]);
}

#[test]
fn horizontal_win_on_bottom_row() {
    let mut area = Area::new();
    assert_eq!(area.set_token(State::YellowToken, 0), Ok(false));
    assert_eq!(area.set_token(State::RedToken, 0), Ok(false));
    assert_eq!(area.set_token(State::YellowToken, 1), Ok(false));
    assert_eq!(area.set_token(State::RedToken, 1), Ok(false));
    assert_eq!(area.set_token(State::YellowToken, 2), Ok(false));
    assert_eq!(area.set_token(State::RedToken, 2), Ok(false));
    assert_eq!(area.set_token(State::YellowToken, 3), Ok(true));
}

#[test]
fn horizontal_win_completed_in_the_middle() {
    let mut area = Area::new();
    drop_all(
        &mut area,
        &[
            (State::RedToken, 2),
            (State::YellowToken, 2),
            (State::RedToken, 3),
            (State::YellowToken, 3),
            (State::RedToken, 5),
            (State::YellowToken, 5),
        ],
    );
    assert_eq!(area.set_token(State::RedToken, 4), Ok(true));
}

#[test]
fn vertical_win_on_fourth_token() {
    let mut area = Area::new();
    assert_eq!(area.set_token(State::YellowToken, 0), Ok(false));
    assert_eq!(area.set_token(State::YellowToken, 0), Ok(false));
    assert_eq!(area.set_token(State::YellowToken, 0), Ok(false));
    assert_eq!(area.set_token(State::YellowToken, 0), Ok(true));
}

#[test]
fn vertical_run_broken_by_other_colour() {
    let mut area = Area::new();
    assert_eq!(area.set_token(State::YellowToken, 0), Ok(false));
    assert_eq!(area.set_token(State::YellowToken, 0), Ok(false));
    assert_eq!(area.set_token(State::YellowToken, 0), Ok(false));
    assert_eq!(area.set_token(State::RedToken, 0), Ok(false));
    assert_eq!(area.set_token(State::YellowToken, 0), Ok(false));
    assert_eq!(area.set_token(State::YellowToken, 0), Ok(false));
}

#[test]
fn rising_diagonal_win() {
    let mut area = Area::new();
    drop_all(
        &mut area,
        &[
            (State::YellowToken, 0),
            (State::RedToken, 1),
            (State::YellowToken, 1),
            (State::RedToken, 2),
            (State::RedToken, 2),
            (State::YellowToken, 2),
            (State::RedToken, 3),
            (State::YellowToken, 3),
            (State::RedToken, 3),
        ],
    );
    assert_eq!(area.set_token(State::YellowToken, 3), Ok(true));
    assert_eq!(area.get(0, 0), State::YellowToken);
    assert_eq!(area.get(1, 1), State::YellowToken);
    assert_eq!(area.get(2, 2), State::YellowToken);
    assert_eq!(area.get(3, 3), State::YellowToken);
}

#[test]
fn falling_diagonal_win() {
    let mut area = Area::new();
    drop_all(
        &mut area,
        &[
            (State::RedToken, 6),
            (State::YellowToken, 5),
            (State::RedToken, 5),
            (State::YellowToken, 4),
            (State::YellowToken, 4),
            (State::RedToken, 4),
            (State::YellowToken, 3),
            (State::RedToken, 3),
            (State::YellowToken, 3),
        ],
    );
    assert_eq!(area.set_token(State::RedToken, 3), Ok(true));
}

#[test]
fn falling_diagonal_win_in_top_left_corner() {
    let mut area = Area::new();
    drop_all(
        &mut area,
        &[
            (State::RedToken, 0),
            (State::YellowToken, 0),
            (State::RedToken, 0),
            (State::YellowToken, 0),
            (State::RedToken, 0),
            (State::RedToken, 0),
            (State::YellowToken, 1),
            (State::RedToken, 1),
            (State::YellowToken, 1),
            (State::YellowToken, 1),
            (State::RedToken, 1),
            (State::RedToken, 2),
            (State::RedToken, 2),
            (State::YellowToken, 2),
            (State::RedToken, 2),
            (State::YellowToken, 3),
            (State::RedToken, 3),
        ],
    );
    assert_eq!(area.set_token(State::RedToken, 3), Ok(true));
    assert_eq!(area.get(0, 5), State::RedToken);
    assert_eq!(area.get(1, 4), State::RedToken);
    assert_eq!(area.get(2, 3), State::RedToken);
    assert_eq!(area.get(3, 2), State::RedToken);
}

#[test]
fn three_in_a_row_with_a_gap_do_not_win() {
    let mut area = Area::new();
    drop_all(
        &mut area,
        &[
            (State::YellowToken, 0),
            (State::YellowToken, 1),
            (State::YellowToken, 3),
            (State::YellowToken, 4),
            (State::RedToken, 2),
        ],
    );
    assert_eq!(area.get(2, 0), State::RedToken);
}

#[test]
fn run_elsewhere_on_the_row_is_reported() {
    let mut area = Area::new();
    drop_all(
        &mut area,
        &[(State::YellowToken, 0), (State::YellowToken, 1), (State::YellowToken, 2)],
    );
    assert_eq!(area.set_token(State::YellowToken, 3), Ok(true));
    assert_eq!(area.set_token(State::YellowToken, 6), Ok(true));
    assert_eq!(area.set_token(State::RedToken, 5), Ok(false));
}

#[test]
fn clone_is_independent() {
    let mut area = Area::new();
    assert_eq!(area.set_token(State::RedToken, 0), Ok(false));
    let mut copy = area.clone();
    assert_eq!(copy.get(0, 0), State::RedToken);
    assert_eq!(copy.set_token(State::YellowToken, 0), Ok(false));
    assert_eq!(area.get(0, 1), State::NoToken);
    assert_eq!(copy.get(0, 1), State::YellowToken);
}
