use tic_tac_toe::cell::Cell;

#[test]
fn cell_to_string_names_each_mark() {
    assert_eq!(Cell::Empty.to_string(), " ");
    assert_eq!(Cell::X.to_string(), "X");
    assert_eq!(Cell::O.to_string(), "O");
}

#[test]
fn cell_opponent_swaps_the_players() {
    assert_eq!(Cell::X.opponent(), Cell::O);
    assert_eq!(Cell::O.opponent(), Cell::X);
    assert_eq!(Cell::Empty.opponent(), Cell::Empty);
}

#[test]
fn cell_is_player_tells_marks_from_empty() {
    assert!(Cell::X.is_player());
    assert!(Cell::O.is_player());
    assert!(!Cell::Empty.is_player());
}
