use tic_tac_toe::board::Board;
use tic_tac_toe::cell::Cell;
use tic_tac_toe::error::GameError;

fn board_from(size: usize, marks: &[(usize, Cell)]) -> Board {
    let mut board = Board::new(size).unwrap();
    for &(position, mark) in marks {
        assert!(board.is_valid_move(position));
        board.apply_move(position, mark);
    }
    board
}

fn board_from_text(size: usize, text: &str) -> Board {
    let mut board = Board::new(size).unwrap();
    let marks: Vec<char> = text.chars().filter(|c| !c.is_whitespace()).collect();
    assert_eq!(marks.len(), size * size);
    for (position, c) in marks.iter().enumerate() {
        match c {
            'X' => board.apply_move(position, Cell::X),
            'O' => board.apply_move(position, Cell::O),
            _ => {}
        }
    }
    board
}

#[test]
fn new_board_is_empty_and_not_full() {
    for size in 3..9usize {
        let board = Board::new(size).unwrap();
        assert_eq!(board.size(), size);
        assert_eq!(board.cell_count(), size * size);
        assert_eq!(board.cells().len(), size * size);
        assert!(board.cells().iter().all(|&c| c == Cell::Empty));
        assert!(!board.is_full());
    }
}

#[test]
fn new_board_refuses_a_side_under_three() {
    for size in 0..3usize {
        match Board::new(size) {
            Err(e) => assert_eq!(e, GameError::InvalidSize),
            Ok(_) => panic!("a board of side {} was made", size),
        }
    }
    assert!(Board::new(3).is_ok());
}

#[test]
fn valid_moves_are_the_empty_squares_on_the_board() {
    let board = board_from(4, &[(0, Cell::X), (5, Cell::O), (15, Cell::X)]);
    for position in 0..16usize {
        assert_eq!(board.is_valid_move(position), ![0, 5, 15].contains(&position));
    }
    assert!(!board.is_valid_move(16));
    assert!(!board.is_valid_move(17));
    assert!(!board.is_valid_move(usize::MAX));
}

#[test]
fn apply_move_changes_one_square() {
    let mut board = Board::new(4).unwrap();
    board.apply_move(6, Cell::O);
    for position in 0..16usize {
        let expected = if position == 6 { Cell::O } else { Cell::Empty };
        assert_eq!(board.cell(position), expected);
    }
    let before = board.cells().clone();
    board.apply_move(9, Cell::X);
    for position in 0..16usize {
        if position == 9 {
            assert_eq!(board.cell(position), Cell::X);
        } else {
            assert_eq!(board.cell(position), before[position]);
        }
    }
}

#[test]
fn no_winner_on_an_empty_board() {
    for size in 3..7usize {
        let board = Board::new(size).unwrap();
        assert_eq!(board.winning_pattern(Cell::X), None);
        assert_eq!(board.winning_pattern(Cell::O), None);
    }
}

#[test]
fn no_winner_without_a_full_line() {
    let board = board_from_text(
        4,
        "X X X .
         O O . O
         X . X X
         . O O O",
    );
    assert_eq!(board.winning_pattern(Cell::X), None);
    assert_eq!(board.winning_pattern(Cell::O), None);
    let mixed = board_from_text(
        4,
        "X X O X
         . . . .
         . . . .
         . . . .",
    );
    assert_eq!(mixed.winning_pattern(Cell::X), None);
    assert_eq!(mixed.winning_pattern(Cell::O), None);
}

#[test]
fn first_row_wins_on_a_four_board() {
    let mut board = Board::new(4).unwrap();
    for step in 0..4usize {
        board.apply_move(step, Cell::X);
        if step < 3 {
            assert_eq!(board.winning_pattern(Cell::X), None);
        }
        board.apply_move(4 + step, Cell::O);
    }
    assert_eq!(board.winning_pattern(Cell::X), Some(vec![0, 1, 2, 3]));
}

#[test]
fn first_row_wins_before_the_opponent_answers() {
    let board = board_from(
        4,
        &[
            (0, Cell::X),
            (4, Cell::O),
            (1, Cell::X),
            (5, Cell::O),
            (2, Cell::X),
            (6, Cell::O),
            (3, Cell::X),
        ],
    );
    assert_eq!(board.winning_pattern(Cell::X), Some(vec![0, 1, 2, 3]));
    assert_eq!(board.winning_pattern(Cell::O), None);
}

#[test]
fn full_three_board_without_a_line_has_no_winner() {
    let board = board_from_text(
        3,
        "X O X
         X O O
         O X X",
    );
    assert!(board.is_full());
    assert_eq!(board.winning_pattern(Cell::X), None);
    assert_eq!(board.winning_pattern(Cell::O), None);
}

#[test]
fn every_line_of_a_four_board_wins() {
    let lines: Vec<Vec<usize>> = vec![
        vec![0, 1, 2, 3],
        vec![4, 5, 6, 7],
        vec![8, 9, 10, 11],
        vec![12, 13, 14, 15],
        vec![0, 4, 8, 12],
        vec![1, 5, 9, 13],
        vec![2, 6, 10, 14],
        vec![3, 7, 11, 15],
        vec![0, 5, 10, 15],
        vec![3, 6, 9, 12],
    ];
    for line in lines {
        let marks: Vec<(usize, Cell)> = line.iter().map(|&p| (p, Cell::O)).collect();
        let board = board_from(4, &marks);
        assert_eq!(board.winning_pattern(Cell::O), Some(line.clone()));
        assert_eq!(board.winning_pattern(Cell::X), None);
    }
}

#[test]
fn diagonals_of_a_five_board_win() {
    let down = board_from(
        5,
        &[(0, Cell::X), (6, Cell::X), (12, Cell::X), (18, Cell::X), (24, Cell::X)],
    );
    assert_eq!(down.winning_pattern(Cell::X), Some(vec![0, 6, 12, 18, 24]));
    let up = board_from(
        5,
        &[(4, Cell::O), (8, Cell::O), (12, Cell::O), (16, Cell::O), (20, Cell::O)],
    );
    assert_eq!(up.winning_pattern(Cell::O), Some(vec![4, 8, 12, 16, 20]));
}

#[test]
fn rows_are_found_before_columns_and_columns_before_diagonals() {
    let row_and_column = board_from_text(
        3,
        "X X X
         X O O
         X O .",
    );
    assert_eq!(row_and_column.winning_pattern(Cell::X), Some(vec![0, 1, 2]));
    let two_rows = board_from_text(
        3,
        "O . .
         X X X
         X X X",
    );
    assert_eq!(two_rows.winning_pattern(Cell::X), Some(vec![3, 4, 5]));
    let column_and_diagonal = board_from_text(
        3,
        "X O X
         O X X
         . O X",
    );
    assert_eq!(column_and_diagonal.winning_pattern(Cell::X), Some(vec![2, 5, 8]));
    let both_diagonals = board_from_text(
        3,
        "X O X
         O X O
         X . X",
    );
    assert_eq!(both_diagonals.winning_pattern(Cell::X), Some(vec![0, 4, 8]));
}

#[test]
fn a_line_of_empty_squares_is_a_line_of_the_empty_mark() {
    let board = board_from(3, &[(0, Cell::X)]);
    assert_eq!(board.winning_pattern(Cell::Empty), Some(vec![3, 4, 5]));
}

#[test]
fn owns_line_tells_full_lines_from_others() {
    let board = board_from_text(
        3,
        "X X X
         . O .
         O . .",
    );
    assert!(board.owns_line(Cell::X, 0));
    assert!(!board.owns_line(Cell::O, 0));
    for k in 1..8usize {
        assert!(!board.owns_line(Cell::X, k));
    }
}

#[test]
fn board_is_full_when_the_last_square_is_taken() {
    let mut board = Board::new(3).unwrap();
    for position in 0..9usize {
        assert!(!board.is_full());
        let mark = if position % 2 == 0 { Cell::X } else { Cell::O };
        board.apply_move(position, mark);
    }
    assert!(board.is_full());
    for position in 0..9usize {
        assert!(!board.is_valid_move(position));
    }
}
