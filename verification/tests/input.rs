use tic_tac_toe::error::GameError;
use tic_tac_toe::game::{GameMode, PlayerInput};
use tic_tac_toe::input::{parse_mode, parse_move, parse_replay};

#[test]
fn parse_move_reads_positions() {
    assert_eq!(parse_move("0"), Ok(PlayerInput::Position(0)));
    assert_eq!(parse_move("5"), Ok(PlayerInput::Position(5)));
    assert_eq!(parse_move("24"), Ok(PlayerInput::Position(24)));
    assert_eq!(parse_move("  7 "), Ok(PlayerInput::Position(7)));
    assert_eq!(parse_move("12\n"), Ok(PlayerInput::Position(12)));
    assert_eq!(parse_move("\t3\r\n"), Ok(PlayerInput::Position(3)));
    assert_eq!(parse_move("0012"), Ok(PlayerInput::Position(12)));
    assert_eq!(parse_move("+3"), Ok(PlayerInput::Position(3)));
    assert_eq!(parse_move("1000000"), Ok(PlayerInput::Position(1_000_000)));
    assert_eq!(parse_move("\u{a0}8\u{3000}"), Ok(PlayerInput::Position(8)));
}

#[test]
fn parse_move_reads_quit_in_any_case() {
    for line in ["quit", "QUIT", "Quit", "qUiT", " quit\n", "\tQuit  "] {
        assert_eq!(parse_move(line), Ok(PlayerInput::Quit));
    }
}

#[test]
fn parse_move_turns_down_anything_else() {
    for line in [
        "", " ", "\n", "abc", "quit now", "qui", "quitt", "q", "-1", "+", "++1", "1+", "1 2",
        "3.5", "0x10", "1e3", "five", "٣", "１", "q\u{fc}it",
    ] {
        assert_eq!(parse_move(line), Err(GameError::MalformedInput), "{:?}", line);
    }
}

#[test]
fn parse_move_agrees_with_the_machine_on_large_numbers() {
    let largest = format!("{}", usize::MAX);
    assert_eq!(parse_move(&largest), Ok(PlayerInput::Position(usize::MAX)));
    let padded = format!(" +000{} ", usize::MAX);
    assert_eq!(parse_move(&padded), Ok(PlayerInput::Position(usize::MAX)));
    let too_large = format!("{}0", usize::MAX);
    assert_eq!(parse_move(&too_large), Err(GameError::MalformedInput));
    let next = format!("{}", usize::MAX as u128 + 1);
    assert_eq!(parse_move(&next), Err(GameError::MalformedInput));
    assert_eq!(
        parse_move("99999999999999999999999999999999999999999"),
        Err(GameError::MalformedInput)
    );
    assert_eq!(parse_move("99999999999999999999999999x"), Err(GameError::MalformedInput));
}

#[test]
fn parse_move_reads_every_position_as_the_machine_does() {
    for position in 0..2000usize {
        let line = format!("{}\n", position);
        assert_eq!(parse_move(&line), Ok(PlayerInput::Position(position)));
        assert_eq!(line.trim().parse::<usize>(), Ok(position));
    }
}

#[test]
fn parse_mode_reads_one_and_two() {
    assert_eq!(parse_mode("1"), Some(GameMode::PlayerVsPlayer));
    assert_eq!(parse_mode("2"), Some(GameMode::PlayerVsComputer));
    assert_eq!(parse_mode(" 1\n"), Some(GameMode::PlayerVsPlayer));
    assert_eq!(parse_mode("\t2 \r\n"), Some(GameMode::PlayerVsComputer));
    for line in ["", " ", "3", "0", "12", "1 2", "one", "+1", "01", "1.", "２"] {
        assert_eq!(parse_mode(line), None, "{:?}", line);
    }
}

#[test]
fn parse_replay_reads_yes_and_no() {
    for line in ["yes", "y", "YES", "Y", "Yes", " yes\n", "yEs"] {
        assert_eq!(parse_replay(line), Some(true), "{:?}", line);
    }
    for line in ["no", "n", "NO", "N", "No", " no\n", "nO\t"] {
        assert_eq!(parse_replay(line), Some(false), "{:?}", line);
    }
    for line in ["", " ", "ye", "yess", "nope", "maybe", "1", "0", "y n", "yes no", "ｙ"] {
        assert_eq!(parse_replay(line), None, "{:?}", line);
    }
}

fn every_char() -> Vec<char> {
    (0..=0x10FFFFu32).filter_map(char::from_u32).collect()
}

fn replay_by_the_standard_library(line: &str) -> Option<bool> {
    match line.trim().to_lowercase().as_str() {
        "yes" | "y" => Some(true),
        "no" | "n" => Some(false),
        _ => None,
    }
}

fn move_by_the_standard_library(line: &str) -> Result<PlayerInput, GameError> {
    let text = line.trim().to_lowercase();
    if text == "quit" {
        return Ok(PlayerInput::Quit);
    }
    match text.parse::<usize>() {
        Ok(position) => Ok(PlayerInput::Position(position)),
        Err(_) => Err(GameError::MalformedInput),
    }
}

#[test]
fn white_space_is_what_the_standard_library_trims() {
    for c in every_char() {
        let line = format!("{}7{}", c, c);
        let read = parse_move(&line) == Ok(PlayerInput::Position(7));
        assert_eq!(read, c.is_whitespace(), "U+{:04X}", c as u32);
    }
}

#[test]
fn any_first_character_is_read_as_the_standard_library_reads_it() {
    for c in every_char() {
        for rest in ["uit", "es", "o", ""] {
            let line = format!("{}{}", c, rest);
            assert_eq!(parse_move(&line), move_by_the_standard_library(&line), "{:?}", line);
            assert_eq!(parse_replay(&line), replay_by_the_standard_library(&line), "{:?}", line);
        }
    }
}

#[test]
fn letters_with_a_case_are_read_as_the_standard_library_reads_them() {
    let cased: Vec<char> = every_char()
        .into_iter()
        .filter(|c| c.is_ascii() || c.to_lowercase().ne(std::iter::once(*c)))
        .collect();
    assert!(cased.len() > 1000);
    for word in ["quit", "yes", "no", "y", "n"] {
        let letters: Vec<char> = word.chars().collect();
        for at in 0..letters.len() {
            for &c in &cased {
                let mut changed = letters.clone();
                changed[at] = c;
                let line: String = changed.into_iter().collect();
                assert_eq!(parse_move(&line), move_by_the_standard_library(&line), "{:?}", line);
                assert_eq!(
                    parse_replay(&line),
                    replay_by_the_standard_library(&line),
                    "{:?}",
                    line
                );
            }
        }
    }
}

#[test]
fn short_lines_are_read_as_the_standard_library_reads_them() {
    let alphabet = ['0', '1', '9', '+', '-', ' ', 'q', 'Y', 'n', '\n'];
    let mut lines: Vec<String> = vec![String::new()];
    let mut from = 0;
    for _ in 0..5 {
        let upto = lines.len();
        for index in from..upto {
            for c in alphabet {
                let mut longer = lines[index].clone();
                longer.push(c);
                lines.push(longer);
            }
        }
        from = upto;
    }
    assert_eq!(lines.len(), 111_111);
    for line in &lines {
        assert_eq!(parse_move(line), move_by_the_standard_library(line), "{:?}", line);
        assert_eq!(parse_replay(line), replay_by_the_standard_library(line), "{:?}", line);
        let mode = match line.trim() {
            "1" => Some(GameMode::PlayerVsPlayer),
            "2" => Some(GameMode::PlayerVsComputer),
            _ => None,
        };
        assert_eq!(parse_mode(line), mode, "{:?}", line);
    }
}

#[test]
fn long_numbers_are_read_as_the_standard_library_reads_them() {
    let largest = usize::MAX as u128;
    for value in (largest - 200)..(largest + 200) {
        for line in [format!("{}", value), format!("+{}", value), format!("0{}", value)] {
            assert_eq!(parse_move(&line), move_by_the_standard_library(&line), "{:?}", line);
        }
    }
    let mut digits = String::new();
    for _ in 0..60 {
        digits.push('9');
        assert_eq!(parse_move(&digits), move_by_the_standard_library(&digits), "{:?}", digits);
    }
}
