//! What a player typed, read as an answer.
//!
//! A line is read without the white space around it. Asked for a move, a
//! player answers with the number of a square or with `quit`; asked for the
//! kind of game, with `1` or `2`; asked whether to play again, with `yes` or
//! `no`, or their first letters. Words are read without regard to case.

use vstd::prelude::*;
use crate::error::GameError;
use crate::game::{GameMode, PlayerInput};

verus! {

/// Whether `c` is white space: a blank, a tab, a line break, or one of the
/// other characters that Unicode lists as white space.
pub open spec fn is_space(c: char) -> bool {
    let u = c as int;
    ||| 0x09 <= u <= 0x0D
    ||| u == 0x20
    ||| u == 0x85
    ||| u == 0xA0
    ||| u == 0x1680
    ||| 0x2000 <= u <= 0x200A
    ||| u == 0x2028
    ||| u == 0x2029
    ||| u == 0x202F
    ||| u == 0x205F
    ||| u == 0x3000
}

/// The index of the first character at or after `from` that is not white
/// space, or the length of `s` where there is none.
pub open spec fn skip_spaces(s: Seq<char>, from: int) -> int
    decreases s.len() - from,
{
    if 0 <= from < s.len() && is_space(s[from]) {
        skip_spaces(s, from + 1)
    } else {
        from
    }
}

/// The index after the last character under `upto`, and not under `from`,
/// that is not white space, or `from` where there is none.
pub open spec fn drop_spaces(s: Seq<char>, from: int, upto: int) -> int
    decreases upto - from,
{
    if from < upto <= s.len() && is_space(s[upto - 1]) {
        drop_spaces(s, from, upto - 1)
    } else {
        upto
    }
}

/// `s` without the white space at its two ends.
pub open spec fn trimmed(s: Seq<char>) -> Seq<char> {
    let from = skip_spaces(s, 0);
    s.subrange(from, drop_spaces(s, from, s.len() as int))
}

/// Whether `c` is the small letter `letter` or its capital.
pub open spec fn is_letter(c: char, letter: char) -> bool {
    c == letter || ('A' <= c <= 'Z' && c as int + 32 == letter as int)
}

/// Whether `t` is the word `word`, which is written in small letters, in
/// small letters or capitals or both.
pub open spec fn says(t: Seq<char>, word: Seq<char>) -> bool {
    &&& t.len() == word.len()
    &&& forall|i: int| 0 <= i < t.len() ==> is_letter(#[trigger] t[i], word[i])
}

/// Whether `c` is one of the digits `0` to `9`.
pub open spec fn is_digit(c: char) -> bool {
    '0' <= c <= '9'
}

/// Whether `t` is made of digits alone.
pub open spec fn all_digits(t: Seq<char>) -> bool {
    forall|i: int| 0 <= i < t.len() ==> is_digit(#[trigger] t[i])
}

/// The number that the digits `t` write in base ten.
pub open spec fn decimal(t: Seq<char>) -> int
    decreases t.len(),
{
    if t.len() == 0 {
        0
    } else {
        decimal(t.drop_last()) * 10 + (t.last() as int - '0' as int)
    }
}

/// `t` without the plus sign that may stand before a number.
pub open spec fn unsigned(t: Seq<char>) -> Seq<char> {
    if t.len() > 0 && t[0] == '+' {
        t.drop_first()
    } else {
        t
    }
}

/// The number that `t` writes: one digit or more, with or without a plus
/// sign before them. Anything else writes no number.
pub open spec fn number(t: Seq<char>) -> Option<int> {
    let digits = unsigned(t);
    if digits.len() > 0 && all_digits(digits) {
        Some(decimal(digits))
    } else {
        None
    }
}

/// A player's answer when asked for a move: `quit`, or the number of a
/// square, as far as a machine integer can hold it.
pub open spec fn read_move(s: Seq<char>) -> Result<PlayerInput, GameError> {
    let t = trimmed(s);
    if says(t, "quit"@) {
        Ok(PlayerInput::Quit)
    } else if number(t) is Some && number(t)->0 <= usize::MAX {
        Ok(PlayerInput::Position(number(t)->0 as usize))
    } else {
        Err(GameError::MalformedInput)
    }
}

/// A player's answer when asked for the kind of game: `1` for two players,
/// `2` for a game against the computer.
pub open spec fn read_mode(s: Seq<char>) -> Option<GameMode> {
    let t = trimmed(s);
    if t == "1"@ {
        Some(GameMode::PlayerVsPlayer)
    } else if t == "2"@ {
        Some(GameMode::PlayerVsComputer)
    } else {
        None
    }
}

/// A player's answer when asked whether to play again.
pub open spec fn read_replay(s: Seq<char>) -> Option<bool> {
    let t = trimmed(s);
    if says(t, "yes"@) || says(t, "y"@) {
        Some(true)
    } else if says(t, "no"@) || says(t, "n"@) {
        Some(false)
    } else {
        None
    }
}

/// What is cut off a line is white space, and what is left neither begins
/// nor ends with white space.
pub proof fn lemma_trimmed(s: Seq<char>)
    ensures
        ({
            let from = skip_spaces(s, 0);
            let upto = drop_spaces(s, from, s.len() as int);
            &&& 0 <= from <= upto <= s.len()
            &&& trimmed(s) == s.subrange(from, upto)
            &&& forall|i: int| 0 <= i < from ==> is_space(#[trigger] s[i])
            &&& forall|i: int| upto <= i < s.len() ==> is_space(#[trigger] s[i])
        }),
        trimmed(s).len() > 0 ==> !is_space(trimmed(s).first()) && !is_space(trimmed(s).last()),
{
    lemma_skip_spaces(s, 0);
    let from = skip_spaces(s, 0);
    lemma_drop_spaces(s, from, s.len() as int);
}

/// `skip_spaces` passes over white space only and stops at the first
/// character that is none.
proof fn lemma_skip_spaces(s: Seq<char>, from: int)
    requires
        0 <= from <= s.len(),
    ensures
        from <= skip_spaces(s, from) <= s.len(),
        forall|i: int| from <= i < skip_spaces(s, from) ==> is_space(#[trigger] s[i]),
        skip_spaces(s, from) < s.len() ==> !is_space(s[skip_spaces(s, from)]),
    decreases s.len() - from,
{
    if from < s.len() && is_space(s[from]) {
        lemma_skip_spaces(s, from + 1);
    }
}

/// `drop_spaces` passes over white space only and stops after the last
/// character that is none.
proof fn lemma_drop_spaces(s: Seq<char>, from: int, upto: int)
    requires
        0 <= from <= upto <= s.len(),
    ensures
        from <= drop_spaces(s, from, upto) <= upto,
        forall|i: int| drop_spaces(s, from, upto) <= i < upto ==> is_space(#[trigger] s[i]),
        from < drop_spaces(s, from, upto) ==> !is_space(s[drop_spaces(s, from, upto) - 1]),
    decreases upto - from,
{
    if from < upto && is_space(s[upto - 1]) {
        lemma_drop_spaces(s, from, upto - 1);
    }
}

/// Digits written after a number make it no smaller.
proof fn lemma_decimal_grows(t: Seq<char>, n: int)
    requires
        all_digits(t),
        0 <= n <= t.len(),
    ensures
        0 <= decimal(t.take(n)) <= decimal(t),
    decreases t.len() - n,
{
    lemma_decimal_nonnegative(t.take(n));
    if n < t.len() {
        lemma_decimal_grows(t, n + 1);
        assert(t.take(n + 1).drop_last() == t.take(n));
    } else {
        assert(t.take(n) == t);
    }
}

/// Digits write no negative number.
proof fn lemma_decimal_nonnegative(t: Seq<char>)
    requires
        all_digits(t),
    ensures
        0 <= decimal(t),
    decreases t.len(),
{
    if t.len() > 0 {
        lemma_decimal_nonnegative(t.drop_last());
    }
}

/// Whether `c` is white space.
fn space(c: char) -> (b: bool)
    ensures
        b == is_space(c),
{
    ('\u{9}' <= c && c <= '\u{D}') || c == ' ' || c == '\u{85}' || c == '\u{A0}' || c
        == '\u{1680}' || ('\u{2000}' <= c && c <= '\u{200A}') || c == '\u{2028}' || c
        == '\u{2029}' || c == '\u{202F}' || c == '\u{205F}' || c == '\u{3000}'
}

/// Whether `c` is the small letter `small` or its capital.
fn letter(c: char, small: char) -> (b: bool)
    ensures
        b == is_letter(c, small),
{
    c == small || ('A' <= c && c <= 'Z' && c as u32 + 32 == small as u32)
}

/// The characters of `line` without the white space at its two ends.
fn trimmed_chars(line: &str) -> (t: Vec<char>)
    ensures
        t@ == trimmed(line@),
{
    let mut all: Vec<char> = Vec::new();
    for c in it: line.chars()
        invariant
            it.seq() == line@,
            all@ == it.seq().take(it.index() as int),
    {
        all.push(c);
    }
    assert(all@ == line@);
    let mut from: usize = 0;
    while from < all.len() && space(all[from])
        invariant
            0 <= from <= all@.len(),
            skip_spaces(all@, 0) == skip_spaces(all@, from as int),
        decreases all@.len() - from,
    {
        from += 1;
    }
    let mut upto: usize = all.len();
    proof {
        lemma_skip_spaces(all@, 0);
    }
    while from < upto && space(all[upto - 1])
        invariant
            from <= upto <= all@.len(),
            drop_spaces(all@, from as int, all@.len() as int) == drop_spaces(
                all@,
                from as int,
                upto as int,
            ),
        decreases upto,
    {
        upto -= 1;
    }
    let mut t: Vec<char> = Vec::new();
    let mut i: usize = from;
    while i < upto
        invariant
            from <= i <= upto <= all@.len(),
            t@ == all@.subrange(from as int, i as int),
        decreases upto - i,
    {
        t.push(all[i]);
        i += 1;
    }
    t
}

/// Whether `t` reads as `word`: the same characters where `exact` is set,
/// and the same letters, small or capital, where it is not.
fn reads_as(t: &Vec<char>, word: &str, exact: bool) -> (b: bool)
    ensures
        exact ==> b == (t@ == word@),
        !exact ==> b == says(t@, word@),
{
    let mut i: usize = 0;
    for w in it: word.chars()
        invariant
            it.seq() == word@,
            i == it.index(),
            i <= t@.len(),
            exact ==> t@.take(i as int) == word@.take(i as int),
            !exact ==> forall|j: int| 0 <= j < i ==> is_letter(#[trigger] t@[j], word@[j]),
    {
        if i >= t.len() {
            return false;
        }
        let c = t[i];
        let same = c == w || (!exact && letter(c, w));
        if !same {
            return false;
        }
        i += 1;
    }
    proof {
        if i == t@.len() {
            assert(t@.take(i as int) == t@);
            assert(word@.take(i as int) == word@);
        }
    }
    i == t.len()
}

/// The number that `t` writes, where it writes one that a machine integer
/// holds.
fn parse_number(t: &Vec<char>) -> (r: Option<usize>)
    ensures
        r is Some <==> number(t@) is Some && number(t@)->0 <= usize::MAX,
        r matches Some(v) ==> v == number(t@)->0,
{
    let start: usize = if t.len() > 0 && t[0] == '+' {
        1
    } else {
        0
    };
    let ghost digits = t@.subrange(start as int, t@.len() as int);
    if start == t.len() {
        return None;
    }
    let mut value: usize = 0;
    let mut i: usize = start;
    while i < t.len()
        invariant
            start <= i <= t@.len(),
            digits == t@.subrange(start as int, t@.len() as int),
            digits == unsigned(t@),
            all_digits(digits.take(i - start)),
            value == decimal(digits.take(i - start)),
        decreases t@.len() - i,
    {
        let c = t[i];
        assert(digits[i - start] == c);
        if !('0' <= c && c <= '9') {
            return None;
        }
        let d = (c as u32 - '0' as u32) as usize;
        proof {
            assert(digits.take(i - start + 1).drop_last() == digits.take(i - start));
        }
        if value > (usize::MAX - d) / 10 {
            proof {
                if all_digits(digits) {
                    lemma_decimal_grows(digits, i - start + 1);
                }
            }
            return None;
        }
        value = value * 10 + d;
        i += 1;
    }
    assert(digits.take(i - start) == digits);
    Some(value)
}

/// Reads a player's answer when asked for a move. The answer is `quit`, in
/// small letters or capitals, or the number of a square: digits, with or
/// without a plus sign before them. White space around the answer does not
/// count. Anything else is malformed, and so is a number too large for a
/// machine integer.
pub fn parse_move(line: &str) -> (r: Result<PlayerInput, GameError>)
    ensures
        r == read_move(line@),
{
    let t = trimmed_chars(line);
    if reads_as(&t, "quit", false) {
        return Ok(PlayerInput::Quit);
    }
    match parse_number(&t) {
        Some(position) => Ok(PlayerInput::Position(position)),
        None => Err(GameError::MalformedInput),
    }
}

/// Reads a player's answer when asked for the kind of game: `1` for two
/// players, `2` for a game against the computer, with or without white space
/// around it. Anything else is no answer.
pub fn parse_mode(line: &str) -> (r: Option<GameMode>)
    ensures
        r == read_mode(line@),
{
    let t = trimmed_chars(line);
    if reads_as(&t, "1", true) {
        Some(GameMode::PlayerVsPlayer)
    } else if reads_as(&t, "2", true) {
        Some(GameMode::PlayerVsComputer)
    } else {
        None
    }
}

/// Reads a player's answer when asked whether to play again: `yes` or `y`
/// for another game, `no` or `n` for none, in small letters or capitals, with
/// or without white space around it. Anything else is no answer.
pub fn parse_replay(line: &str) -> (r: Option<bool>)
    ensures
        r == read_replay(line@),
{
    let t = trimmed_chars(line);
    if reads_as(&t, "yes", false) || reads_as(&t, "y", false) {
        Some(true)
    } else if reads_as(&t, "no", false) || reads_as(&t, "n", false) {
        Some(false)
    } else {
        None
    }
}

} // verus!
