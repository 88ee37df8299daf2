//! Session startup decisions: which book to open and where to resume it,
//! from the persisted record and the command line; and the colour options'
//! hex form.

use vstd::prelude::*;
use crate::book::table_map;

verus! {

/// The value of one hex digit, or a marker below zero for anything else.
pub open spec fn hex_val(c: char) -> int {
    let u = c as u32;
    if 48 <= u <= 57 {
        u - 48
    } else if 97 <= u <= 102 {
        u - 87
    } else if 65 <= u <= 70 {
        u - 55
    } else {
        -1
    }
}

/// One byte from two hex digits.
pub open spec fn hex_byte(a: char, b: char) -> int {
    if hex_val(a) >= 0 && hex_val(b) >= 0 {
        16 * hex_val(a) + hex_val(b)
    } else {
        -1
    }
}

/// A colour option: exactly six hex digits, red, green and blue.
pub open spec fn hex_color_spec(s: Seq<char>) -> Option<(u8, u8, u8)> {
    if s.len() == 6 && hex_byte(s[0], s[1]) >= 0 && hex_byte(s[2], s[3]) >= 0 && hex_byte(
        s[4],
        s[5],
    ) >= 0 {
        Some(
            (
                hex_byte(s[0], s[1]) as u8,
                hex_byte(s[2], s[3]) as u8,
                hex_byte(s[4], s[5]) as u8,
            ),
        )
    } else {
        None
    }
}

/// Reads one hex digit.
fn hex_digit(c: char) -> (r: Option<u8>)
    ensures
        match r {
            Some(v) => hex_val(c) == v as int && v < 16,
            None => hex_val(c) < 0,
        },
{
    let u = c as u32;
    if 48 <= u && u <= 57 {
        Some((u - 48) as u8)
    } else if 97 <= u && u <= 102 {
        Some((u - 87) as u8)
    } else if 65 <= u && u <= 70 {
        Some((u - 55) as u8)
    } else {
        None
    }
}

/// Parses a colour option: exactly `hex_color_spec`; anything malformed is
/// rejected rather than crashing the start-up.
pub fn parse_hex_color(s: &[char]) -> (r: Option<(u8, u8, u8)>)
    ensures
        r == hex_color_spec(s@),
{
    if s.len() != 6 {
        return None;
    }
    let r = match (hex_digit(s[0]), hex_digit(s[1])) {
        (Some(a), Some(b)) => 16 * a + b,
        _ => {
            return None;
        },
    };
    let g = match (hex_digit(s[2]), hex_digit(s[3])) {
        (Some(a), Some(b)) => 16 * a + b,
        _ => {
            return None;
        },
    };
    let b = match (hex_digit(s[4]), hex_digit(s[5])) {
        (Some(a), Some(b)) => 16 * a + b,
        _ => {
            return None;
        },
    };
    Some((r, g, b))
}

/// The persisted record: the last book read, and for each book the chapter
/// and text offset to resume at.
pub struct SaveData {
    pub last: Vec<char>,
    pub files: Vec<(Vec<char>, (usize, usize))>,
}

/// Where a session starts: the book path with its resume position. With no
/// readable record, a named book starts from its beginning and no book at
/// all is an error; with a record, a named book resumes its stored position
/// or starts fresh, and no named book reopens the last one where it left
/// off.
pub open spec fn session_spec(save: Option<SaveData>, arg: Option<Vec<char>>) -> Option<
    (Seq<char>, usize, usize),
> {
    match (save, arg) {
        (None, None) => None,
        (None, Some(p)) => Some((p@, 0usize, 0usize)),
        (Some(s), None) => {
            if table_map(s.files@).dom().contains(s.last@) {
                let pos = table_map(s.files@)[s.last@];
                Some((s.last@, pos.0, pos.1))
            } else {
                Some((s.last@, 0usize, 0usize))
            }
        },
        (Some(s), Some(p)) => {
            if table_map(s.files@).dom().contains(p@) {
                let pos = table_map(s.files@)[p@];
                Some((p@, pos.0, pos.1))
            } else {
                Some((p@, 0usize, 0usize))
            }
        },
    }
}

/// Decides the session start: exactly `session_spec`.
pub fn session_start(save: Option<SaveData>, arg: Option<Vec<char>>) -> (r: Option<
    (Vec<char>, usize, usize),
>)
    ensures
        match r {
            Some(v) => session_spec(save, arg) == Some((v.0@, v.1, v.2)),
            None => session_spec(save, arg) is None,
        },
{
    match (save, arg) {
        (None, None) => None,
        (None, Some(p)) => Some((p, 0, 0)),
        (Some(s), None) => {
            match crate::book::table_get(&s.files, s.last.as_slice()) {
                Some(pos) => Some((s.last, pos.0, pos.1)),
                None => Some((s.last, 0, 0)),
            }
        },
        (Some(s), Some(p)) => {
            match crate::book::table_get(&s.files, p.as_slice()) {
                Some(pos) => Some((p, pos.0, pos.1)),
                None => Some((p, 0, 0)),
            }
        },
    }
}
}
