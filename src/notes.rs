//! Note names such as `C4`, `#F2` or `H0`, read as MIDI note numbers.
use vstd::prelude::*;
use vstd::string::*;

use crate::color::is_digit;

verus! {

/// Whether `c` is white space in the sense of Unicode's `White_Space`
/// property, as `char::is_whitespace` has it.
pub open spec fn is_ws(c: char) -> bool {
    ('\u{9}' <= c <= '\u{d}') || c == ' ' || c == '\u{85}' || c == '\u{a0}' || c == '\u{1680}'
        || ('\u{2000}' <= c <= '\u{200a}') || c == '\u{2028}' || c == '\u{2029}' || c
        == '\u{202f}' || c == '\u{205f}' || c == '\u{3000}'
}

/// `s` without its leading white space.
pub open spec fn trim_start(s: Seq<char>) -> Seq<char>
    decreases s.len(),
{
    if s.len() > 0 && is_ws(s[0]) {
        trim_start(s.drop_first())
    } else {
        s
    }
}

/// `s` without its trailing white space.
pub open spec fn trim_end(s: Seq<char>) -> Seq<char>
    decreases s.len(),
{
    if s.len() > 0 && is_ws(s.last()) {
        trim_end(s.drop_last())
    } else {
        s
    }
}

/// `s` without white space at either end.
pub open spec fn trim(s: Seq<char>) -> Seq<char> {
    trim_end(trim_start(s))
}

/// Semitones from A up to `letter` within the numbering of an octave, which
/// starts at C (so C to G lie below A).
pub open spec fn letter_step(letter: char) -> int {
    if letter == 'A' {
        0
    } else if letter == 'B' {
        2
    } else if letter == 'C' {
        3 - 12
    } else if letter == 'D' {
        5 - 12
    } else if letter == 'E' {
        7 - 12
    } else if letter == 'F' {
        8 - 12
    } else {
        10 - 12
    }
}

/// The MIDI number of a note name: an optional `#` (one semitone up) or `b`
/// (one down), then, with white space allowed around it, a letter from A to G
/// (H standing for B) and an octave digit. The note, prefix included, must
/// lie on the keyboard, from A0 (21) to C8 (108).
pub open spec fn note_id_spec(n: Seq<char>) -> Option<int> {
    if n.len() == 0 {
        None
    } else {
        let shift: int = if n[0] == '#' {
            1
        } else if n[0] == 'b' {
            -1
        } else {
            0
        };
        let rest = if shift != 0 {
            n.drop_first()
        } else {
            n
        };
        let t = trim(rest);
        if t.len() != 2 || !is_digit(t[1]) {
            None
        } else {
            let letter = if t[0] == 'H' {
                'B'
            } else {
                t[0]
            };
            let number = t[1] as int - '0' as int;
            let id = 21 + shift + letter_step(letter) + 12 * number;
            if letter < 'A' || letter > 'G' || id < 21 || id > 108 {
                None
            } else {
                Some(id)
            }
        }
    }
}

fn is_whitespace(c: char) -> (r: bool)
    ensures
        r == is_ws(c),
{
    ('\u{9}' <= c && c <= '\u{d}') || c == ' ' || c == '\u{85}' || c == '\u{a0}' || c
        == '\u{1680}' || ('\u{2000}' <= c && c <= '\u{200a}') || c == '\u{2028}' || c
        == '\u{2029}' || c == '\u{202f}' || c == '\u{205f}' || c == '\u{3000}'
}

/// Semitones from A up to `letter`, a letter from A to G.
fn midi_step_up_from_a(letter: char) -> (r: i64)
    requires
        'A' <= letter <= 'G',
    ensures
        r == letter_step(letter),
{
    match letter {
        'A' => 0,
        'B' => 2,
        'C' => 3 - 12,
        'D' => 5 - 12,
        'E' => 7 - 12,
        'F' => 8 - 12,
        _ => 10 - 12,
    }
}

/// Reads a note name (`A0` to `C8`, optionally after `#` or `b`, H standing
/// for B) as a MIDI note number; `None` when it is not one.
pub fn note_name_to_midi_id(n: &str) -> (r: Option<usize>)
    ensures
        match r {
            Some(id) => note_id_spec(n@) == Some(id as int),
            None => note_id_spec(n@) is None,
        },
{
    let len: usize = n.unicode_len();
    if len == 0 {
        return None;
    }
    let first: char = n.get_char(0);
    let mut midi_id: i64 = 21;
    let mut start: usize = 0;
    if first == '#' {
        midi_id = midi_id + 1;
        start = 1;
    } else if first == 'b' {
        midi_id = midi_id - 1;
        start = 1;
    }
    let ghost rest = n@.subrange(start as int, len as int);
    proof {
        if start == 1 {
            assert(rest =~= n@.drop_first());
        } else {
            assert(rest =~= n@);
        }
    }
    let mut a: usize = start;
    while a < len && is_whitespace(n.get_char(a))
        invariant
            start <= a <= len,
            len == n@.len(),
            trim_start(rest) == trim_start(n@.subrange(a as int, len as int)),
        decreases len - a,
    {
        assert(n@.subrange(a as int, len as int).drop_first() =~= n@.subrange(
            a + 1,
            len as int,
        ));
        a = a + 1;
    }
    assert(trim_start(n@.subrange(a as int, len as int)) == n@.subrange(a as int, len as int));
    let mut b: usize = len;
    while b > a && is_whitespace(n.get_char(b - 1))
        invariant
            start <= a <= b <= len,
            len == n@.len(),
            trim(rest) == trim_end(n@.subrange(a as int, b as int)),
        decreases b,
    {
        assert(n@.subrange(a as int, b as int).drop_last() =~= n@.subrange(
            a as int,
            b - 1,
        ));
        b = b - 1;
    }
    let ghost t = n@.subrange(a as int, b as int);
    assert(trim(rest) == t);
    if b - a != 2 {
        return None;
    }
    let mut letter: char = n.get_char(a);
    let digit: char = n.get_char(a + 1);
    assert(t[0] == letter && t[1] == digit);
    if !('0' <= digit && digit <= '9') {
        return None;
    }
    let number: i64 = digit as i64 - '0' as i64;
    if letter == 'H' {
        letter = 'B';
    }
    if letter < 'A' || letter > 'G' {
        return None;
    }
    midi_id = midi_id + midi_step_up_from_a(letter);
    midi_id = midi_id + number * 12;
    if midi_id < 21 || midi_id > 108 {
        return None;
    }
    Some(midi_id as usize)
}

} // verus!
