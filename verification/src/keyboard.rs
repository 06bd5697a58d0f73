//! Keystroke encoding for the device's keyboard matrix.
//!
//! A logical character maps to a pair of matrix codes: the key's
//! position and, for characters that live on a shifted key, the shift
//! code `0x0f`.  Characters outside the table map to the "no key"
//! sentinel pair, a deliberate best-effort policy rather than an error.

use vstd::prelude::*;

use crate::protocol::{key_cmd, release_cmd};
use crate::transport::WireEvent;

verus! {

/// The "no key pressed" matrix code.
pub const NO_KEY: u8 = 0x7f;

/// The matrix code of the shift key, used as second code for shifted
/// characters.
pub const SHIFT_CODE: u8 = 0x0f;

/// The pair of matrix codes a character is typed with.
///
/// The table is the mapping itself; there is no shorter way to state it.
pub open spec fn spec_key_codes(c: char) -> (u8, u8) {
    match c {
        // Characters on shifted keys: the unshifted key's code plus shift.
        '!' => (0x38, 0x0f),
        '"' => (0x3b, 0x0f),
        '#' => (0x08, 0x0f),
        '$' => (0x0b, 0x0f),
        '%' => (0x10, 0x0f),
        '(' => (0x1b, 0x0f),
        ')' => (0x20, 0x0f),
        '?' => (0x37, 0x0f),
        '<' => (0x2f, 0x0f),
        '>' => (0x2c, 0x0f),
        // Control codes.
        '\u{14}' => (0x00, 0x7f),  // INST/DEL
        '\r' => (0x01, 0x7f),  // Return
        '\u{1d}' => (0x02, 0x7f),  // Cursor right
        '\u{f7}' => (0x03, 0x7f),
        '\u{9d}' => (0x02, 0x0f),  // Cursor left
        '\u{91}' => (0x07, 0x0f),  // Cursor up
        '\u{f1}' => (0x7f, 0x04),  // F1
        '\u{f3}' => (0x05, 0x7f),  // F3
        '\u{f5}' => (0x06, 0x7f),  // F5
        '\u{11}' => (0x07, 0x7f),  // Cursor down
        '\u{13}' => (0x33, 0x7f),
        '\u{3}' => (0x3f, 0x7f),  // RUN/STOP
        '\u{c}' => (0x3f, 0x7f),
        // Keys in matrix order.
        '3' => (0x08, 0x7f),
        'w' | 'W' => (0x09, 0x7f),
        'a' | 'A' => (0x0a, 0x7f),
        '4' => (0x0b, 0x7f),
        'z' | 'Z' => (0x0c, 0x7f),
        's' | 'S' => (0x0d, 0x7f),
        'e' | 'E' => (0x0e, 0x7f),
        '5' => (0x10, 0x7f),
        'r' | 'R' => (0x11, 0x7f),
        'd' | 'D' => (0x12, 0x7f),
        '6' => (0x13, 0x7f),
        'c' | 'C' => (0x14, 0x7f),
        'f' | 'F' => (0x15, 0x7f),
        't' | 'T' => (0x16, 0x7f),
        'x' | 'X' => (0x17, 0x7f),
        '7' => (0x18, 0x7f),
        'y' | 'Y' => (0x19, 0x7f),
        'g' | 'G' => (0x1a, 0x7f),
        '8' => (0x1b, 0x7f),
        'b' | 'B' => (0x1c, 0x7f),
        'h' | 'H' => (0x1d, 0x7f),
        'u' | 'U' => (0x1e, 0x7f),
        'v' | 'V' => (0x1f, 0x7f),
        '9' => (0x20, 0x7f),
        'i' | 'I' => (0x21, 0x7f),
        'j' | 'J' => (0x22, 0x7f),
        '0' => (0x23, 0x7f),
        'm' | 'M' => (0x24, 0x7f),
        'k' | 'K' => (0x25, 0x7f),
        'o' | 'O' => (0x26, 0x7f),
        'n' | 'N' => (0x27, 0x7f),
        '+' => (0x28, 0x7f),
        'p' | 'P' => (0x29, 0x7f),
        'l' | 'L' => (0x2a, 0x7f),
        '-' => (0x2b, 0x7f),
        '.' => (0x2c, 0x7f),
        ':' => (0x2d, 0x7f),
        '@' => (0x2e, 0x7f),
        ',' => (0x2f, 0x7f),
        '}' => (0x30, 0x7f),
        '*' => (0x31, 0x7f),
        ';' => (0x32, 0x7f),
        '=' => (0x35, 0x7f),
        '/' => (0x37, 0x7f),
        '1' => (0x38, 0x7f),
        '_' => (0x39, 0x7f),
        '2' => (0x3b, 0x7f),
        ' ' => (0x3c, 0x7f),
        'q' | 'Q' => (0x3e, 0x7f),
        // Everything else is typed as "no key".
        _ => (0x7f, 0x7f),
    }
}

/// The pair of matrix codes a character is typed with.
pub fn key_codes(c: char) -> (r: (u8, u8))
    ensures
        r == spec_key_codes(c),
{
    match c {
        '!' => (0x38, 0x0f),
        '"' => (0x3b, 0x0f),
        '#' => (0x08, 0x0f),
        '$' => (0x0b, 0x0f),
        '%' => (0x10, 0x0f),
        '(' => (0x1b, 0x0f),
        ')' => (0x20, 0x0f),
        '?' => (0x37, 0x0f),
        '<' => (0x2f, 0x0f),
        '>' => (0x2c, 0x0f),
        '\u{14}' => (0x00, 0x7f),
        '\r' => (0x01, 0x7f),
        '\u{1d}' => (0x02, 0x7f),
        '\u{f7}' => (0x03, 0x7f),
        '\u{9d}' => (0x02, 0x0f),
        '\u{91}' => (0x07, 0x0f),
        '\u{f1}' => (0x7f, 0x04),
        '\u{f3}' => (0x05, 0x7f),
        '\u{f5}' => (0x06, 0x7f),
        '\u{11}' => (0x07, 0x7f),
        '\u{13}' => (0x33, 0x7f),
        '\u{3}' => (0x3f, 0x7f),
        '\u{c}' => (0x3f, 0x7f),
        '3' => (0x08, 0x7f),
        'w' | 'W' => (0x09, 0x7f),
        'a' | 'A' => (0x0a, 0x7f),
        '4' => (0x0b, 0x7f),
        'z' | 'Z' => (0x0c, 0x7f),
        's' | 'S' => (0x0d, 0x7f),
        'e' | 'E' => (0x0e, 0x7f),
        '5' => (0x10, 0x7f),
        'r' | 'R' => (0x11, 0x7f),
        'd' | 'D' => (0x12, 0x7f),
        '6' => (0x13, 0x7f),
        'c' | 'C' => (0x14, 0x7f),
        'f' | 'F' => (0x15, 0x7f),
        't' | 'T' => (0x16, 0x7f),
        'x' | 'X' => (0x17, 0x7f),
        '7' => (0x18, 0x7f),
        'y' | 'Y' => (0x19, 0x7f),
        'g' | 'G' => (0x1a, 0x7f),
        '8' => (0x1b, 0x7f),
        'b' | 'B' => (0x1c, 0x7f),
        'h' | 'H' => (0x1d, 0x7f),
        'u' | 'U' => (0x1e, 0x7f),
        'v' | 'V' => (0x1f, 0x7f),
        '9' => (0x20, 0x7f),
        'i' | 'I' => (0x21, 0x7f),
        'j' | 'J' => (0x22, 0x7f),
        '0' => (0x23, 0x7f),
        'm' | 'M' => (0x24, 0x7f),
        'k' | 'K' => (0x25, 0x7f),
        'o' | 'O' => (0x26, 0x7f),
        'n' | 'N' => (0x27, 0x7f),
        '+' => (0x28, 0x7f),
        'p' | 'P' => (0x29, 0x7f),
        'l' | 'L' => (0x2a, 0x7f),
        '-' => (0x2b, 0x7f),
        '.' => (0x2c, 0x7f),
        ':' => (0x2d, 0x7f),
        '@' => (0x2e, 0x7f),
        ',' => (0x2f, 0x7f),
        '}' => (0x30, 0x7f),
        '*' => (0x31, 0x7f),
        ';' => (0x32, 0x7f),
        '=' => (0x35, 0x7f),
        '/' => (0x37, 0x7f),
        '1' => (0x38, 0x7f),
        '_' => (0x39, 0x7f),
        '2' => (0x3b, 0x7f),
        ' ' => (0x3c, 0x7f),
        'q' | 'Q' => (0x3e, 0x7f),
        _ => (0x7f, 0x7f),
    }
}

/// Carriage-return normalization of user text: the two-character escape
/// sequences `\r` and `\n` become the device's return character, one
/// pass from left to right.
pub open spec fn spec_normalize(s: Seq<char>) -> Seq<char>
    decreases s.len(),
{
    if s.len() == 0 {
        Seq::empty()
    } else if s.len() >= 2 && s[0] == '\\' && (s[1] == 'r' || s[1] == 'n') {
        seq!['\r'] + spec_normalize(s.skip(2))
    } else {
        seq![s[0]] + spec_normalize(s.skip(1))
    }
}

/// Normalize return/newline escape sequences in user text.
pub fn normalize_escapes(text: &Vec<char>) -> (r: Vec<char>)
    ensures
        r@ == spec_normalize(text@),
{
    let mut out: Vec<char> = Vec::new();
    let mut i: usize = 0;
    proof {
        assert(text@.skip(0) =~= text@);
        assert(Seq::<char>::empty() + spec_normalize(text@) =~= spec_normalize(text@));
    }
    while i < text.len()
        invariant
            i <= text@.len(),
            spec_normalize(text@) == out@ + spec_normalize(text@.skip(i as int)),
        decreases text@.len() - i,
    {
        let ghost rest = text@.skip(i as int);
        if text[i] == '\\' && i + 1 < text.len() && (text[i + 1] == 'r' || text[i + 1] == 'n') {
            out.push('\r');
            proof {
                assert(rest[0] == '\\' && (rest[1] == 'r' || rest[1] == 'n'));
                assert(rest.skip(2) =~= text@.skip(i + 2));
                assert(out@ + spec_normalize(text@.skip(i + 2)) =~= spec_normalize(text@));
            }
            i += 2;
        } else {
            out.push(text[i]);
            proof {
                assert(rest[0] == text@[i as int]);
                if rest.len() >= 2 && rest[0] == '\\' && (rest[1] == 'r' || rest[1] == 'n') {
                    assert(false);
                }
                assert(rest.skip(1) =~= text@.skip(i + 1));
                assert(out@ + spec_normalize(text@.skip(i + 1)) =~= spec_normalize(text@));
            }
            i += 1;
        }
    }
    proof {
        assert(text@.skip(text@.len() as int) =~= Seq::<char>::empty());
    }
    out
}

/// The keystroke commands typing a character sequence sends, one per
/// character, in order.
pub open spec fn keys_delta(s: Seq<char>) -> Seq<WireEvent>
    decreases s.len(),
{
    if s.len() == 0 {
        Seq::empty()
    } else {
        seq![WireEvent::Sent(key_cmd(spec_key_codes(s[0]).0, spec_key_codes(s[0]).1))]
            + keys_delta(s.skip(1))
    }
}

/// The full exchange of typing a character sequence: its keystroke
/// commands followed by the matrix release command.
pub open spec fn type_text_delta(s: Seq<char>) -> Seq<WireEvent> {
    keys_delta(s) + seq![WireEvent::Sent(release_cmd())]
}

/// Typing one further character appends one further keystroke command.
pub proof fn lemma_keys_delta_snoc(s: Seq<char>, i: int)
    requires
        0 <= i < s.len(),
    ensures
        keys_delta(s.take(i + 1)) == keys_delta(s.take(i)) + seq![
            WireEvent::Sent(key_cmd(spec_key_codes(s[i]).0, spec_key_codes(s[i]).1)),
        ],
    decreases i,
{
    if i == 0 {
        assert(s.take(1) =~= seq![s[0]]);
        assert(s.take(1).skip(1) =~= Seq::<char>::empty());
        assert(s.take(0) =~= Seq::<char>::empty());
        assert(keys_delta(s.take(1)) =~= keys_delta(s.take(0)) + seq![
            WireEvent::Sent(key_cmd(spec_key_codes(s[0]).0, spec_key_codes(s[0]).1)),
        ]);
    } else {
        lemma_keys_delta_snoc(s.skip(1), i - 1);
        assert(s.take(i + 1)[0] == s[0]);
        assert(s.take(i)[0] == s[0]);
        assert(s.take(i + 1).skip(1) =~= s.skip(1).take(i));
        assert(s.take(i).skip(1) =~= s.skip(1).take(i - 1));
        assert(s.skip(1)[i - 1] == s[i]);
        assert(keys_delta(s.take(i + 1)) =~= keys_delta(s.take(i)) + seq![
            WireEvent::Sent(key_cmd(spec_key_codes(s[i]).0, spec_key_codes(s[i]).1)),
        ]);
    }
}

} // verus!
