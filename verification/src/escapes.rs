//! Source texts that the parser of `fluent_syntax` cannot take.
//!
//! Inside a string literal, the parser cuts out a unicode escape that has too few digits together
//! with the byte behind it. Where that byte is part of a longer character, the parser panics. A
//! string literal starts with a double quote, behind the opening brace of a placeable that is not
//! closed yet, and does not go beyond its line. No line that starts with a number sign holds one.

use crate::position;
use vstd::prelude::*;

verus! {

/// Whether a byte is a hexadecimal digit.
pub open spec fn is_hex_digit(byte: u8) -> bool {
    48 <= byte <= 57 || 65 <= byte <= 70 || 97 <= byte <= 102
}

/// The number of digits that an escape takes, by its letter: four behind `u`, six behind `U`.
pub open spec fn escape_digits(letter: u8) -> int {
    if letter == 117 {
        4
    } else if letter == 85 {
        6
    } else {
        0
    }
}

/// Whether a unicode escape at index `i` is cut short, after `n` digits, by a character outside
/// ASCII.
pub open spec fn cut_short_after(bytes: Seq<u8>, i: int, n: int) -> bool {
    &&& 0 <= i
    &&& 0 <= n
    &&& i + 2 + n < bytes.len()
    &&& bytes[i] == 92
    &&& n < escape_digits(bytes[i + 1])
    &&& forall|k: int| i + 2 <= k < i + 2 + n ==> is_hex_digit(#[trigger] bytes[k])
    &&& bytes[i + 2 + n] >= 128
}

/// Whether a unicode escape at index `i` is cut short by a character outside ASCII.
pub open spec fn cut_short(bytes: Seq<u8>, i: int) -> bool {
    exists|n: int| cut_short_after(bytes, i, n)
}

/// Whether neither a double quote nor a brace stands between two indices.
pub open spec fn is_quiet(bytes: Seq<u8>, b: int, i: int) -> bool {
    forall|k: int| b < k < i ==> {
        let byte = #[trigger] bytes[k];
        byte != 34 && byte != 123 && byte != 125
    }
}

/// Whether an opening brace stands at index `b` before index `i`, and no closing brace follows it
/// with neither a double quote nor another brace between them: such a one closes it again.
pub open spec fn braced_from(bytes: Seq<u8>, b: int, i: int) -> bool {
    &&& 0 <= b < i
    &&& bytes[b] == 123
    &&& forall|c: int| b < c < i && #[trigger] bytes[c] == 125 ==> !is_quiet(bytes, b, c)
}

/// Whether an opening brace stands before an index that is not plainly closed again.
pub open spec fn braced_at(bytes: Seq<u8>, i: int) -> bool {
    exists|b: int| braced_from(bytes, b, i)
}

/// Whether such a brace stands before an index, with neither a double quote nor a brace behind it.
spec fn pending_at(bytes: Seq<u8>, i: int) -> bool {
    exists|b: int| #[trigger] braced_from(bytes, b, i) && is_quiet(bytes, b, i)
}

/// Whether such a brace stands before an index, with a double quote or a brace behind it.
spec fn held_at(bytes: Seq<u8>, i: int) -> bool {
    exists|b: int| #[trigger] braced_from(bytes, b, i) && !is_quiet(bytes, b, i)
}

/// How one byte changes whether an opening brace stands before an index.
proof fn lemma_braced_step(bytes: Seq<u8>, i: int)
    requires
        0 <= i < bytes.len(),
    ensures
        braced_at(bytes, i) == (pending_at(bytes, i) || held_at(bytes, i)),
        pending_at(bytes, i + 1) == (bytes[i] == 123 || (bytes[i] != 34 && bytes[i] != 125
            && pending_at(bytes, i))),
        held_at(bytes, i + 1) == (held_at(bytes, i) || ((bytes[i] == 34 || bytes[i] == 123)
            && pending_at(bytes, i))),
{
    let next = i + 1;
    if braced_at(bytes, i) {
        let b = choose|b: int| braced_from(bytes, b, i);
        assert(is_quiet(bytes, b, i) ==> pending_at(bytes, i));
    }
    if bytes[i] == 123 {
        assert(braced_from(bytes, i, next) && is_quiet(bytes, i, next));
    }
    if pending_at(bytes, i) {
        let b = choose|b: int| #[trigger] braced_from(bytes, b, i) && is_quiet(bytes, b, i);
        if bytes[i] == 34 || bytes[i] == 123 {
            assert(braced_from(bytes, b, next));
            assert(!is_quiet(bytes, b, next)) by {
                assert(b < i < next);
            }
        } else if bytes[i] != 125 {
            assert(braced_from(bytes, b, next) && is_quiet(bytes, b, next));
        }
    }
    if held_at(bytes, i) {
        let b = choose|b: int| #[trigger] braced_from(bytes, b, i) && !is_quiet(bytes, b, i);
        let k = choose|k: int| b < k < i && !(bytes[k] != 34 && bytes[k] != 123 && bytes[k] != 125);
        assert(braced_from(bytes, b, next));
        assert(!is_quiet(bytes, b, next)) by {
            assert(b < k < next);
        }
    }
    if pending_at(bytes, next) {
        let b = choose|b: int| #[trigger] braced_from(bytes, b, next) && is_quiet(bytes, b, next);
        if b < i {
            assert(braced_from(bytes, b, i) && is_quiet(bytes, b, i));
            assert(bytes[i] != 34 && bytes[i] != 123 && bytes[i] != 125);
        }
    }
    if held_at(bytes, next) {
        let b = choose|b: int| #[trigger] braced_from(bytes, b, next) && !is_quiet(bytes, b, next);
        let k = choose|k: int| b < k < next && !(bytes[k] != 34 && bytes[k] != 123 && bytes[k] != 125);
        assert(b < i);
        assert(braced_from(bytes, b, i));
        if is_quiet(bytes, b, i) {
            assert(k == i);
        }
    }
}

/// Whether a double quote stands at index `q` before index `i`, on the same line and behind an
/// opening brace.
pub open spec fn quoted_from(bytes: Seq<u8>, q: int, i: int) -> bool {
    &&& 0 <= q < i
    &&& bytes[q] == 34
    &&& braced_at(bytes, q)
    &&& forall|k: int| q <= k < i ==> #[trigger] bytes[k] != position::LINE_FEED
}

/// Whether a double quote stands before index `i`, on the same line and behind an opening brace.
pub open spec fn quoted_at(bytes: Seq<u8>, i: int) -> bool {
    exists|q: int| quoted_from(bytes, q, i)
}

/// The index at which the line of an index starts.
pub open spec fn line_start(bytes: Seq<u8>, i: int) -> int
    decreases i,
{
    if i <= 0 || bytes[i - 1] == position::LINE_FEED {
        i
    } else {
        line_start(bytes, i - 1)
    }
}

/// Whether the line of an index starts with a number sign.
pub open spec fn is_comment(bytes: Seq<u8>, i: int) -> bool {
    bytes[line_start(bytes, i)] == 35
}

/// Whether an odd number of backslashes stands right before an index, so that a character there is
/// escaped.
pub open spec fn is_escaped(bytes: Seq<u8>, i: int) -> bool
    decreases i,
{
    i > 0 && bytes[i - 1] == 92 && !is_escaped(bytes, i - 1)
}

/// Whether an escape that starts at an index may lie in a string literal.
pub open spec fn may_escape(bytes: Seq<u8>, i: int) -> bool {
    quoted_at(bytes, i) && !is_comment(bytes, i) && !is_escaped(bytes, i)
}

/// Whether the parser can take a source text: no unicode escape that may lie in a string literal
/// is cut short by a character outside ASCII, and the length leaves room for counting lines.
pub open spec fn is_parsable(source: Seq<char>) -> bool {
    let bytes = vstd::utf8::encode_utf8(source);
    &&& bytes.len() < usize::MAX
    &&& forall|i: int|
        0 <= i < bytes.len() && may_escape(bytes, i) ==> !#[trigger] cut_short(bytes, i)
}

/// Whether a unicode escape at an index is cut short by a character outside ASCII.
fn is_cut_short(bytes: &[u8], i: usize) -> (found: bool)
    requires
        i < bytes@.len() < usize::MAX,
    ensures
        found == cut_short(bytes@, i as int),
{
    if bytes[i] != 92 || bytes.len() - i < 3 {
        return false;
    }
    let digits: usize = if bytes[i + 1] == 117 {
        4
    } else if bytes[i + 1] == 85 {
        6
    } else {
        0
    };
    let mut n: usize = 0;
    while n < digits && n < bytes.len() - i - 2
        invariant
            0 <= n <= digits <= 6,
            i + 2 + n <= bytes@.len() < usize::MAX,
            bytes@[i as int] == 92,
            digits == escape_digits(bytes@[i + 1]),
            forall|k: int| i + 2 <= k < i + 2 + n ==> is_hex_digit(#[trigger] bytes@[k]),
        decreases digits - n,
    {
        let byte = bytes[i + 2 + n];
        if byte >= 128 {
            assert(cut_short_after(bytes@, i as int, n as int));
            return true;
        }
        let hex = (48 <= byte && byte <= 57) || (65 <= byte && byte <= 70) || (97 <= byte && byte
            <= 102);
        if !hex {
            proof {
                assert forall|m: int| !cut_short_after(bytes@, i as int, m) by {
                    if m > n {
                        assert(!is_hex_digit(bytes@[i + 2 + n]));
                    } else if m < n && cut_short_after(bytes@, i as int, m) {
                        assert(is_hex_digit(bytes@[i + 2 + m]));
                    }
                }
            }
            return false;
        }
        n = n + 1;
    }
    proof {
        assert forall|m: int| !cut_short_after(bytes@, i as int, m) by {
            if m < n && cut_short_after(bytes@, i as int, m) {
                assert(is_hex_digit(bytes@[i + 2 + m]));
            }
        }
    }
    false
}

/// Whether the parser can take a source text.
pub fn check_parsable(source: &str) -> (parsable: bool)
    ensures
        parsable == is_parsable(source@),
{
    let bytes = source.as_bytes();
    let ghost all = vstd::utf8::encode_utf8(source@);
    if bytes.len() == usize::MAX {
        return false;
    }
    let mut pending = false;
    let mut held = false;
    let mut quoted = false;
    let mut comment = false;
    let mut escaped = false;
    let mut start: usize = 0;
    let mut i: usize = 0;
    while i < bytes.len()
        invariant
            bytes@ == all,
            all == vstd::utf8::encode_utf8(source@),
            i <= all.len() < usize::MAX,
            start == line_start(all, i as int),
            start <= i,
            start < i ==> comment == (all[start as int] == 35),
            pending == pending_at(all, i as int),
            held == held_at(all, i as int),
            quoted == quoted_at(all, i as int),
            escaped == is_escaped(all, i as int),
            forall|k: int| 0 <= k < i && may_escape(all, k) ==> !#[trigger] cut_short(all, k),
        decreases all.len() - i,
    {
        let byte = bytes[i];
        if start == i {
            comment = byte == 35;
        }
        if quoted && !comment && !escaped && is_cut_short(bytes, i) {
            return false;
        }
        proof {
            lemma_quoted_step(all, i as int);
            lemma_braced_step(all, i as int);
        }
        if byte == position::LINE_FEED {
            quoted = false;
            start = i + 1;
        } else if byte == 34 && (pending || held) {
            quoted = true;
        }
        held = held || (pending && (byte == 34 || byte == 123));
        pending = byte == 123 || (pending && byte != 34 && byte != 125);
        escaped = byte == 92 && !escaped;
        i = i + 1;
    }
    true
}

/// How one byte changes whether a double quote has come up on the line, behind an opening brace.
proof fn lemma_quoted_step(bytes: Seq<u8>, i: int)
    requires
        0 <= i < bytes.len(),
    ensures
        quoted_at(bytes, i + 1) == (bytes[i] != position::LINE_FEED && (bytes[i] == 34 && braced_at(
            bytes,
            i,
        ) || quoted_at(bytes, i))),
{
    if bytes[i] != position::LINE_FEED {
        if bytes[i] == 34 && braced_at(bytes, i) {
            assert(quoted_from(bytes, i, i + 1));
        } else if quoted_at(bytes, i) {
            let q = choose|q: int| quoted_from(bytes, q, i);
            assert(quoted_from(bytes, q, i + 1));
        }
    }
    if quoted_at(bytes, i + 1) {
        let next = i + 1;
        let q = choose|q: int| quoted_from(bytes, q, next);
        assert(bytes[i] != position::LINE_FEED);
        if q < i {
            assert(quoted_from(bytes, q, i));
        }
    }
}

} // verus!
