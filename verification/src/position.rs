//! Line and column numbers of byte positions.

use vstd::prelude::*;

verus! {

/// The byte that ends a line.
pub const LINE_FEED: u8 = 10;

/// The number of line feeds among `bytes`.
pub open spec fn line_feeds(bytes: Seq<u8>) -> nat {
    bytes.filter(|b: u8| b == LINE_FEED).len()
}

/// The number of bytes behind the last line feed of `bytes`, or all of them where there is none.
pub open spec fn tail_length(bytes: Seq<u8>) -> nat
    decreases bytes.len(),
{
    if bytes.len() == 0 || bytes.last() == LINE_FEED {
        0
    } else {
        tail_length(bytes.drop_last()) + 1
    }
}

/// The bytes of a text before a position, or all of them where the position lies behind the end.
pub open spec fn bytes_before(bytes: Seq<u8>, position: int) -> Seq<u8> {
    if position <= bytes.len() {
        bytes.take(position)
    } else {
        bytes
    }
}

/// The line of a position, counted from one.
pub open spec fn line_at(bytes: Seq<u8>, position: int) -> nat {
    line_feeds(bytes_before(bytes, position)) + 1
}

/// The column of a position in its line, in bytes and counted from one.
pub open spec fn column_at(bytes: Seq<u8>, position: int) -> nat {
    tail_length(bytes_before(bytes, position)) + 1
}

/// Whether a position lies behind the text or in front of one of its characters.
pub open spec fn is_text_position(bytes: Seq<u8>, position: int) -> bool {
    position >= bytes.len() || vstd::utf8::is_char_boundary(bytes, position)
}

/// The line and the column of a byte position, both counted from one.
///
/// A position behind the end counts as the end. A position inside a character is ruled out.
pub fn byte_pos_to_line_col(source: &str, byte_pos: usize) -> (line_col: (usize, usize))
    requires
        vstd::utf8::encode_utf8(source@).len() < usize::MAX,
        is_text_position(vstd::utf8::encode_utf8(source@), byte_pos as int),
    ensures
        line_col.0 == line_at(vstd::utf8::encode_utf8(source@), byte_pos as int),
        line_col.1 == column_at(vstd::utf8::encode_utf8(source@), byte_pos as int),
{
    let bytes = source.as_bytes();
    let end: usize = if byte_pos < bytes.len() {
        byte_pos
    } else {
        bytes.len()
    };
    let ghost all = vstd::utf8::encode_utf8(source@);
    let mut line: usize = 1;
    let mut column: usize = 1;
    let mut i: usize = 0;
    while i < end
        invariant
            bytes@ == all,
            i <= end <= all.len() < usize::MAX,
            line == line_feeds(all.take(i as int)) + 1,
            column == tail_length(all.take(i as int)) + 1,
            line <= i + 1,
            column <= i + 1,
        decreases end - i,
    {
        proof {
            reveal(Seq::filter);
            assert(all.take(i + 1).drop_last() =~= all.take(i as int));
        }
        if bytes[i] == LINE_FEED {
            line = line + 1;
            column = 1;
        } else {
            column = column + 1;
        }
        i = i + 1;
    }
    proof {
        assert(all.take(end as int) =~= bytes_before(all, byte_pos as int));
    }
    (line, column)
}

} // verus!
