//! How numbers, dates, places and errors read.

use crate::date;
use crate::errors;
use crate::position;
use crate::store;
use crate::text;
use vstd::prelude::*;

verus! {

// Numbers

/// Whether a text consists of decimal digits.
pub open spec fn is_digits(text: Seq<char>) -> bool {
    forall|i: int| 0 <= i < text.len() ==> '0' <= #[trigger] text[i] <= '9'
}

/// The number that decimal digits spell.
pub open spec fn digits_value(text: Seq<char>) -> int
    decreases text.len(),
{
    if text.len() == 0 {
        0
    } else {
        10 * digits_value(text.drop_last()) + (text.last() as int - '0' as int)
    }
}

/// The decimal notation of a number consists of digits, spells the number, and has no leading zero.
pub proof fn law_decimals_spell_numbers(n: nat)
    ensures
        text::decimal(n).len() > 0,
        is_digits(text::decimal(n)),
        digits_value(text::decimal(n)) == n,
        text::decimal(n).len() > 1 ==> text::decimal(n)[0] != '0',
    decreases n,
{
    let whole = text::decimal(n);
    if n < 10 {
        assert(whole.drop_last() =~= Seq::empty());
        assert(digits_value(whole.drop_last()) == 0);
        assert(whole.last() == text::digit(n));
    } else {
        let front = text::decimal(n / 10);
        law_decimals_spell_numbers(n / 10);
        assert(whole.drop_last() =~= front);
        assert(whole.last() == text::digit(n % 10));
        assert(whole[0] == front[0]);
        if front.len() == 1 {
            assert(front =~= seq![front[0]]);
            assert(front.drop_last() =~= Seq::empty());
            assert(digits_value(front.drop_last()) == 0);
        }
    }
}

/// Few digits suffice for small numbers.
proof fn lemma_decimal_length(n: nat)
    ensures
        n < 10 ==> text::decimal(n).len() == 1,
        n < 100 ==> text::decimal(n).len() <= 2,
        n < 1000 ==> text::decimal(n).len() <= 3,
        n < 10000 ==> text::decimal(n).len() <= 4,
        n >= 10000 ==> text::decimal(n).len() > 4,
{
    reveal_with_fuel(text::decimal, 5);
}

/// Leading zeros do not change the number.
proof fn lemma_leading_zeros(zeros: nat, digits: Seq<char>)
    requires
        is_digits(digits),
    ensures
        is_digits(Seq::new(zeros, |i: int| '0') + digits),
        digits_value(Seq::new(zeros, |i: int| '0') + digits) == digits_value(digits),
    decreases digits.len(), zeros,
{
    let whole = Seq::new(zeros, |i: int| '0') + digits;
    if digits.len() > 0 {
        let front = digits.drop_last();
        assert forall|i: int| 0 <= i < front.len() implies '0' <= #[trigger] front[i] <= '9' by {
            assert(front[i] == digits[i]);
        }
        lemma_leading_zeros(zeros, front);
        assert(whole.drop_last() =~= Seq::new(zeros, |i: int| '0') + front);
    } else if zeros > 0 {
        lemma_leading_zeros((zeros - 1) as nat, digits);
        assert(whole.drop_last() =~= Seq::new((zeros - 1) as nat, |i: int| '0') + digits);
    }
}

/// A padded number consists of digits and spells the number. It is as wide as asked for, or as the
/// number needs.
pub proof fn law_padding_keeps_numbers(n: nat, width: nat)
    ensures
        is_digits(date::padded(n, width)),
        digits_value(date::padded(n, width)) == n,
        date::padded(n, width).len() == if text::decimal(n).len() < width {
            width
        } else {
            text::decimal(n).len()
        },
{
    let digits = text::decimal(n);
    law_decimals_spell_numbers(n);
    if digits.len() < width {
        lemma_leading_zeros((width - digits.len()) as nat, digits);
    }
}

// Dates

/// A date exists exactly in the months and on the days of the Gregorian calendar: the months have
/// 31 days but for four of them, which have 30, and for February, which has 28 and every fourth year
/// 29, except in the years of a century that four hundred does not divide. Years are taken as far as
/// `chrono` takes them.
pub proof fn law_dates_follow_the_calendar(year: int, month: int, day: int)
    ensures
        date::is_date(date::DateView { year, month, day }) <==> -262143 <= year <= 262142 && (
        1 <= day <= 28 && 1 <= month <= 12 || 29 <= day <= 30 && 1 <= month <= 12 && month != 2
            || day == 31 && (month == 1 || month == 3 || month == 5 || month == 7 || month == 8
            || month == 10 || month == 12) || day == 29 && month == 2 && year % 4 == 0 && !(year
            % 100 == 0 && year % 400 != 0)),
{
}

/// The notation of a date gives the year, the month and the day in that order, with hyphens between
/// them and each in decimal digits that spell it: the year in four of them where they suffice, month
/// and day in two. Only a year below zero or above 9999 has a sign.
pub proof fn law_dates_read_back(year: int, month: int, day: int) -> (parts: (
    Seq<char>,
    Seq<char>,
    Seq<char>,
))
    requires
        date::is_date(date::DateView { year, month, day }),
    ensures
        is_digits(parts.0),
        is_digits(parts.1),
        is_digits(parts.2),
        digits_value(parts.0) == if year < 0 {
            -year
        } else {
            year
        },
        digits_value(parts.1) == month,
        digits_value(parts.2) == day,
        -9999 <= year <= 9999 ==> parts.0.len() == 4,
        parts.0.len() > 4 ==> parts.0[0] != '0',
        parts.1.len() == 2,
        parts.2.len() == 2,
        date::iso_date(date::DateView { year, month, day }) == (if year < 0 {
            seq!['-']
        } else if year > 9999 {
            seq!['+']
        } else {
            Seq::empty()
        }) + parts.0 + seq!['-'] + parts.1 + seq!['-'] + parts.2,
{
    reveal_strlit("-");
    reveal_strlit("+");
    assert("-"@ =~= seq!['-']);
    assert("+"@ =~= seq!['+']);
    let magnitude = if year < 0 {
        (-year) as nat
    } else {
        year as nat
    };
    let parts = (
        date::padded(magnitude, 4),
        date::padded(month as nat, 2),
        date::padded(day as nat, 2),
    );
    law_padding_keeps_numbers(magnitude, 4);
    law_padding_keeps_numbers(month as nat, 2);
    law_padding_keeps_numbers(day as nat, 2);
    lemma_decimal_length(magnitude);
    lemma_decimal_length(month as nat);
    lemma_decimal_length(day as nat);
    law_decimals_spell_numbers(magnitude);
    let sign = if year < 0 {
        seq!['-']
    } else if year > 9999 {
        seq!['+']
    } else {
        Seq::empty()
    };
    assert(date::year_text(year) =~= sign + parts.0);
    assert(date::iso_date(date::DateView { year, month, day }) =~= sign + parts.0 + seq!['-']
        + parts.1 + seq!['-'] + parts.2);
    parts
}

// Places

/// Lines and columns of a place behind the end are those of the end.
pub proof fn law_places_end_with_the_text(bytes: Seq<u8>, at: int)
    requires
        at >= bytes.len(),
    ensures
        position::line_at(bytes, at) == position::line_at(bytes, bytes.len() as int),
        position::column_at(bytes, at) == position::column_at(bytes, bytes.len() as int),
{
    assert(bytes.take(bytes.len() as int) =~= bytes);
}

// Lists

/// Joined texts begin with the first of them, whole, and go on with the separator and with the
/// others joined. Joining one text leaves it as it is, and joining none gives nothing.
pub proof fn law_joined_texts(first: Seq<char>, others: Seq<Seq<char>>, separator: Seq<char>)
    ensures
        text::joined(Seq::empty(), separator).len() == 0,
        text::joined(seq![first], separator) == first,
        others.len() > 0 ==> text::joined(seq![first] + others, separator) == first + separator
            + text::joined(others, separator),
    decreases others.len(),
{
    let all = seq![first] + others;
    if others.len() > 0 {
        let front = others.drop_last();
        law_joined_texts(first, front, separator);
        assert(all.drop_last() =~= seq![first] + front);
        if others.len() == 1 {
            assert(all.drop_last() =~= seq![first]);
            assert(text::joined(all, separator) =~= first + separator + text::joined(
                others,
                separator,
            ));
        } else {
            assert(text::joined(all, separator) =~= first + separator + text::joined(
                others,
                separator,
            ));
        }
    }
}

// Errors

/// A parsing error reads as its line, its column and what the parser says, behind the name of the
/// file where there is one.
pub proof fn law_parsing_errors_read(detail: errors::ParseErrorDetailView)
    ensures
        detail.filename is None ==> detail.str() == text::decimal(detail.line) + seq![':']
            + text::decimal(detail.column) + seq![':', ' '] + detail.message,
        detail.filename matches Some(filename) ==> detail.str() == filename + seq![':']
            + text::decimal(detail.line) + seq![':'] + text::decimal(detail.column)
            + seq![':', ' '] + detail.message,
        forall|message: Seq<char>| #[trigger]
            detail.repr_with(message) == "ParseErrorDetail(message="@ + message + ", line="@
                + text::decimal(detail.line) + ", column="@ + text::decimal(detail.column)
                + ", byte_start="@ + text::decimal(detail.byte_start as nat) + ", byte_end="@
                + text::decimal(detail.byte_end as nat) + ")"@,
        detail.repr() == detail.repr_with(text::quoted(detail.message)),
{
    reveal_strlit(":");
    reveal_strlit(": ");
    assert(":"@ =~= seq![':']);
    assert(": "@ =~= seq![':', ' ']);
    match detail.filename {
        Some(filename) => {
            assert(detail.str() =~= filename + seq![':'] + text::decimal(detail.line) + seq![':']
                + text::decimal(detail.column) + seq![':', ' '] + detail.message);
        },
        None => {},
    }
}

/// A validation error reads as its type and what it says, with the message it lies in between them
/// where there is one.
pub proof fn law_validation_errors_read(error: errors::ValidationErrorView)
    ensures
        error.message_id is None ==> error.str() == error.error_type + seq![':', ' ']
            + error.message,
        error.message_id matches Some(id) ==> error.str() == error.error_type + " in '"@ + id
            + "': "@ + error.message,
        error.repr() == "ValidationError(type="@ + text::quoted(error.error_type) + ", message="@
            + text::quoted(error.message) + ", message_id="@ + (match error.message_id {
            Some(id) => "Some("@ + text::quoted(id) + ")"@,
            None => "None"@,
        }) + ")"@,
        forall|error_type: Seq<char>, message: Seq<char>, message_id: Seq<char>| #[trigger]
            errors::ValidationErrorView::repr_with(error_type, message, message_id)
                == "ValidationError(type="@ + error_type + ", message="@ + message
                + ", message_id="@ + message_id + ")"@,
{
    reveal_strlit(": ");
    assert(": "@ =~= seq![':', ' ']);
}

/// A formatting error reads as its type and what it says.
pub proof fn law_formatting_errors_read(error: errors::FormatErrorView)
    ensures
        error.str() == error.error_type + seq![':', ' '] + error.message,
        error.repr() == "FormatError(type="@ + text::quoted(error.error_type) + ", message="@
            + text::quoted(error.message) + ")"@,
        forall|error_type: Seq<char>, message: Seq<char>| #[trigger]
            errors::FormatErrorView::repr_with(error_type, message) == "FormatError(type="@
                + error_type + ", message="@ + message + ")"@,
{
    reveal_strlit(": ");
    assert(": "@ =~= seq![':', ' ']);
}

/// An error of the store becomes a formatting error that says the same, with the name of its class
/// for a type. Of a list, each becomes one, in order.
pub proof fn law_store_errors_are_told(list: Seq<store::FluentErrorView>)
    ensures
        errors::format_errors(list).len() == list.len(),
        forall|i: int|
            0 <= i < list.len() ==> {
                let told = #[trigger] errors::format_errors(list)[i];
                &&& told == errors::format_error(list[i])
                &&& told.message == list[i].message
                &&& list[i].class is Overriding ==> told.error_type == "Overriding"@
                &&& list[i].class is ParserError ==> told.error_type == "ParserError"@
                &&& list[i].class is ResolverError ==> told.error_type == "ResolverError"@
            },
{
}

} // verus!
