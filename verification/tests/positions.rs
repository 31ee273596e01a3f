//! Lines and columns, decimal numbers, dates, and the inputs that the parser cannot take.

use rustfluent::date::date_text;
use rustfluent::escapes::check_parsable;
use rustfluent::nesting::{check_escapes, check_fraction};
use rustfluent::position::byte_pos_to_line_col;
use rustfluent::text::{decimal_text, join, quoted_option_text, same_text};

#[test]
fn the_start_is_line_one_column_one() {
    assert_eq!(byte_pos_to_line_col("", 0), (1, 1));
    assert_eq!(byte_pos_to_line_col("hello", 0), (1, 1));
}

#[test]
fn lines_and_columns_go_on_byte_by_byte() {
    let source = "hello\nworld";
    assert_eq!(byte_pos_to_line_col(source, 4), (1, 5));
    assert_eq!(byte_pos_to_line_col(source, 5), (1, 6));
    assert_eq!(byte_pos_to_line_col(source, 6), (2, 1));
    assert_eq!(byte_pos_to_line_col(source, 8), (2, 3));
}

#[test]
fn positions_behind_the_end_count_as_the_end() {
    assert_eq!(byte_pos_to_line_col("hello\nworld", 11), (2, 6));
    assert_eq!(byte_pos_to_line_col("hello\nworld", 4000), (2, 6));
    assert_eq!(byte_pos_to_line_col("hello\n", 4000), (2, 1));
    assert_eq!(byte_pos_to_line_col("", 7), (1, 1));
}

#[test]
fn columns_count_bytes_and_lines_count_line_feeds() {
    let source = "é\né\n\nx";
    assert_eq!(byte_pos_to_line_col(source, 2), (1, 3));
    assert_eq!(byte_pos_to_line_col(source, 3), (2, 1));
    assert_eq!(byte_pos_to_line_col(source, 5), (2, 3));
    assert_eq!(byte_pos_to_line_col(source, 6), (3, 1));
    assert_eq!(byte_pos_to_line_col(source, 7), (4, 1));
    assert_eq!(byte_pos_to_line_col("a\r\nb", 3), (2, 1));
}

#[test]
fn numbers_are_written_in_decimal() {
    assert_eq!(decimal_text(0), "0");
    assert_eq!(decimal_text(7), "7");
    assert_eq!(decimal_text(10), "10");
    assert_eq!(decimal_text(1234567890), "1234567890");
    assert_eq!(decimal_text(usize::MAX), format!("{}", usize::MAX));
}

#[test]
fn texts_are_joined_and_compared() {
    let list = vec!["a".to_owned(), "-b".to_owned(), "a".to_owned()];
    assert_eq!(join(&list, " -> "), "a -> -b -> a");
    assert_eq!(join(&vec!["a".to_owned()], " -> "), "a");
    assert_eq!(join(&Vec::new(), " -> "), "");
    assert!(same_text("é", "é"));
    assert!(!same_text("a", "A"));
}

#[test]
fn optional_texts_are_quoted() {
    assert_eq!(quoted_option_text(&Some("a\"b\n".to_owned())), "Some(\"a\\\"b\\n\")");
    assert_eq!(quoted_option_text(&None), "None");
}

#[test]
fn dates_are_written_with_hyphens() {
    assert_eq!(date_text(2024, 2, 29), Some("2024-02-29".to_owned()));
    assert_eq!(date_text(1999, 12, 31), Some("1999-12-31".to_owned()));
    assert_eq!(date_text(5, 1, 2), Some("0005-01-02".to_owned()));
    assert_eq!(date_text(0, 1, 1), Some("0000-01-01".to_owned()));
    assert_eq!(date_text(-1, 1, 1), Some("-0001-01-01".to_owned()));
    assert_eq!(date_text(9999, 1, 1), Some("9999-01-01".to_owned()));
    assert_eq!(date_text(10000, 1, 1), Some("+10000-01-01".to_owned()));
    assert_eq!(date_text(262142, 12, 31), Some("+262142-12-31".to_owned()));
    assert_eq!(date_text(-262143, 1, 1), Some("-262143-01-01".to_owned()));
}

#[test]
fn dates_that_do_not_exist_are_not_written() {
    assert_eq!(date_text(2023, 2, 29), None);
    assert_eq!(date_text(1900, 2, 29), None);
    assert_eq!(date_text(2000, 2, 30), None);
    assert_eq!(date_text(2024, 4, 31), None);
    assert_eq!(date_text(2024, 0, 1), None);
    assert_eq!(date_text(2024, 13, 1), None);
    assert_eq!(date_text(2024, 1, 0), None);
    assert_eq!(date_text(2024, 1, 32), None);
    assert_eq!(date_text(262143, 1, 1), None);
    assert_eq!(date_text(-262144, 1, 1), None);
}

#[test]
fn escapes_that_are_cut_short_cannot_be_parsed() {
    assert!(!check_parsable("key = { \"\\u00é\" }\n"));
    assert!(!check_parsable("key = { \"\\U1F60é\" }\n"));
    assert!(!check_parsable("key = { \"\\ué\" }\n"));
}

#[test]
fn other_texts_can_be_parsed() {
    assert!(check_parsable(""));
    assert!(check_parsable("key = é\n"));
    assert!(check_parsable("key = { \"é\\u00e9é\" }\n"));
    assert!(check_parsable("key = { \"\\u00\" }\n"));
    assert!(check_parsable("key = \\u00é\n"));
    assert!(check_parsable("key = { \"a\" }\nother = \\u00é\n"));
    assert!(check_parsable("key = { \"\\U01F602é\" }\n"));
    assert!(check_parsable("#\"\\uñ\n"));
    assert!(check_parsable("a = { b }\n## \"\\uñ\"\n"));
    assert!(check_parsable("key = { \"\\\\ué\" }\n"));
    assert!(check_parsable("key = say \"\\ué\"\n"));
    assert!(check_parsable("a = { $x } \"\\ué\n"));
    assert!(check_parsable("a = { $x ->\n   *[y] z\n } \"\\ué\n"));
}

#[test]
fn braces_that_may_be_open_are_told_from_closed_ones() {
    assert!(!check_parsable("a = { F({ $x }, \"\\ué\") }\n"));
    assert!(!check_parsable("a = { F(\"}\", \"\\ué\") }\n"));
    assert!(!check_parsable("a = { $x } { \"\\ué\" }\n"));
}

#[test]
fn backslashes_are_paired_off_before_an_escape() {
    assert!(!check_parsable("key = { \"\\\\\\ué\" }\n"));
    assert!(!check_parsable("key = {\n\"\\ué\" }\n"));
    assert!(!check_parsable("key = { \"#\\ué\" }\n"));
}

#[test]
fn whole_escapes_are_told_from_others() {
    for whole in ["", "text é", "\\\\", "\\\"", "\\{", "\\u00e9é", "\\U01F602", "\\\\u"] {
        assert!(check_escapes(whole), "{}", whole);
    }
    for broken in ["\\", "\\é", "\\n", "\\u00e", "\\u00eg", "\\U01F60", "\\\\\\"] {
        assert!(!check_escapes(broken), "{}", broken);
    }
}

#[test]
fn digits_behind_the_point_are_counted() {
    assert!(check_fraction("12345678901234567890123"));
    assert!(check_fraction("-1.1234567890123456789"));
    assert!(!check_fraction("1.12345678901234567890"));
    assert!(check_fraction("1."));
    assert!(check_fraction(""));
}
