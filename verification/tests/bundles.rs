//! Making bundles and asking them for translations.

use rustfluent::errors::{FormatError, ValidationError};
use rustfluent::lookup::split;
use rustfluent::translations::{
    settle, Bundle, BundleError, SourceFile, Translation, TranslationError,
};
use rustfluent::variables::{Variable, VariableKey, VariableValue};

fn file(path: &str, contents: &str) -> SourceFile {
    SourceFile { path: path.to_owned(), contents: Some(contents.to_owned()) }
}

fn made(contents: &[&str]) -> Bundle {
    let files = contents.iter().map(|text| file("f.ftl", text)).collect();
    Bundle::new("en-US", &files, false, false).ok().unwrap()
}

fn refused(files: Vec<SourceFile>, strict: bool, validate: bool) -> BundleError {
    Bundle::new("en", &files, strict, validate).err().unwrap()
}

fn text(key: &str, value: &str) -> Variable {
    Variable {
        key: VariableKey::Text(key.to_owned()),
        value: VariableValue::Text(value.to_owned()),
    }
}

fn of(key: &str, value: VariableValue) -> Variable {
    Variable { key: VariableKey::Text(key.to_owned()), value }
}

fn translated(bundle: &mut Bundle, identifier: &str, variables: Vec<Variable>) -> Translation {
    bundle.get_translation(identifier, Some(&variables), false).unwrap()
}

fn plain(text: &str) -> Translation {
    Translation { text: text.to_owned(), errors: Vec::new() }
}

#[test]
fn messages_and_attributes_are_translated() {
    let mut bundle = made(&["hello = Hello\n    .title = Title\n    .title = Second\nonly =\n    .a = A\n"]);
    assert_eq!(translated(&mut bundle, "hello", Vec::new()), plain("Hello"));
    assert_eq!(translated(&mut bundle, "hello.title", Vec::new()), plain("Title"));
    assert_eq!(translated(&mut bundle, "only.a", Vec::new()), plain("A"));
    assert_eq!(bundle.get_translation("hello", None, true), Ok(plain("Hello")));
}

#[test]
fn what_is_not_there_is_told() {
    let mut bundle = made(&["hello = Hello\n    .title = T\nonly =\n    .a = A\n-term = Term\n"]);
    let mut told = |identifier: &str| bundle.get_translation(identifier, None, true).unwrap_err();
    let value = |message: &str| TranslationError::Value(message.to_owned());
    assert_eq!(told("missing"), value("missing not found"));
    assert_eq!(told("missing.title"), value("missing not found"));
    assert_eq!(told("term"), value("term not found"));
    assert_eq!(told("-term"), value("-term not found"));
    assert_eq!(told(""), value(" not found"));
    assert_eq!(told("only"), value("only - Message has no value."));
    assert_eq!(
        told("hello.x"),
        value("hello.x - Attribute 'x' not found on message 'hello'.")
    );
    assert_eq!(
        told("hello.title.x"),
        value("hello.title.x - Attribute 'title.x' not found on message 'hello'.")
    );
    assert_eq!(told("hello."), value("hello. - Attribute '' not found on message 'hello'."));
}

#[test]
fn identifiers_split_at_the_first_full_stop() {
    assert_eq!(split("a"), ("a", None));
    assert_eq!(split("a.b"), ("a", Some("b")));
    assert_eq!(split("a.b.c"), ("a", Some("b.c")));
    assert_eq!(split(".a"), ("", Some("a")));
    assert_eq!(split("é."), ("é", Some("")));
    assert_eq!(split(""), ("", None));
}

#[test]
fn variables_are_set() {
    let mut bundle = made(&["m = { $t } { $n } { $d }\n"]);
    let variables = vec![
        text("t", "text"),
        of("n", VariableValue::Integer(Some(-42))),
        of("d", VariableValue::Date { year: 2024, month: 2, day: 3 }),
    ];
    assert_eq!(translated(&mut bundle, "m", variables), plain("text -42 2024-02-03"));
}

#[test]
fn integers_choose_plural_forms() {
    let source = "m = { $n ->\n    [one] one\n    [7] seven\n   *[other] many\n }\n";
    let mut bundle = made(&[source]);
    let mut chosen = |n: i32| {
        let variables = vec![of("n", VariableValue::Integer(Some(n)))];
        translated(&mut bundle, "m", variables).text
    };
    assert_eq!(chosen(1), "one");
    assert_eq!(chosen(7), "seven");
    assert_eq!(chosen(2), "many");
}

#[test]
fn the_language_decides_on_plural_forms() {
    let source = "m = { $n ->\n    [few] few\n   *[other] other\n }\n";
    for (language, expected) in [("pl", "few"), ("en", "other")] {
        let files = vec![file("f.ftl", source)];
        let mut bundle = Bundle::new(language, &files, true, false).ok().unwrap();
        let variables = vec![of("n", VariableValue::Integer(Some(3)))];
        assert_eq!(translated(&mut bundle, "m", variables), plain(expected));
    }
}

#[test]
fn the_last_variable_of_a_key_counts() {
    let mut bundle = made(&["m = { $t }\n"]);
    let variables = vec![text("t", "first"), text("t", "second")];
    assert_eq!(translated(&mut bundle, "m", variables), plain("second"));
}

#[test]
fn values_that_are_not_taken_fall_back_to_their_keys() {
    let mut bundle = made(&["m = { $a } { $b } { $c }\n"]);
    let variables = vec![
        of("a", VariableValue::Other),
        of("b", VariableValue::Integer(None)),
        of("c", VariableValue::Date { year: 2023, month: 2, day: 29 }),
    ];
    let outcome = translated(&mut bundle, "m", variables);
    assert_eq!(outcome.text, "a b c");
    let expected: Vec<FormatError> = ["a", "b", "c"]
        .iter()
        .map(|key| FormatError {
            error_type: "InvalidVariableType".to_owned(),
            message: format!(
                "Variable '{}' has unsupported type, expected str/int/date. Using key as fallback.",
                key
            ),
        })
        .collect();
    assert_eq!(outcome.errors, expected);
}

#[test]
fn keys_that_are_not_texts_are_refused() {
    let mut bundle = made(&["m = { $a }\n"]);
    let variables = vec![
        text("a", "x"),
        Variable { key: VariableKey::Other("5".to_owned()), value: VariableValue::Other },
    ];
    assert_eq!(
        bundle.get_translation("m", Some(&variables), true),
        Err(TranslationError::Type("Variable key not a str, got 5.".to_owned()))
    );
    assert_eq!(
        bundle.get_translation("missing", Some(&variables), true),
        Err(TranslationError::Value("missing not found".to_owned()))
    );
}

#[test]
fn errors_on_variables_come_before_those_of_the_formatting() {
    let mut bundle = made(&["m = { $a } { $missing } { gone }\n"]);
    let outcome = translated(&mut bundle, "m", vec![of("a", VariableValue::Other)]);
    assert_eq!(outcome.text, "a {$missing} {gone}");
    let types: Vec<&str> = outcome.errors.iter().map(|e| e.error_type.as_str()).collect();
    assert_eq!(types, vec!["InvalidVariableType", "ResolverError", "ResolverError"]);
    assert_eq!(outcome.errors[1].message, "Resolver error: Unknown variable: $missing");
    assert_eq!(outcome.errors[2].message, "Resolver error: Unknown message: gone");
}

#[test]
fn cycles_show_up_in_formatting() {
    let mut bundle = made(&["a = { b }\nb = { a }\n"]);
    let outcome = translated(&mut bundle, "a", Vec::new());
    assert_eq!(outcome.errors[0].message, "Resolver error: Cyclical dependency detected");
}

#[test]
fn directionality_marks_are_a_matter_of_the_call() {
    let mut bundle = made(&["m = Hi { $t }!\n"]);
    let variables = vec![text("t", "you")];
    let mut asked = |isolating: bool| {
        bundle.get_translation("m", Some(&variables), isolating).unwrap().text
    };
    assert_eq!(asked(true), "Hi \u{2068}you\u{2069}!");
    assert_eq!(asked(false), "Hi you!");
    assert_eq!(asked(true), "Hi \u{2068}you\u{2069}!");
}

#[test]
fn later_definitions_override() {
    let mut bundle = made(&["a = 1\nb = 1\na = 2\n", "b = 3\n"]);
    assert_eq!(translated(&mut bundle, "a", Vec::new()), plain("2"));
    assert_eq!(translated(&mut bundle, "b", Vec::new()), plain("3"));
}

#[test]
fn a_term_takes_the_place_of_a_message() {
    let mut bundle = made(&["a = message\n", "-a = term\n"]);
    assert_eq!(
        bundle.get_translation("a", None, true),
        Err(TranslationError::Value("a not found".to_owned()))
    );
    let mut other = made(&["-a = term\n", "a = message\n"]);
    assert_eq!(translated(&mut other, "a", Vec::new()), plain("message"));
}

#[test]
fn terms_are_used_by_messages() {
    let mut bundle = made(&["-brand = Firefox\nm = { -brand }\n"]);
    assert_eq!(translated(&mut bundle, "m", Vec::new()), plain("Firefox"));
}

#[test]
fn languages_are_checked_first() {
    let files = vec![SourceFile { path: "f.ftl".to_owned(), contents: None }];
    assert_eq!(
        Bundle::new("not a language!", &files, true, true).err().unwrap(),
        BundleError::InvalidLanguage("Invalid language: 'not a language!'".to_owned())
    );
    assert!(Bundle::empty("en-US").is_ok());
    assert_eq!(
        Bundle::empty("").err(),
        Bundle::new("", &Vec::new(), true, true).err()
    );
}

#[test]
fn files_that_cannot_be_read_are_told_by_index() {
    let files = vec![
        file("a.ftl", "a = 1\n"),
        SourceFile { path: "b.ftl".to_owned(), contents: None },
        SourceFile { path: "c.ftl".to_owned(), contents: None },
    ];
    assert_eq!(refused(files, false, true), BundleError::FileNotFound(1));
}

#[test]
fn strict_mode_stops_at_parser_errors() {
    let files = vec![file("dir/a.ftl", "a = 1\nno equals\n")];
    match refused(files, true, true) {
        BundleError::Parse(failure) => {
            assert_eq!(failure.title, "Error when parsing dir/a.ftl");
            assert_eq!(failure.source, "a = 1\nno equals\n");
            assert_eq!(failure.labels.len(), 1);
            assert_eq!(failure.labels[0].text, "Expected a token starting with \"=\"");
            assert_eq!((failure.labels[0].start, failure.labels[0].end), (9, 10));
            assert_eq!(
                failure.details[0].__str__(),
                "dir/a.ftl:2:4: Expected a token starting with \"=\""
            );
        }
        _ => panic!("not a failure to parse"),
    }
}

#[test]
fn the_other_mode_loads_what_parses() {
    let files = vec![file("a.ftl", "a = 1\nno equals\nb = 2\n")];
    let mut bundle = Bundle::new("en", &files, false, true).ok().unwrap();
    assert_eq!(bundle.get_compile_errors(), Vec::new());
    assert_eq!(translated(&mut bundle, "b", Vec::new()), plain("2"));
}

#[test]
fn strict_mode_stops_at_second_definitions() {
    let message = "Duplicate message: 'a'. Later definition will override.";
    let within = vec![file("a.ftl", "a = { gone }\na = 2\n")];
    assert_eq!(refused(within, true, true), BundleError::Invalid(message.to_owned()));
    let across = vec![file("a.ftl", "a = 1\n"), file("b.ftl", "a = 2\n")];
    assert_eq!(refused(across, true, false), BundleError::Invalid(message.to_owned()));
    let terms = vec![file("a.ftl", "-a = 1\n"), file("b.ftl", "-a = 2\n")];
    assert!(Bundle::new("en", &terms, true, true).is_ok());
}

#[test]
fn strict_mode_stops_at_faulty_references() {
    let files = vec![file("a.ftl", "a = 1\n"), file("dir/b.ftl", "b = { x } { y.z } { a }\n")];
    assert_eq!(
        refused(files, true, true),
        BundleError::Invalid("Found 2 reference error(s) in dir/b.ftl".to_owned())
    );
}

#[test]
fn strict_mode_stops_at_cycles() {
    let first = file("a.ftl", "a = 1\n");
    let selfish = file("c.ftl", "b = 1\nc = { a }\n");
    assert!(Bundle::new("en", &vec![first, selfish], true, true).is_ok());
    let path = "d.ftl";
    let faulty = || vec![cyclic_error(), cyclic_error()];
    assert_eq!(
        settle(path, true, true, Vec::new(), Vec::new(), faulty()),
        Err(BundleError::Invalid("Found 2 cyclic reference(s) in d.ftl".to_owned()))
    );
    assert_eq!(settle(path, false, true, Vec::new(), Vec::new(), faulty()), Ok(faulty()));
    assert_eq!(settle(path, true, false, Vec::new(), Vec::new(), faulty()), Ok(Vec::new()));
}

fn cyclic_error() -> ValidationError {
    ValidationError {
        error_type: "CyclicReference".to_owned(),
        message: "Cyclic reference detected: a -> a".to_owned(),
        message_id: Some("a".to_owned()),
        reference: None,
    }
}

#[test]
fn errors_are_kept_in_order() {
    let files = vec![file("a.ftl", "a = { b }\nb = { a }\na = { c }\nb = { b }\n")];
    let bundle = Bundle::new("en", &files, false, true).ok().unwrap();
    let told: Vec<String> = bundle.get_compile_errors().iter().map(|e| e.__str__()).collect();
    assert_eq!(
        told,
        vec![
            "DuplicateMessageId in 'a': Duplicate message: 'a'. Later definition will override.",
            "DuplicateMessageId in 'b': Duplicate message: 'b'. Later definition will override.",
            "UnknownMessage in 'a': Unknown message: b",
            "UnknownMessage in 'b': Unknown message: a",
            "UnknownMessage in 'a': Unknown message: c",
            "UnknownMessage in 'b': Unknown message: b",
            "CyclicReference in 'b': Cyclic reference detected: b -> b",
        ]
    );
}

#[test]
fn without_validation_only_second_definitions_are_kept() {
    let files = vec![file("a.ftl", "a = { a }\n"), file("b.ftl", "a = { gone }\n")];
    let bundle = Bundle::new("en", &files, false, false).ok().unwrap();
    let kept = bundle.get_compile_errors();
    assert_eq!(kept.len(), 1);
    assert_eq!(kept[0].error_type, "DuplicateMessageId");
}

#[test]
fn strict_bundles_keep_no_errors() {
    let files = vec![file("a.ftl", "a = 1\n    .t = T\n"), file("b.ftl", "b = { a } { a.t }\n")];
    let mut strict = Bundle::new("en", &files, true, true).ok().unwrap();
    let mut lenient = Bundle::new("en", &files, false, true).ok().unwrap();
    assert_eq!(strict.get_compile_errors(), Vec::new());
    assert_eq!(lenient.get_compile_errors(), Vec::new());
    assert_eq!(translated(&mut strict, "b", Vec::new()), plain("1 T"));
    assert_eq!(translated(&mut lenient, "b", Vec::new()), plain("1 T"));
}

#[test]
fn files_are_added_one_by_one() {
    let mut bundle = Bundle::empty("en").ok().unwrap();
    assert_eq!(bundle.add_file("a.ftl", "a = 1\n".to_owned(), true, true), Ok(()));
    let stopped = bundle.add_file("b.ftl", "b = 2\na = 2\n".to_owned(), true, true);
    assert!(stopped.is_err());
    assert_eq!(translated(&mut bundle, "a", Vec::new()), plain("1"));
    assert_eq!(
        bundle.get_translation("b", None, true),
        Err(TranslationError::Value("b not found".to_owned()))
    );
    assert_eq!(bundle.add_file("b.ftl", "b = 2\na = 2\n".to_owned(), false, true), Ok(()));
    assert_eq!(bundle.get_compile_errors().len(), 1);
    assert_eq!(translated(&mut bundle, "a", Vec::new()), plain("2"));
}

#[test]
fn nested_placeables_are_translated() {
    let mut bundle = made(&[
        "a = { { b } }\nb = B\nc = { 1 ->\n    [one] { b }\n   *[other] x\n }\nd = { { d } }\n",
    ]);
    for (identifier, expected) in [("a", "B"), ("c", "B")] {
        assert!(bundle.formats_safely(identifier));
        assert_eq!(translated(&mut bundle, identifier, Vec::new()), plain(expected));
    }
    assert!(bundle.formats_safely("d"));
    let outcome = translated(&mut bundle, "d", Vec::new());
    assert_eq!(outcome.text, "{d}");
    assert_eq!(outcome.errors[0].message, "Resolver error: Cyclical dependency detected");
}

#[test]
fn nested_placeables_are_counted_up_to_the_limit() {
    let wide = |count: usize| format!("a = {}\nb = x\n", "{ { b } }".repeat(count));
    let mut bundle = made(&[&wide(100)]);
    assert!(bundle.formats_safely("a"));
    assert_eq!(translated(&mut bundle, "a", Vec::new()), plain(&"x".repeat(100)));
    assert!(!made(&[&wide(101)]).formats_safely("a"));
    let half = |count: usize| format!("h = {}\nb = x\n", "{ b }".repeat(count));
    let twice = "a = { { h } }{ { h } }\n";
    assert!(made(&[twice, &half(49)]).formats_safely("a"));
    assert!(!made(&[twice, &half(50)]).formats_safely("a"));
}

#[test]
fn chains_of_nested_placeables_are_counted_up_to_the_limit() {
    let chain = |length: usize| {
        let mut source = String::new();
        for i in 0..length {
            source.push_str(&format!("m{} = {{ {{ m{} }} }}\n", i, i + 1));
        }
        source.push_str(&format!("m{} = x\n", length));
        source
    };
    let mut bundle = made(&[&chain(100)]);
    assert!(bundle.formats_safely("m0"));
    assert_eq!(translated(&mut bundle, "m0", Vec::new()), plain("x"));
    assert!(!made(&[&chain(101)]).formats_safely("m0"));
    assert!(made(&[&chain(101)]).formats_safely("m1"));
}

#[test]
fn the_widest_variant_is_counted() {
    let select = |first: usize, second: usize| {
        let (first, second) = ("{ b }".repeat(first), "{ b }".repeat(second));
        format!("a = {{ 1 ->\n    [one] {}\n   *[y] {}\n }}\nb = x\n", first, second)
    };
    let mut bundle = made(&[&select(99, 99)]);
    assert!(bundle.formats_safely("a"));
    assert_eq!(translated(&mut bundle, "a", Vec::new()), plain(&"x".repeat(99)));
    assert!(!made(&[&select(100, 1)]).formats_safely("a"));
    assert!(!made(&[&select(1, 100)]).formats_safely("a"));
    let inner = format!("c = {}\n", "{ b }".repeat(60));
    let either = "a = { 1 ->\n    [x] { c }\n   *[y] { c }\n }\nb = x\n";
    assert!(made(&[either, &inner]).formats_safely("a"));
    let both = "a = { 1 ->\n   *[y] { c }{ c }\n }\nb = x\n";
    assert!(!made(&[both, &inner]).formats_safely("a"));
}

#[test]
fn attributes_terms_and_calls_are_counted() {
    let fifty = "{ b }".repeat(50);
    let term = format!("-t = {}\n    .x = {}\nb = x\n", fifty, fifty);
    let both = "a = { { -t } }{ -t.x ->\n   *[z] y\n }\n    .z = { { -t } }\n";
    let mut bundle = made(&[&term, both]);
    assert!(!bundle.formats_safely("a"));
    assert!(bundle.formats_safely("a.z"));
    assert_eq!(translated(&mut bundle, "a.z", Vec::new()), plain(&"x".repeat(50)));
    assert!(!made(&[&term, "a = { { F(-t, -t) } }\n"]).formats_safely("a"));
    assert!(made(&[&term, "a = { { t } }{ { t.x } }{ { -gone } }\n"]).formats_safely("a"));
}

#[test]
fn long_fractions_do_not_choose_plural_forms() {
    let bundle = made(&[
        "choice = { 0.12345678901234567890 ->\n   *[other] y\n }\n",
        "uses = { choice }\n",
        "keys = { 0.12345678901234567890 ->\n   *[x] y\n }\n",
        "whole = { 12345678901234567890123 ->\n   *[other] y\n }\n",
        "edge = { 0.1234567890123456789 ->\n   *[other] y\n }\n",
        "prints = { 0.12345678901234567890 }\n",
    ]);
    for safe in ["keys", "whole", "edge", "prints", "missing", "keys.x"] {
        assert!(bundle.formats_safely(safe), "{}", safe);
    }
    for refused in ["choice", "uses"] {
        assert!(!bundle.formats_safely(refused), "{}", refused);
    }
}

#[test]
fn harmless_numbers_are_formatted() {
    let mut bundle = made(&[
        "keys = { 0.12345678901234567890 ->\n   *[x] y\n }\n",
        "whole = { 12345678901234567890123 ->\n   *[other] y\n }\n",
        "edge = { 0.1000000000000000000 ->\n    [one] 1\n   *[other] y\n }\n",
        "calls = { -t(n: 0.50000000000000000000) }\n-t = { $n }\n",
    ]);
    for identifier in ["keys", "whole", "edge"] {
        assert_eq!(translated(&mut bundle, identifier, Vec::new()), plain("y"));
    }
    assert!(bundle.formats_safely("calls"));
    assert_eq!(
        translated(&mut bundle, "calls", Vec::new()),
        plain("0.50000000000000000000")
    );
}

#[test]
fn long_arguments_matter_where_plural_forms_are_chosen_by_variables() {
    let call = "a = { -t(n: 0.12345678901234567890) }\n";
    let plural = "-t = { $n ->\n    [one] 1\n   *[other] y\n }\n";
    let keyed = "-t = { $n ->\n    [1] 1\n   *[x] y\n }\n";
    assert!(!made(&[call, plural]).formats_safely("a"));
    assert!(made(&[call, keyed]).formats_safely("a"));
    assert!(made(&["a = { -t(n: 5) }\n", plural]).formats_safely("a"));
    assert!(made(&["a = { F(n: 0.12345678901234567890) }{ -t }\n", plural]).formats_safely("a"));
    assert!(!made(&[call, "-t = { m }\nm = { m2 }\n", "m2 = { $n ->\n   *[other] y\n }\n"])
        .formats_safely("a"));
}

#[test]
fn translations_can_be_asked_for_unless_something_unsafe_is_formatted() {
    let bundle = made(&["a = { 0.12345678901234567890 ->\n   *[other] y\n }\nb = x\n"]);
    let bad = vec![Variable {
        key: VariableKey::Other("5".to_owned()),
        value: VariableValue::Other,
    }];
    assert!(bundle.translates_safely("b", None));
    assert!(bundle.translates_safely("b", Some(&bad)));
    assert!(bundle.translates_safely("missing", None));
    assert!(!bundle.translates_safely("a", None));
    assert!(!bundle.translates_safely("a", Some(&Vec::new())));
    assert!(bundle.translates_safely("a", Some(&bad)));
}

#[test]
fn later_definitions_decide_on_what_formats_safely() {
    let unsafe_one = "a = { 0.12345678901234567890 ->\n   *[other] y\n }\n";
    assert!(made(&[unsafe_one, "a = { b }\n"]).formats_safely("a"));
    assert!(!made(&["a = x\nb = { a }\n", unsafe_one]).formats_safely("b"));
    assert!(made(&["a = { b }\nb = { a }\n"]).formats_safely("a"));
}

#[test]
fn keys_stand_in_for_values_that_are_not_taken() {
    let mut bundle = made(&["m = { $a } { $b } { gone }\n"]);
    let given = translated(&mut bundle, "m", vec![of("a", VariableValue::Other), text("b", "x")]);
    let other = translated(&mut bundle, "m", vec![text("a", "a"), text("b", "x")]);
    assert_eq!(given.text, other.text);
    assert_eq!(given.errors.len(), other.errors.len() + 1);
    assert_eq!(given.errors[1..], other.errors[..]);
}

#[test]
fn strict_bundles_are_lenient_ones_without_findings() {
    for (source, clean) in [("a = 1\n", true), ("a = 1\na = 2\n", false), ("a =\n", false)] {
        let files = vec![file("f.ftl", source)];
        let strict = Bundle::new("en", &files, true, true);
        let lenient = Bundle::new("en", &files, false, true).ok().unwrap();
        assert_eq!(strict.is_ok(), clean);
        if clean {
            assert_eq!(lenient.get_compile_errors(), Vec::new());
        }
    }
}

#[test]
fn unvalidated_errors_are_the_duplicates_among_the_validated_ones() {
    let files = vec![file("a.ftl", "a = { a }\na = { b }\n-t = 1\n-t = 2\n"), file("b.ftl", "a = 1\n")];
    let with = Bundle::new("en", &files, false, true).ok().unwrap().get_compile_errors();
    let without = Bundle::new("en", &files, false, false).ok().unwrap().get_compile_errors();
    let duplicates: Vec<ValidationError> =
        with.into_iter().filter(|e| e.error_type == "DuplicateMessageId").collect();
    assert_eq!(without, duplicates);
    assert_eq!(without.len(), 3);
}

#[test]
fn messages_that_expand_too_far_are_cut_off() {
    let mut bundle = made(&["a = { b }{ b }{ b }\n", &format!("b = {}\n", "{ c }".repeat(50)), "c = x\n"]);
    assert!(bundle.formats_safely("a"));
    let outcome = translated(&mut bundle, "a", Vec::new());
    assert_eq!(outcome.errors[0].message, "Resolver error: Too many placeables");
}

#[test]
fn asking_leaves_errors_and_entries_as_they_were() {
    let files = vec![file("a.ftl", "a = { a }\n")];
    let mut bundle = Bundle::new("en", &files, false, true).ok().unwrap();
    let before = bundle.get_compile_errors();
    let first = bundle.get_translation("a", None, true);
    let second = bundle.get_translation("a", None, true);
    assert_eq!(first, second);
    assert_eq!(bundle.get_compile_errors(), before);
}

#[test]
fn validation_leaves_what_is_loaded() {
    let files = vec![file("a.ftl", "a = { b }\nb = 1\na = 2\n"), file("b.ftl", "c = { a }\n")];
    let mut with = Bundle::new("en", &files, false, true).ok().unwrap();
    let mut without = Bundle::new("en", &files, false, false).ok().unwrap();
    assert_eq!(with.get_compile_errors().len(), 2);
    assert_eq!(without.get_compile_errors().len(), 1);
    for identifier in ["a", "b", "c"] {
        assert_eq!(
            with.get_translation(identifier, None, true),
            without.get_translation(identifier, None, true)
        );
    }
}

#[test]
fn cyclic_files_are_refused_for_other_faults_first() {
    let alone = vec![file("a.ftl", "a = { a }\n")];
    assert_eq!(
        refused(alone, true, true),
        BundleError::Invalid("Found 1 reference error(s) in a.ftl".to_owned())
    );
    let after = vec![file("a.ftl", "a = 1\nb = 1\n"), file("b.ftl", "a = { b }\nb = { a }\n")];
    assert_eq!(
        refused(after, true, true),
        BundleError::Invalid(
            "Duplicate message: 'a'. Later definition will override.".to_owned()
        )
    );
}

#[test]
fn loading_comes_to_texts_that_the_parser_cannot_take_or_not() {
    let refused = || file("b.ftl", "b = { \"\\ué\" }\n");
    let load = |language: &str, files: Vec<SourceFile>, strict: bool| {
        Bundle::load(language, &files, strict, true)
    };
    assert!(load("en", vec![refused()], false).is_none());
    assert!(load("en", vec![file("a.ftl", "a = 1\n"), refused()], true).is_none());
    assert_eq!(
        load("no language!", vec![refused()], false).unwrap().err().unwrap(),
        BundleError::InvalidLanguage("Invalid language: 'no language!'".to_owned())
    );
    assert_eq!(
        load("en", vec![file("a.ftl", "a = 1\na = 2\n"), refused()], true).unwrap().err().unwrap(),
        BundleError::Invalid("Duplicate message: 'a'. Later definition will override.".to_owned())
    );
    let missing = SourceFile { path: "m.ftl".to_owned(), contents: None };
    assert_eq!(
        load("en", vec![missing, refused()], false).unwrap().err().unwrap(),
        BundleError::FileNotFound(0)
    );
    let mut bundle = load("en", vec![file("a.ftl", "a = 1\n")], true).unwrap().ok().unwrap();
    assert_eq!(translated(&mut bundle, "a", Vec::new()), plain("1"));
}

#[test]
fn files_behind_a_reason_to_stop_are_not_looked_at() {
    let files = vec![file("a.ftl", "a = 1\na = 2\n"), file("b.ftl", "b = { \"\\ué\" }\n")];
    assert_eq!(
        refused(files, true, true),
        BundleError::Invalid("Duplicate message: 'a'. Later definition will override.".to_owned())
    );
}
