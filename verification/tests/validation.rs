//! Second definitions, references and cycles.

use fluent_bundle::concurrent::FluentBundle;
use fluent_bundle::FluentResource;
use fluent_syntax::ast;
use rustfluent::cycles::{collect_references, detect_cycles, detect_entry_cycles};
use rustfluent::duplicates::find_duplicates;
use rustfluent::errors::ValidationError;
use rustfluent::references::{check_references, list_entry, term_id};

fn resource(source: &str) -> FluentResource {
    FluentResource::try_new(source.to_owned()).unwrap()
}

fn bundle(sources: &[&str]) -> FluentBundle<FluentResource> {
    let mut bundle = FluentBundle::new_concurrent(vec!["en".parse().unwrap()]);
    for source in sources {
        bundle.add_resource_overriding(resource(source));
    }
    bundle
}

fn error(kind: &str, message: &str, id: &str, reference: Option<&str>) -> ValidationError {
    ValidationError {
        error_type: kind.to_owned(),
        message: message.to_owned(),
        message_id: Some(id.to_owned()),
        reference: reference.map(|name| name.to_owned()),
    }
}

fn cycle(id: &str, path: &str) -> ValidationError {
    let message = format!("Cyclic reference detected: {}", path);
    error("CyclicReference", &message, id, None)
}

#[test]
fn references_to_stored_messages_resolve() {
    let stored = bundle(&["a = 1\n    .title = T\n"]);
    let checked = resource("b = { a } { a.title }\n");
    assert_eq!(check_references(&checked, &stored), Vec::new());
}

#[test]
fn references_to_missing_messages_are_reported() {
    let stored = bundle(&["a = 1\n"]);
    let checked = resource("b = { missing }\n    .hint = { gone.title }\n");
    assert_eq!(
        check_references(&checked, &stored),
        vec![
            error("UnknownMessage", "Unknown message: missing", "b", Some("missing")),
            error("UnknownMessage", "Unknown message: gone", "b", Some("gone")),
        ]
    );
}

#[test]
fn references_to_missing_attributes_are_reported() {
    let stored = bundle(&["a = 1\n    .title = T\n"]);
    let checked = resource("b = { a.label }\n");
    assert_eq!(
        check_references(&checked, &stored),
        vec![error("UnknownAttribute", "Unknown attribute: a.label", "b", Some("a.label"))]
    );
}

#[test]
fn references_to_terms_are_reported_whatever_is_stored() {
    let stored = bundle(&["-brand = Firefox\n    .case = x\n", "brand = message\n"]);
    let checked = resource("b = { -brand }\n-c = { -brand(case: \"x\") }\n");
    assert_eq!(
        check_references(&checked, &stored),
        vec![
            error("UnknownTerm", "Unknown term: -brand", "b", Some("-brand")),
            error("UnknownTerm", "Unknown term: -brand", "-c", Some("-brand")),
        ]
    );
    let selecting = resource("d = { -brand.case ->\n    [x] { e }\n   *[y] { $f }\n }\n");
    assert_eq!(
        check_references(&selecting, &stored),
        vec![
            error("UnknownTerm", "Unknown term: -brand", "d", Some("-brand")),
            error("UnknownMessage", "Unknown message: e", "d", Some("e")),
        ]
    );
}

#[test]
fn the_first_file_resolves_nothing() {
    let checked = resource("a = 1\nb = { a } { a }\n");
    assert_eq!(
        check_references(&checked, &bundle(&[])),
        vec![
            error("UnknownMessage", "Unknown message: a", "b", Some("a")),
            error("UnknownMessage", "Unknown message: a", "b", Some("a")),
        ]
    );
}

#[test]
fn references_in_nested_placeables_are_checked() {
    let unknown = |id: &str| {
        error("UnknownMessage", &format!("Unknown message: {}", id), "a", Some(id))
    };
    let nested = resource("a = { { b } } { { { c } } }\n");
    assert_eq!(check_references(&nested, &bundle(&[])), vec![unknown("b"), unknown("c")]);
    assert_eq!(check_references(&nested, &bundle(&["b = 1\nc = 1\n"])), Vec::new());
    let selecting = resource("a = { { $v ->\n    [x] { d }\n   *[y] { { e } }\n } }\n");
    assert_eq!(check_references(&selecting, &bundle(&[])), vec![unknown("d"), unknown("e")]);
}

#[test]
fn references_in_calls_are_checked() {
    let unknown = |id: &str| {
        error("UnknownMessage", &format!("Unknown message: {}", id), "a", Some(id))
    };
    let checked = resource("a = { FUN(b, -t(c, n: 1), { d }, x: 1) }\n");
    assert_eq!(
        check_references(&checked, &bundle(&[])),
        vec![
            unknown("b"),
            error("UnknownTerm", "Unknown term: -t", "a", Some("-t")),
            unknown("c"),
            unknown("d"),
        ]
    );
}

#[test]
fn cycles_go_through_nested_placeables_and_calls() {
    assert_eq!(detect_cycles(&resource("a = { { a } }\n")), vec![cycle("a", "a -> a")]);
    assert_eq!(
        detect_cycles(&resource("a = { FUN(b) }\nb = { -t(a) }\n")),
        vec![cycle("a", "a -> b -> a"), cycle("b", "b -> a -> b")]
    );
}

#[test]
fn checking_sees_what_is_collected() {
    let parsed = resource("m = { FUN({ b }, -c(d)) }{ $v ->\n    [x] { e.t }\n   *[y] { -f }\n }\n");
    let entries: Vec<&ast::Entry<&str>> = parsed.entries().collect();
    let listed: Vec<String> = list_entry(entries[0]).iter().map(|r| r.target()).collect();
    assert_eq!(listed, vec!["b", "-c", "d", "e", "-f"]);
    let errors = check_references(&parsed, &bundle(&[]));
    let told: Vec<String> = errors.iter().map(|e| e.reference.clone().unwrap()).collect();
    assert_eq!(told, listed);
    for error in errors {
        let term = error.reference.unwrap().starts_with('-');
        assert_eq!(error.error_type, if term { "UnknownTerm" } else { "UnknownMessage" });
    }
}

#[test]
fn references_are_collected_in_order() {
    let parsed = resource("m = { b } text { -c } { $v ->\n    [x] { a.t }\n   *[y] { b }\n }\n");
    let mut refs = vec!["before".to_owned()];
    for entry in parsed.entries() {
        if let ast::Entry::Message(message) = entry {
            collect_references(message.value.as_ref().unwrap(), &mut refs);
        }
    }
    assert_eq!(refs, vec!["before", "b", "-c", "a", "b"]);
}

#[test]
fn names_of_terms_get_a_hyphen() {
    assert_eq!(term_id("brand"), "-brand");
}

#[test]
fn a_file_without_cycles_has_no_cycle_errors() {
    let parsed = resource("a = { b } { c }\nb = { c }\nc = { outside }\n-d = { a }\n");
    assert_eq!(detect_cycles(&parsed), Vec::new());
}

#[test]
fn a_message_that_refers_to_itself_is_a_cycle() {
    assert_eq!(detect_cycles(&resource("a = { a }\n")), vec![cycle("a", "a -> a")]);
}

#[test]
fn cycles_are_told_for_each_identifier_that_reaches_them() {
    let parsed = resource("x = { a }\na = { b }\nb = { a }\ny = 1\n");
    assert_eq!(
        detect_cycles(&parsed),
        vec![cycle("x", "x -> a -> b -> a"), cycle("a", "a -> b -> a"), cycle("b", "b -> a -> b")]
    );
}

#[test]
fn cycles_go_through_terms_and_attributes() {
    let parsed = resource("a = { -t }\n-t = value\n    .attr = { a.x }\n");
    assert_eq!(
        detect_cycles(&parsed),
        vec![cycle("a", "a -> -t -> a"), cycle("-t", "-t -> a -> -t")]
    );
}

#[test]
fn paths_take_the_first_reference_that_leads_into_a_cycle() {
    let parsed = resource("a = { b } { c } { d }\nb = 1\nc = { d }\nd = { a }\n");
    assert_eq!(detect_cycles(&parsed)[0], cycle("a", "a -> c -> d -> a"));
}

#[test]
fn the_last_entry_of_a_name_makes_the_edges() {
    let kept = resource("a = { a }\na = 1\n");
    assert_eq!(detect_cycles(&kept), Vec::new());
    let made = resource("a = 1\nb = 1\na = { a }\n");
    let entries: Vec<&ast::Entry<&str>> = made.entries().collect();
    assert_eq!(detect_entry_cycles(&entries), vec![cycle("a", "a -> a")]);
}

#[test]
fn second_definitions_within_a_file_are_found() {
    let parsed = resource("a = 1\n-a = 2\na = 3\n-a = 4\na = 5\n");
    let repeated = |kind: &str| {
        let message = format!("Duplicate {}: 'a'. Later definition will override.", kind);
        error("DuplicateMessageId", &message, "a", None)
    };
    assert_eq!(
        find_duplicates(&parsed, &bundle(&[])),
        vec![repeated("message"), repeated("term"), repeated("message")]
    );
}

#[test]
fn second_definitions_against_the_bundle_are_found_for_messages_only() {
    let stored = bundle(&["a = 1\n-t = 1\n"]);
    assert_eq!(
        find_duplicates(&resource("a = 2\n-t = 2\nb = 2\n"), &stored),
        vec![error(
            "DuplicateMessageId",
            "Duplicate message: 'a'. Later definition will override.",
            "a",
            None
        )]
    );
}

#[test]
fn distinct_definitions_are_no_duplicates() {
    let parsed = resource("# A comment\na = 1\n-a = 2\nb = 3\n");
    assert_eq!(find_duplicates(&parsed, &bundle(&["c = 1\n"])), Vec::new());
}
