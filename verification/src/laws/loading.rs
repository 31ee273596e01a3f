//! What comes of the findings in a file, and of files one after the other.

use crate::cycles;
use crate::duplicates;
use crate::errors;
use crate::errors::ValidationErrorView;
use crate::laws;
use crate::laws::cycling;
use crate::laws::finding;
use crate::position;
use crate::references;
use crate::resource;
use crate::store;
use crate::text;
use crate::translations;
use crate::translations::BundleErrorView;
use vstd::prelude::*;

verus! {

/// Outside strict mode a file is never refused, and every error on a second definition is kept.
/// With validation, so are every error on a reference and every error on a cycle, whichever others
/// there are. Nothing else is kept, and nothing twice: second definitions come first, faulty
/// references behind them, cycles last.
pub proof fn law_lenient_findings_are_kept(
    path: Seq<char>,
    validate_references: bool,
    second: Seq<ValidationErrorView>,
    faulty: Seq<ValidationErrorView>,
    cyclic: Seq<ValidationErrorView>,
)
    ensures
        translations::settled(path, false, validate_references, second, faulty, cyclic) matches Ok(
            kept,
        ) && {
            &&& validate_references ==> kept.len() == second.len() + faulty.len() + cyclic.len()
            &&& !validate_references ==> kept.len() == second.len()
            &&& forall|i: int| 0 <= i < second.len() ==> kept[i] == #[trigger] second[i]
            &&& validate_references ==> forall|i: int|
                0 <= i < faulty.len() ==> kept[second.len() + i] == #[trigger] faulty[i]
            &&& validate_references ==> forall|i: int|
                0 <= i < cyclic.len() ==> kept[second.len() + faulty.len() + i]
                    == #[trigger] cyclic[i]
        },
{
}

/// In strict mode a file is accepted exactly where nothing was found, without validation exactly
/// where no second definition was found. Then nothing is kept. The reason to refuse it is the first
/// second definition; where there is none, the number of faulty references; where there are none
/// either, the number of cycles.
pub proof fn law_strict_findings_refuse(
    path: Seq<char>,
    validate_references: bool,
    second: Seq<ValidationErrorView>,
    faulty: Seq<ValidationErrorView>,
    cyclic: Seq<ValidationErrorView>,
)
    ensures
        ({
            let outcome = translations::settled(
                path,
                true,
                validate_references,
                second,
                faulty,
                cyclic,
            );
            &&& outcome is Ok <==> second.len() == 0 && (validate_references ==> faulty.len() == 0
                && cyclic.len() == 0)
            &&& outcome matches Ok(kept) ==> kept.len() == 0
            &&& second.len() > 0 ==> outcome == Err::<Seq<ValidationErrorView>, BundleErrorView>(
                BundleErrorView::Invalid(second[0].message),
            )
            &&& second.len() == 0 && validate_references && faulty.len() > 0 ==> outcome == Err::<
                Seq<ValidationErrorView>,
                BundleErrorView,
            >(
                BundleErrorView::Invalid(
                    "Found "@ + text::decimal(faulty.len()) + " reference error(s) in "@ + path,
                ),
            )
            &&& second.len() == 0 && validate_references && faulty.len() == 0 && cyclic.len() > 0
                ==> outcome == Err::<Seq<ValidationErrorView>, BundleErrorView>(
                BundleErrorView::Invalid(
                    "Found "@ + text::decimal(cyclic.len()) + " cyclic reference(s) in "@ + path,
                ),
            )
        }),
{
}

/// The number of errors of a kind is told in decimal notation, before the kind and the path.
pub proof fn law_numbers_of_errors_are_told(count: nat, kind: Seq<char>, path: Seq<char>)
    ensures
        translations::found_errors(count, kind, path) == "Found "@ + text::decimal(count) + kind
            + path,
{
}

/// A text that does not parse is told with its path and in full, with one mark and one detail for
/// each parser error, in order. Both say what the parser says, and where; the detail also gives the
/// line, the column and the file.
pub proof fn law_parse_failures_tell_each_error(
    path: Seq<char>,
    source: Seq<char>,
    parser_errors: Seq<resource::ParserErrorView>,
)
    ensures
        ({
            let failure = translations::parse_failure(path, source, parser_errors);
            let bytes = vstd::utf8::encode_utf8(source);
            &&& failure.title == "Error when parsing "@ + path
            &&& failure.source == source
            &&& failure.labels.len() == parser_errors.len()
            &&& failure.details.len() == parser_errors.len()
            &&& forall|i: int|
                0 <= i < parser_errors.len() ==> {
                    let error = #[trigger] parser_errors[i];
                    &&& failure.labels[i].start == error.start
                    &&& failure.labels[i].end == error.end
                    &&& failure.labels[i].text == error.message
                    &&& failure.details[i].message == error.message
                    &&& failure.details[i].line == position::line_at(bytes, error.start as int)
                    &&& failure.details[i].column == position::column_at(bytes, error.start as int)
                    &&& failure.details[i].byte_start == error.start
                    &&& failure.details[i].byte_end == error.end
                    &&& failure.details[i].filename == Some(path)
                }
        }),
{
}

/// In strict mode a text that does not parse is refused, whatever else there is to find. In any
/// other case the findings in its entries decide, against the store as it was before the file:
/// second definitions, faulty references and cycles, and nothing of the parser errors.
pub proof fn law_files_are_held_against_the_store(
    stored: store::Entries,
    path: Seq<char>,
    source: Seq<char>,
    strict: bool,
    validate_references: bool,
)
    ensures
        ({
            let parse = resource::parsed(source);
            let outcome = translations::file_findings(
                stored,
                path,
                source,
                strict,
                validate_references,
            );
            if strict && parse.errors.len() > 0 {
                outcome == Err::<Seq<ValidationErrorView>, BundleErrorView>(
                    BundleErrorView::Parse(
                        translations::parse_failure(path, source, parse.errors),
                    ),
                )
            } else {
                outcome == translations::settled(
                    path,
                    strict,
                    validate_references,
                    duplicates::duplicate_errors(stored, parse.entries),
                    references::entries_errors(stored, parse.entries),
                    cycles::entries_cycle_errors(parse.entries),
                )
            }
        }),
{
}

/// No file, no entries and no errors.
pub proof fn law_no_files_load_nothing(strict: bool, validate_references: bool)
    ensures
        translations::loaded_files(Seq::empty(), strict, validate_references) matches Ok(loaded)
            && loaded.entries == store::Entries::empty() && loaded.errors.len() == 0,
{
}

/// A file comes upon what the files before it left: it is read only where they were loaded, it is
/// held against their entries, and it adds to their errors. A file that is missing is told by its
/// index.
pub proof fn law_files_load_one_by_one(
    files: Seq<translations::SourceFileView>,
    file: translations::SourceFileView,
    strict: bool,
    validate_references: bool,
)
    ensures
        ({
            let before = translations::loaded_files(files, strict, validate_references);
            let after = translations::loaded_files(files.push(file), strict, validate_references);
            &&& before is Err ==> after == before
            &&& before is Ok && file.contents is None ==> after == Err::<
                translations::LoadedView,
                BundleErrorView,
            >(BundleErrorView::FileNotFound(files.len() as int))
            &&& before matches Ok(loaded) ==> file.contents matches Some(source) ==> match (
            translations::file_findings(
                loaded.entries,
                file.path,
                source,
                strict,
                validate_references,
            )) {
                Err(reason) => after == Err::<translations::LoadedView, BundleErrorView>(reason),
                Ok(found) => after matches Ok(more) && more.errors == loaded.errors + found
                    && more.entries == store::with_entries(
                    loaded.entries,
                    resource::parsed(source).entries,
                ),
            }
        }),
{
    assert(files.push(file).drop_last() =~= files);
}

/// A bundle is made of a language that is one, and of its files. Where the language is none, that is
/// said, whatever the files are.
pub proof fn law_languages_come_first(
    language: Seq<char>,
    files: Seq<translations::SourceFileView>,
    strict: bool,
    validate_references: bool,
)
    ensures
        store::canonical_language(language) is None ==> translations::made_bundle(
            language,
            files,
            strict,
            validate_references,
        ) == Err::<translations::LoadedView, BundleErrorView>(
            BundleErrorView::InvalidLanguage("Invalid language: '"@ + language + "'"@),
        ),
        store::canonical_language(language) is Some ==> translations::made_bundle(
            language,
            files,
            strict,
            validate_references,
        ) == translations::loaded_files(files, strict, validate_references),
{
}

/// Making a bundle succeeds exactly where the language is one and the files load. The bundle then
/// holds their entries and their errors, speaks the language, and isolates placeables. Where it
/// fails, the reason is that of the language or of the files.
pub proof fn law_bundles_hold_what_was_loaded(
    made: Result<translations::Bundle, translations::BundleError>,
    language: Seq<char>,
    files: Seq<translations::SourceFileView>,
    strict: bool,
    validate_references: bool,
)
    requires
        translations::is_made(made, language, files, strict, validate_references),
    ensures
        ({
            let loaded = translations::loaded_files(files, strict, validate_references);
            &&& made is Ok <==> store::canonical_language(language) is Some && loaded is Ok
            &&& made matches Ok(bundle) ==> {
                &&& bundle.wf()
                &&& bundle.entries() == loaded->Ok_0.entries
                &&& bundle.errors() == loaded->Ok_0.errors
                &&& Some(bundle.settings().language) == store::canonical_language(language)
                &&& bundle.settings().isolating
            }
            &&& made matches Err(reason) ==> if store::canonical_language(language) is None {
                reason matches translations::BundleError::InvalidLanguage(said) && said@
                    == "Invalid language: '"@ + language + "'"@
            } else {
                Err::<translations::LoadedView, BundleErrorView>(reason@) == loaded
            }
        }),
{
}

/// Whether a list holds another one somewhere, in one piece.
pub open spec fn holds_piece(
    all: Seq<ValidationErrorView>,
    piece: Seq<ValidationErrorView>,
) -> bool {
    exists|at: int|
        0 <= at <= all.len() - piece.len() && #[trigger] all.subrange(at, at + piece.len())
            == piece
}

/// The errors of the files that were loaded first stay in front.
proof fn lemma_errors_stay(
    files: Seq<translations::SourceFileView>,
    f: int,
    strict: bool,
    validate_references: bool,
)
    requires
        0 <= f <= files.len(),
        translations::loaded_files(files, strict, validate_references) is Ok,
    ensures
        translations::loaded_files(files.take(f), strict, validate_references) matches Ok(before)
            && before.errors.len() <= translations::loaded_files(
            files,
            strict,
            validate_references,
        )->Ok_0.errors.len() && translations::loaded_files(
            files,
            strict,
            validate_references,
        )->Ok_0.errors.take(before.errors.len() as int) == before.errors,
    decreases files.len(),
{
    let all = translations::loaded_files(files, strict, validate_references)->Ok_0.errors;
    if f == files.len() {
        assert(files.take(f) =~= files);
        assert(all.take(all.len() as int) =~= all);
    } else {
        let front = files.drop_last();
        lemma_errors_stay(front, f, strict, validate_references);
        assert(front.take(f) =~= files.take(f));
        let before = translations::loaded_files(
            files.take(f),
            strict,
            validate_references,
        )->Ok_0.errors;
        let so_far = translations::loaded_files(front, strict, validate_references)->Ok_0.errors;
        assert(all.take(before.len() as int) =~= so_far.take(before.len() as int));
    }
}

/// Outside strict mode, a bundle keeps what was found in each of its files, against the entries of
/// the files before: all errors on second definitions and, with validation, all errors on
/// references and on cycles.
pub proof fn law_bundles_keep_all_findings(
    files: Seq<translations::SourceFileView>,
    f: int,
    validate_references: bool,
)
    requires
        translations::loaded_files(files, false, validate_references) is Ok,
        0 <= f < files.len(),
    ensures
        translations::loaded_files(files.take(f), false, validate_references) is Ok,
        ({
            let kept = translations::loaded_files(files, false, validate_references)->Ok_0.errors;
            let stored = translations::loaded_files(
                files.take(f),
                false,
                validate_references,
            )->Ok_0.entries;
            let added = laws::file_entries(files[f]);
            &&& holds_piece(kept, duplicates::duplicate_errors(stored, added))
            &&& validate_references ==> holds_piece(
                kept,
                references::entries_errors(stored, added),
            )
            &&& validate_references ==> holds_piece(kept, cycles::entries_cycle_errors(added))
        }),
{
    let kept = translations::loaded_files(files, false, validate_references)->Ok_0.errors;
    lemma_errors_stay(files, f, false, validate_references);
    lemma_errors_stay(files, f + 1, false, validate_references);
    assert(files.take(f + 1) =~= files.take(f).push(files[f]));
    law_files_load_one_by_one(files.take(f), files[f], false, validate_references);
    let before = translations::loaded_files(files.take(f), false, validate_references)->Ok_0;
    let after = translations::loaded_files(files.take(f + 1), false, validate_references)->Ok_0;
    let added = laws::file_entries(files[f]);
    assert(files.take(f + 1).last() == files[f]);
    assert(files[f].contents is Some);
    let second = duplicates::duplicate_errors(before.entries, added);
    let faulty = references::entries_errors(before.entries, added);
    let cyclic = cycles::entries_cycle_errors(added);
    law_lenient_findings_are_kept(files[f].path, validate_references, second, faulty, cyclic);
    let n = before.errors.len() as int;
    let found = translations::settled(
        files[f].path,
        false,
        validate_references,
        second,
        faulty,
        cyclic,
    )->Ok_0;
    assert(after.errors == before.errors + found);
    assert forall|i: int| 0 <= i < found.len() implies kept[n + i] == #[trigger] found[i] by {
        assert(kept.take(after.errors.len() as int)[n + i] == after.errors[n + i]);
    }
    assert(kept.subrange(n, n + second.len()) =~= second) by {
        assert forall|i: int| 0 <= i < second.len() implies kept[n + i] == second[i] by {
            assert(found[i] == second[i]);
        }
    }
    if validate_references {
        let m = n + second.len();
        assert(kept.subrange(m, m + faulty.len()) =~= faulty) by {
            assert forall|i: int| 0 <= i < faulty.len() implies kept[m + i] == faulty[i] by {
                assert(found[second.len() + i] == faulty[i]);
            }
        }
        let l = m + faulty.len();
        assert(kept.subrange(l, l + cyclic.len()) =~= cyclic) by {
            assert forall|i: int| 0 <= i < cyclic.len() implies kept[l + i] == cyclic[i] by {
                assert(found[second.len() + faulty.len() + i] == cyclic[i]);
            }
        }
    }
}

/// Outside strict mode and with validation, a cycle in a file is kept, whether or not the file has
/// other errors: for each name from which the file leads to some name a second time, the bundle
/// keeps an error on that name.
pub proof fn law_bundles_keep_all_cycles(
    files: Seq<translations::SourceFileView>,
    f: int,
    round: Seq<Seq<char>>,
)
    requires
        translations::loaded_files(files, false, true) is Ok,
        0 <= f < files.len(),
        cycling::is_round(laws::file_entries(files[f]), round),
        cycling::comes_back(Set::empty(), round),
    ensures
        exists|k: int|
            0 <= k < translations::loaded_files(files, false, true)->Ok_0.errors.len() && (
            #[trigger] translations::loaded_files(files, false, true)->Ok_0.errors[k]).error_type
                == "CyclicReference"@ && translations::loaded_files(
                files,
                false,
                true,
            )->Ok_0.errors[k].message_id == Some(round[0]),
{
    let kept = translations::loaded_files(files, false, true)->Ok_0.errors;
    let added = laws::file_entries(files[f]);
    let cyclic = cycles::entries_cycle_errors(added);
    law_bundles_keep_all_findings(files, f, true);
    cycling::law_every_cycle_is_reported(added, round);
    let k = choose|k: int|
        0 <= k < cycles::entries_cycle_errors(added).len() && (
        #[trigger] cycles::entries_cycle_errors(added)[k]).error_type == "CyclicReference"@
            && cycles::entries_cycle_errors(added)[k].message_id == Some(round[0]);
    let at = choose|at: int|
        0 <= at <= kept.len() - cyclic.len() && #[trigger] kept.subrange(at, at + cyclic.len())
            == cyclic;
    assert(kept.subrange(at, at + cyclic.len())[k] == cyclic[k]);
    assert(kept[at + k] == cyclic[k]);
}

/// Outside strict mode and with validation, a faulty reference in a file is kept, whether or not
/// the file has other errors.
pub proof fn law_bundles_keep_all_faults(
    files: Seq<translations::SourceFileView>,
    f: int,
    i: int,
    owner: Seq<char>,
    k: int,
)
    requires
        translations::loaded_files(files, false, true) is Ok,
        0 <= f < files.len(),
        0 <= i < laws::file_entries(files[f]).len(),
        finding::goes_by(laws::file_entries(files[f])[i], owner),
        0 <= k < references::entry_references(laws::file_entries(files[f])[i]).len(),
    ensures
        translations::loaded_files(files.take(f), false, true) matches Ok(before) && (
        references::reference_error(
            before.entries,
            owner,
            references::entry_references(laws::file_entries(files[f])[i])[k],
        ) matches Some(error) ==> translations::loaded_files(
            files,
            false,
            true,
        )->Ok_0.errors.contains(error)),
{
    let kept = translations::loaded_files(files, false, true)->Ok_0.errors;
    let added = laws::file_entries(files[f]);
    law_bundles_keep_all_findings(files, f, true);
    let stored = translations::loaded_files(files.take(f), false, true)->Ok_0.entries;
    finding::law_every_fault_is_reported(stored, added, i, owner, k);
    let held = references::entry_references(added[i])[k];
    if references::reference_error(stored, owner, held) is Some {
        let error = references::reference_error(stored, owner, held)->0;
        let faulty = references::entries_errors(stored, added);
        let m = faulty.index_of(error);
        let at = choose|at: int|
            0 <= at <= kept.len() - faulty.len() && #[trigger] kept.subrange(
                at,
                at + faulty.len(),
            ) == faulty;
        assert(kept.subrange(at, at + faulty.len())[m] == error);
        assert(kept[at + m] == error);
    }
}

/// Outside strict mode, a second definition in a file is kept, whether or not the file has other
/// errors.
pub proof fn law_bundles_keep_all_second_definitions(
    files: Seq<translations::SourceFileView>,
    f: int,
    i: int,
    validate_references: bool,
)
    requires
        translations::loaded_files(files, false, validate_references) is Ok,
        0 <= f < files.len(),
        0 <= i < laws::file_entries(files[f]).len(),
    ensures
        translations::loaded_files(files.take(f), false, validate_references) matches Ok(before)
            && (finding::comes_second(before.entries, laws::file_entries(files[f]), i) ==> exists|
            k: int,
        |
            0 <= k < translations::loaded_files(
                files,
                false,
                validate_references,
            )->Ok_0.errors.len() && (#[trigger] translations::loaded_files(
                files,
                false,
                validate_references,
            )->Ok_0.errors[k]).error_type == "DuplicateMessageId"@ && translations::loaded_files(
                files,
                false,
                validate_references,
            )->Ok_0.errors[k].message_id == laws::stored_name(laws::file_entries(files[f])[i])),
{
    let kept = translations::loaded_files(files, false, validate_references)->Ok_0.errors;
    let added = laws::file_entries(files[f]);
    law_bundles_keep_all_findings(files, f, validate_references);
    let stored = translations::loaded_files(
        files.take(f),
        false,
        validate_references,
    )->Ok_0.entries;
    let second = duplicates::duplicate_errors(stored, added);
    let at = finding::law_second_definitions_are_reported(stored, added);
    let chosen = |i: int| finding::comes_second(stored, added, i);
    if finding::comes_second(stored, added, i) {
        assert(chosen(i));
        let m = at.index_of(i);
        assert(second[m].message_id == laws::stored_name(added[i]));
        let place = choose|at: int|
            0 <= at <= kept.len() - second.len() && #[trigger] kept.subrange(
                at,
                at + second.len(),
            ) == second;
        assert(kept.subrange(place, place + second.len())[m] == second[m]);
        assert(kept[place + m] == second[m]);
    }
}

} // verus!
