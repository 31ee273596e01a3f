//! Bundles of translations: loading them from source texts, and asking them for translations.

use crate::cycles;
use crate::duplicates;
use crate::errors;
use crate::errors::FormatError;
use crate::errors::ParseErrorDetail;
use crate::errors::ValidationError;
use crate::escapes;
use crate::expansion;
use crate::expansion::Outline;
use crate::lookup;
use crate::position;
use crate::references;
use crate::references::Reference;
use crate::resource;
use crate::store;
use crate::syntax;
use crate::text;
use crate::variables;
use crate::variables::Variable;
use fluent_bundle::concurrent::FluentBundle;
use fluent_bundle::FluentError;
use fluent_bundle::FluentResource;
use fluent_syntax::parser::ParserError;
use vstd::hash_map::StringHashMap;
use vstd::prelude::*;
use vstd::string::StringExecFns;

verus! {

/// A file to load.
#[derive(Debug, PartialEq, Eq)]
pub struct SourceFile {
    /// The path of the file, as messages show it.
    pub path: String,
    /// What the file holds, or `None` where it could not be read.
    pub contents: Option<String>,
}

/// The view of a file to load.
pub struct SourceFileView {
    pub path: Seq<char>,
    pub contents: Option<Seq<char>>,
}

impl View for SourceFile {
    type V = SourceFileView;

    open spec fn view(&self) -> SourceFileView {
        SourceFileView { path: self.path@, contents: text::option_view(self.contents) }
    }
}

/// The view of a list of files to load.
pub open spec fn files_view(files: Seq<SourceFile>) -> Seq<SourceFileView> {
    files.map_values(|f: SourceFile| f@)
}

/// A mark on a stretch of a source text, in bytes.
#[derive(Debug, PartialEq, Eq)]
pub struct Label {
    pub start: usize,
    pub end: usize,
    pub text: String,
}

/// The view of a mark.
pub struct LabelView {
    pub start: usize,
    pub end: usize,
    pub text: Seq<char>,
}

impl View for Label {
    type V = LabelView;

    open spec fn view(&self) -> LabelView {
        LabelView { start: self.start, end: self.end, text: self.text@ }
    }
}

/// A source text that did not parse: what a report of it shows, and the single errors.
#[derive(Debug, PartialEq, Eq)]
pub struct ParseFailure {
    /// The headline of the report.
    pub title: String,
    /// The source text.
    pub source: String,
    /// The marks on the source text.
    pub labels: Vec<Label>,
    /// The errors with their locations.
    pub details: Vec<ParseErrorDetail>,
}

/// The view of a source text that did not parse.
pub struct ParseFailureView {
    pub title: Seq<char>,
    pub source: Seq<char>,
    pub labels: Seq<LabelView>,
    pub details: Seq<errors::ParseErrorDetailView>,
}

impl View for ParseFailure {
    type V = ParseFailureView;

    open spec fn view(&self) -> ParseFailureView {
        ParseFailureView {
            title: self.title@,
            source: self.source@,
            labels: self.labels@.map_values(|l: Label| l@),
            details: self.details@.map_values(|d: ParseErrorDetail| d@),
        }
    }
}

/// Why a bundle was not made.
#[derive(Debug, PartialEq, Eq)]
pub enum BundleError {
    /// The language identifier is not one.
    InvalidLanguage(String),
    /// The file at this index could not be read.
    FileNotFound(usize),
    /// A file did not parse.
    Parse(ParseFailure),
    /// A file did not stand up to validation.
    Invalid(String),
}

/// The view of a reason why a bundle was not made.
pub enum BundleErrorView {
    InvalidLanguage(Seq<char>),
    FileNotFound(int),
    Parse(ParseFailureView),
    Invalid(Seq<char>),
}

impl View for BundleError {
    type V = BundleErrorView;

    open spec fn view(&self) -> BundleErrorView {
        match self {
            BundleError::InvalidLanguage(message) => BundleErrorView::InvalidLanguage(message@),
            BundleError::FileNotFound(index) => BundleErrorView::FileNotFound(*index as int),
            BundleError::Parse(failure) => BundleErrorView::Parse(failure@),
            BundleError::Invalid(message) => BundleErrorView::Invalid(message@),
        }
    }
}

/// What is said of a text that is no language identifier.
pub open spec fn invalid_language(language: Seq<char>) -> Seq<char> {
    "Invalid language: '"@ + language + "'"@
}

/// The failure to parse a source text, with one mark and one detail for each parser error.
pub open spec fn parse_failure(
    path: Seq<char>,
    source: Seq<char>,
    parser_errors: Seq<resource::ParserErrorView>,
) -> ParseFailureView {
    ParseFailureView {
        title: "Error when parsing "@ + path,
        source,
        labels: parser_errors.map_values(
            |e: resource::ParserErrorView|
                LabelView { start: e.start, end: e.end, text: e.message },
        ),
        details: parser_errors.map_values(
            |e: resource::ParserErrorView| ParseErrorDetail::detail(e, source, Some(path)),
        ),
    }
}

/// What is said of a file with errors of a kind, in strict mode.
pub open spec fn found_errors(count: nat, kind: Seq<char>, path: Seq<char>) -> Seq<char> {
    "Found "@ + text::decimal(count) + kind + path
}

/// What comes of the errors in a file that parsed: the errors to keep, or the reason to stop.
///
/// In strict mode the first of these stops: a second definition, a faulty reference, a cyclic
/// reference. References and cycles count on demand only.
pub open spec fn settled(
    path: Seq<char>,
    strict: bool,
    validate_references: bool,
    second: Seq<errors::ValidationErrorView>,
    faulty: Seq<errors::ValidationErrorView>,
    cyclic: Seq<errors::ValidationErrorView>,
) -> Result<Seq<errors::ValidationErrorView>, BundleErrorView> {
    if strict && second.len() > 0 {
        Err(BundleErrorView::Invalid(second[0].message))
    } else if !validate_references {
        Ok(second)
    } else if strict && faulty.len() > 0 {
        Err(
            BundleErrorView::Invalid(
                found_errors(faulty.len(), " reference error(s) in "@, path),
            ),
        )
    } else if strict && cyclic.len() > 0 {
        Err(
            BundleErrorView::Invalid(
                found_errors(cyclic.len(), " cyclic reference(s) in "@, path),
            ),
        )
    } else {
        Ok(second + faulty + cyclic)
    }
}

/// What loading a file into a store finds: the errors to keep, or the reason to stop. In strict
/// mode a parser error stops before anything else. References are looked at against the store as
/// it was before the file.
pub open spec fn file_findings(
    stored: store::Entries,
    path: Seq<char>,
    source: Seq<char>,
    strict: bool,
    validate_references: bool,
) -> Result<Seq<errors::ValidationErrorView>, BundleErrorView> {
    let parse = resource::parsed(source);
    if strict && parse.errors.len() > 0 {
        Err(BundleErrorView::Parse(parse_failure(path, source, parse.errors)))
    } else {
        settled(
            path,
            strict,
            validate_references,
            duplicates::duplicate_errors(stored, parse.entries),
            references::entries_errors(stored, parse.entries),
            cycles::entries_cycle_errors(parse.entries),
        )
    }
}

/// The view of what was loaded: the store, and the errors that were kept.
pub struct LoadedView {
    pub entries: store::Entries,
    pub errors: Seq<errors::ValidationErrorView>,
}

/// What loading files one after the other leads to: what was loaded, or the reason to stop.
pub open spec fn loaded_files(
    files: Seq<SourceFileView>,
    strict: bool,
    validate_references: bool,
) -> Result<LoadedView, BundleErrorView>
    decreases files.len(),
{
    if files.len() == 0 {
        Ok(LoadedView { entries: store::Entries::empty(), errors: Seq::empty() })
    } else {
        match loaded_files(files.drop_last(), strict, validate_references) {
            Err(reason) => Err(reason),
            Ok(before) => match files.last().contents {
                None => Err(BundleErrorView::FileNotFound(files.len() - 1)),
                Some(source) => match file_findings(
                    before.entries,
                    files.last().path,
                    source,
                    strict,
                    validate_references,
                ) {
                    Err(reason) => Err(reason),
                    Ok(found) => Ok(
                        LoadedView {
                            entries: store::with_entries(
                                before.entries,
                                resource::parsed(source).entries,
                            ),
                            errors: before.errors + found,
                        },
                    ),
                },
            },
        }
    }
}

/// What making a bundle leads to.
pub open spec fn made_bundle(
    language: Seq<char>,
    files: Seq<SourceFileView>,
    strict: bool,
    validate_references: bool,
) -> Result<LoadedView, BundleErrorView> {
    if store::canonical_language(language) is None {
        Err(BundleErrorView::InvalidLanguage(invalid_language(language)))
    } else {
        loaded_files(files, strict, validate_references)
    }
}

/// Whether the parser can take a file, if loading comes to it: if the language is one, and the
/// files before were loaded.
pub open spec fn is_loadable(
    language: Seq<char>,
    files: Seq<SourceFileView>,
    i: int,
    strict: bool,
    validate_references: bool,
) -> bool {
    store::canonical_language(language) is Some && loaded_files(
        files.take(i),
        strict,
        validate_references,
    ) is Ok ==> (files[i].contents matches Some(source) ==> escapes::is_parsable(source))
}

/// Whether a bundle, or a reason why there is none, is what making a bundle leads to.
pub open spec fn is_made(
    made: Result<Bundle, BundleError>,
    language: Seq<char>,
    files: Seq<SourceFileView>,
    strict: bool,
    validate_references: bool,
) -> bool {
    match made {
        Ok(bundle) => {
            &&& bundle.wf()
            &&& store::canonical_language(language) == Some(bundle.settings().language)
            &&& bundle.settings().isolating
            &&& made_bundle(language, files, strict, validate_references) == Ok::<
                LoadedView,
                BundleErrorView,
            >(LoadedView { entries: bundle.entries(), errors: bundle.errors() })
        },
        Err(reason) => made_bundle(language, files, strict, validate_references) == Err::<
            LoadedView,
            BundleErrorView,
        >(reason@),
    }
}

/// A reason to stop stands, whatever files follow.
pub proof fn lemma_reason_stands(
    files: Seq<SourceFileView>,
    i: int,
    strict: bool,
    validate_references: bool,
)
    requires
        0 <= i <= files.len(),
        loaded_files(files.take(i), strict, validate_references) is Err,
    ensures
        loaded_files(files, strict, validate_references) == loaded_files(
            files.take(i),
            strict,
            validate_references,
        ),
    decreases files.len() - i,
{
    if i < files.len() {
        assert(files.take(i + 1).drop_last() =~= files.take(i));
        lemma_reason_stands(files, i + 1, strict, validate_references);
    } else {
        assert(files.take(i) =~= files);
    }
}

/// Describes the failure to parse a source text.
pub fn describe_failure(path: &str, source: &str, parser_errors: &Vec<ParserError>) -> (failure:
    ParseFailure)
    requires
        vstd::utf8::encode_utf8(source@).len() < usize::MAX,
        forall|i: int|
            0 <= i < parser_errors@.len() ==> position::is_text_position(
                vstd::utf8::encode_utf8(source@),
                (#[trigger] parser_errors@[i]).pos.start as int,
            ),
    ensures
        failure@ == parse_failure(
            path@,
            source@,
            resource::parser_errors_view(parser_errors@),
        ),
{
    let mut labels: Vec<Label> = Vec::new();
    let mut details: Vec<ParseErrorDetail> = Vec::new();
    let ghost views = resource::parser_errors_view(parser_errors@);
    let mut i: usize = 0;
    while i < parser_errors.len()
        invariant
            i <= parser_errors.len(),
            views == resource::parser_errors_view(parser_errors@),
            vstd::utf8::encode_utf8(source@).len() < usize::MAX,
            forall|k: int|
                0 <= k < parser_errors@.len() ==> position::is_text_position(
                    vstd::utf8::encode_utf8(source@),
                    (#[trigger] parser_errors@[k]).pos.start as int,
                ),
            labels@.len() == i,
            details@.len() == i,
            forall|k: int|
                0 <= k < i ==> (#[trigger] labels@[k])@ == (LabelView {
                    start: views[k].start,
                    end: views[k].end,
                    text: views[k].message,
                }),
            forall|k: int|
                0 <= k < i ==> (#[trigger] details@[k])@ == ParseErrorDetail::detail(
                    views[k],
                    source@,
                    Some(path@),
                ),
        decreases parser_errors.len() - i,
    {
        let error = &parser_errors[i];
        labels.push(
            Label {
                start: error.pos.start,
                end: error.pos.end,
                text: resource::error_kind_text(&error.kind),
            },
        );
        details.push(
            ParseErrorDetail::from_parser_error(error, source, Some(path.to_owned())),
        );
        i = i + 1;
    }
    let mut title = "Error when parsing ".to_owned();
    title.append(path);
    let failure = ParseFailure { title, source: source.to_owned(), labels, details };
    proof {
        let expected = parse_failure(path@, source@, views);
        assert(failure@.labels =~= expected.labels);
        assert(failure@.details =~= expected.details);
    }
    failure
}

/// Says how many errors of a kind a file has.
fn describe_errors(count: usize, kind: &str, path: &str) -> (message: String)
    ensures
        message@ == found_errors(count as nat, kind@, path@),
{
    let mut message = "Found ".to_owned();
    message.append(text::decimal_text(count).as_str());
    message.append(kind);
    message.append(path);
    message
}

/// Settles what comes of the errors in a file that parsed.
pub fn settle(
    path: &str,
    strict: bool,
    validate_references: bool,
    second: Vec<ValidationError>,
    faulty: Vec<ValidationError>,
    cyclic: Vec<ValidationError>,
) -> (outcome: Result<Vec<ValidationError>, BundleError>)
    ensures
        settled_view(outcome) == settled(
            path@,
            strict,
            validate_references,
            errors::validation_errors_view(second@),
            errors::validation_errors_view(faulty@),
            errors::validation_errors_view(cyclic@),
        ),
{
    if strict && second.len() > 0 {
        return Err(BundleError::Invalid(second[0].message.clone()));
    }
    if !validate_references {
        return Ok(second);
    }
    if strict && faulty.len() > 0 {
        return Err(
            BundleError::Invalid(describe_errors(faulty.len(), " reference error(s) in ", path)),
        );
    }
    if strict && cyclic.len() > 0 {
        return Err(
            BundleError::Invalid(describe_errors(cyclic.len(), " cyclic reference(s) in ", path)),
        );
    }
    let mut found = second;
    let mut faulty = faulty;
    let mut cyclic = cyclic;
    let ghost first = errors::validation_errors_view(found@);
    let ghost next = errors::validation_errors_view(faulty@);
    let ghost last = errors::validation_errors_view(cyclic@);
    found.append(&mut faulty);
    found.append(&mut cyclic);
    assert(errors::validation_errors_view(found@) =~= first + next + last);
    Ok(found)
}

/// The view of what came of the errors in a file.
pub open spec fn settled_view(outcome: Result<Vec<ValidationError>, BundleError>) -> Result<
    Seq<errors::ValidationErrorView>,
    BundleErrorView,
> {
    match outcome {
        Ok(found) => Ok(errors::validation_errors_view(found@)),
        Err(reason) => Err(reason@),
    }
}

/// A translation: the text, and what went wrong in formatting it.
#[derive(Debug, PartialEq, Eq)]
pub struct Translation {
    pub text: String,
    pub errors: Vec<FormatError>,
}

/// The view of a translation.
pub struct TranslationView {
    pub text: Seq<char>,
    pub errors: Seq<errors::FormatErrorView>,
}

impl View for Translation {
    type V = TranslationView;

    open spec fn view(&self) -> TranslationView {
        TranslationView {
            text: self.text@,
            errors: errors::format_errors_view(self.errors@),
        }
    }
}

/// Why there is no translation.
#[derive(Debug, PartialEq, Eq)]
pub enum TranslationError {
    /// The identifier names nothing that has a value.
    Value(String),
    /// The key of a variable is not a text.
    Type(String),
}

/// The view of a reason why there is no translation.
pub enum TranslationErrorView {
    Value(Seq<char>),
    Type(Seq<char>),
}

impl View for TranslationError {
    type V = TranslationErrorView;

    open spec fn view(&self) -> TranslationErrorView {
        match self {
            TranslationError::Value(message) => TranslationErrorView::Value(message@),
            TranslationError::Type(message) => TranslationErrorView::Type(message@),
        }
    }
}

/// The view of the outcome of asking for a translation.
pub open spec fn outcome_view(outcome: Result<Translation, TranslationError>) -> Result<
    TranslationView,
    TranslationErrorView,
> {
    match outcome {
        Ok(translation) => Ok(translation@),
        Err(reason) => Err(reason@),
    }
}

/// The translation that a formatted pattern and the errors on variables make up: the errors on
/// variables come before those of the formatting.
pub open spec fn translation(
    variable_errors: Seq<errors::FormatErrorView>,
    formatting: store::FormattedView,
) -> TranslationView {
    TranslationView {
        text: formatting.text,
        errors: variable_errors + errors::format_errors(formatting.errors),
    }
}

/// What asking for a translation leads to. The identifier is looked up before variables are looked
/// at.
pub open spec fn translated(
    settings: store::SettingsView,
    entries: store::Entries,
    identifier: Seq<char>,
    variables: Seq<Variable>,
) -> Result<TranslationView, TranslationErrorView> {
    match lookup::named_pattern(entries, identifier) {
        Err(message) => Err(TranslationErrorView::Value(message)),
        Ok(pattern) => match variables::variables_arguments(variables) {
            Err(message) => Err(TranslationErrorView::Type(message)),
            Ok(collected) => Ok(
                translation(
                    collected.errors,
                    store::formatted(
                        settings.language,
                        entries,
                        settings.isolating,
                        pattern,
                        collected.arguments,
                    ),
                ),
            ),
        },
    }
}

/// Appends the errors of a formatting to those on variables.
pub fn append_format_errors(errors: &mut Vec<FormatError>, format_errors: &Vec<FluentError>)
    ensures
        errors::format_errors_view(final(errors)@) == errors::format_errors_view(old(errors)@)
            + errors::format_errors(store::fluent_errors_view(format_errors@)),
{
    let ghost before = errors::format_errors_view(errors@);
    let ghost added = errors::format_errors(store::fluent_errors_view(format_errors@));
    let mut i: usize = 0;
    assert(before + added.take(0) =~= before);
    while i < format_errors.len()
        invariant
            i <= format_errors.len(),
            added == errors::format_errors(store::fluent_errors_view(format_errors@)),
            errors::format_errors_view(errors@) == before + added.take(i as int),
        decreases format_errors.len() - i,
    {
        let error = FormatError::from_fluent_error(&format_errors[i]);
        let ghost so_far = errors::format_errors_view(errors@);
        assert(error@ == added[i as int]);
        errors.push(error);
        assert(errors::format_errors_view(errors@) =~= so_far.push(error@));
        assert(errors::format_errors_view(errors@) =~= before + added.take(i + 1));
        i = i + 1;
    }
    assert(added.take(i as int) =~= added);
}

/// Messages and terms of one language, and the errors that loading them came upon.
pub struct Bundle {
    bundle: FluentBundle<FluentResource>,
    compile_errors: Vec<ValidationError>,
    outlines: StringHashMap<Outline>,
}

impl Bundle {
    /// The messages and terms of the bundle, by identifier.
    pub closed spec fn entries(self) -> store::Entries {
        store::bundle_entries(self.bundle)
    }

    /// The settings of the bundle.
    pub closed spec fn settings(self) -> store::SettingsView {
        store::bundle_settings(self.bundle)
    }

    /// The errors that were kept when files were loaded.
    pub closed spec fn errors(self) -> Seq<errors::ValidationErrorView> {
        errors::validation_errors_view(self.compile_errors@)
    }

    /// What holds of every bundle: the formatting depends on the language, the entries and the
    /// directionality marks alone, and names of messages and terms are identifiers.
    pub closed spec fn wf(self) -> bool {
        &&& !self.settings().customised
        &&& expansion::outlines_fit(self.outlines@, self.entries())
        &&& store_is_proper(self.entries())
    }

    /// Every name in a bundle is an identifier, and that of the entry which stands under it.
    pub proof fn lemma_names(self)
        requires
            self.wf(),
        ensures
            store_is_proper(self.entries()),
    {
    }

    /// Makes a bundle without messages, or says that the language identifier is not one.
    pub fn empty(language: &str) -> (made: Result<Bundle, BundleError>)
        ensures
            match made {
                Ok(bundle) => {
                    &&& bundle.wf()
                    &&& store::canonical_language(language@) == Some(bundle.settings().language)
                    &&& bundle.settings().isolating
                    &&& bundle.entries() == store::Entries::empty()
                    &&& bundle.errors() == Seq::<errors::ValidationErrorView>::empty()
                },
                Err(reason) => {
                    &&& store::canonical_language(language@) is None
                    &&& reason@ == BundleErrorView::InvalidLanguage(invalid_language(language@))
                },
            },
    {
        match store::parse_language(language) {
            Ok(langid) => {
                let bundle = Bundle {
                    bundle: store::new_bundle(langid),
                    compile_errors: Vec::new(),
                    outlines: StringHashMap::new(),
                };
                assert(bundle.errors() =~= Seq::empty());
                Ok(bundle)
            },
            Err(_) => {
                let mut message = "Invalid language: '".to_owned();
                message.append(language);
                message.append("'");
                Err(BundleError::InvalidLanguage(message))
            },
        }
    }
}

impl Bundle {
    /// Loads a file: keeps what validation finds, and adds the messages and terms of the file in
    /// the place of those that have the same identifiers. Where there is a reason to stop, the
    /// bundle is left as it was.
    pub fn add_file(
        &mut self,
        path: &str,
        contents: String,
        strict: bool,
        validate_references: bool,
    ) -> (loaded: Result<(), BundleError>)
        requires
            old(self).wf(),
            escapes::is_parsable(contents@),
        ensures
            final(self).wf(),
            final(self).settings() == old(self).settings(),
            match loaded {
                Ok(_) => {
                    &&& file_findings(
                        old(self).entries(),
                        path@,
                        contents@,
                        strict,
                        validate_references,
                    ) is Ok
                    &&& final(self).errors() == old(self).errors() + file_findings(
                        old(self).entries(),
                        path@,
                        contents@,
                        strict,
                        validate_references,
                    )->Ok_0
                    &&& final(self).entries() == store::with_entries(
                        old(self).entries(),
                        resource::parsed(contents@).entries,
                    )
                },
                Err(reason) => {
                    &&& file_findings(
                        old(self).entries(),
                        path@,
                        contents@,
                        strict,
                        validate_references,
                    ) == Err::<Seq<errors::ValidationErrorView>, BundleErrorView>(reason@)
                    &&& *final(self) == *old(self)
                },
            },
    {
        let ghost stored = self.entries();
        let ghost kept = self.errors();
        let resource = match resource::parse_resource(contents) {
            Ok(resource) => resource,
            Err((resource, parser_errors)) => {
                if strict {
                    let failure = describe_failure(
                        path,
                        resource::source_of(&resource),
                        &parser_errors,
                    );
                    return Err(BundleError::Parse(failure));
                }
                resource
            },
        };
        let second = duplicates::find_duplicates(&resource, &self.bundle);
        let mut faulty: Vec<ValidationError> = Vec::new();
        let mut cyclic: Vec<ValidationError> = Vec::new();
        if validate_references && !(strict && second.len() > 0) {
            faulty = references::check_references(&resource, &self.bundle);
            if !(strict && faulty.len() > 0) {
                cyclic = cycles::detect_cycles(&resource);
            }
        }
        let mut found = match settle(path, strict, validate_references, second, faulty, cyclic) {
            Ok(found) => found,
            Err(reason) => {
                return Err(reason);
            },
        };
        let entries = resource::entries_of(&resource);
        proof {
            let added = resource::resource_entries(resource);
            assert forall|i: int| 0 <= i < added.len() implies resource::has_proper_id(
                #[trigger] added[i],
            ) by {
                assert(added[i] == syntax::entry_view(*entries@[i]));
            }
            lemma_proper_store_grows(stored, added);
        }
        expansion::add_outlines(&mut self.outlines, &entries, Ghost(stored));
        let ghost more = errors::validation_errors_view(found@);
        store::add_resource_overriding(&mut self.bundle, resource);
        self.compile_errors.append(&mut found);
        assert(self.errors() =~= kept + more);
        Ok(())
    }
}

impl Bundle {
    /// Makes a bundle of a language out of the first of a list of files, as many as `count` says.
    fn load_first(
        language: &str,
        ftl_files: &Vec<SourceFile>,
        count: usize,
        strict: bool,
        validate_references: bool,
    ) -> (made: Result<Bundle, BundleError>)
        requires
            count <= ftl_files@.len(),
            forall|i: int|
                0 <= i < count ==> #[trigger] is_loadable(
                    language@,
                    files_view(ftl_files@),
                    i,
                    strict,
                    validate_references,
                ),
        ensures
            is_made(
                made,
                language@,
                files_view(ftl_files@).take(count as int),
                strict,
                validate_references,
            ),
    {
        let mut bundle = match Bundle::empty(language) {
            Ok(bundle) => bundle,
            Err(reason) => {
                return Err(reason);
            },
        };
        let ghost files = files_view(ftl_files@);
        let ghost settings = bundle.settings();
        let mut i: usize = 0;
        while i < count
            invariant
                i <= count <= ftl_files.len(),
                files == files_view(ftl_files@),
                forall|k: int|
                    0 <= k < count ==> #[trigger] is_loadable(
                        language@,
                        files,
                        k,
                        strict,
                        validate_references,
                    ),
                store::canonical_language(language@) is Some,
                bundle.wf(),
                bundle.settings() == settings,
                loaded_files(files.take(i as int), strict, validate_references) == Ok::<
                    LoadedView,
                    BundleErrorView,
                >(LoadedView { entries: bundle.entries(), errors: bundle.errors() }),
            decreases count - i,
        {
            let ghost before = files.take(i as int);
            let ghost upto = files.take(i + 1);
            proof {
                assert(upto.drop_last() =~= before);
                assert(upto.last() == ftl_files@[i as int]@);
                assert(is_loadable(language@, files, i as int, strict, validate_references));
            }
            let loaded = match &ftl_files[i].contents {
                Some(contents) => bundle.add_file(
                    ftl_files[i].path.as_str(),
                    contents.clone(),
                    strict,
                    validate_references,
                ),
                None => Err(BundleError::FileNotFound(i)),
            };
            if let Err(reason) = loaded {
                proof {
                    let first = files.take(count as int);
                    assert(first.take(i + 1) =~= upto);
                    lemma_reason_stands(first, i + 1, strict, validate_references);
                }
                return Err(reason);
            }
            i = i + 1;
        }
        Ok(bundle)
    }

    /// Makes a bundle of a language out of files, which are loaded one after the other. The parser
    /// has to take each file that loading comes to.
    pub fn new(
        language: &str,
        ftl_files: &Vec<SourceFile>,
        strict: bool,
        validate_references: bool,
    ) -> (made: Result<Bundle, BundleError>)
        requires
            forall|i: int|
                0 <= i < ftl_files@.len() ==> #[trigger] is_loadable(
                    language@,
                    files_view(ftl_files@),
                    i,
                    strict,
                    validate_references,
                ),
        ensures
            is_made(made, language@, files_view(ftl_files@), strict, validate_references),
    {
        proof {
            let files = files_view(ftl_files@);
            assert(files.take(ftl_files@.len() as int) =~= files);
        }
        Bundle::load_first(language, ftl_files, ftl_files.len(), strict, validate_references)
    }

    /// Makes a bundle of a language out of files, or `None` where loading comes to a file that the
    /// parser cannot take.
    pub fn load(
        language: &str,
        ftl_files: &Vec<SourceFile>,
        strict: bool,
        validate_references: bool,
    ) -> (made: Option<Result<Bundle, BundleError>>)
        ensures
            match made {
                Some(made) => is_made(
                    made,
                    language@,
                    files_view(ftl_files@),
                    strict,
                    validate_references,
                ),
                None => exists|i: int|
                    0 <= i < ftl_files@.len() && !#[trigger] is_loadable(
                        language@,
                        files_view(ftl_files@),
                        i,
                        strict,
                        validate_references,
                    ),
            },
    {
        let ghost files = files_view(ftl_files@);
        let mut i: usize = 0;
        while i < ftl_files.len()
            invariant
                i <= ftl_files.len(),
                files == files_view(ftl_files@),
                forall|k: int|
                    0 <= k < i ==> #[trigger] is_loadable(
                        language@,
                        files,
                        k,
                        strict,
                        validate_references,
                    ),
            decreases ftl_files.len() - i,
        {
            let parsable = match &ftl_files[i].contents {
                Some(contents) => escapes::check_parsable(contents.as_str()),
                None => true,
            };
            assert(files[i as int] == ftl_files@[i as int]@);
            if !parsable {
                let made = Bundle::load_first(
                    language,
                    ftl_files,
                    i,
                    strict,
                    validate_references,
                );
                if made.is_ok() {
                    assert(!is_loadable(language@, files, i as int, strict, validate_references));
                    return None;
                }
                proof {
                    if store::canonical_language(language@) is Some {
                        lemma_reason_stands(files, i as int, strict, validate_references);
                    }
                }
                return Some(made);
            }
            i = i + 1;
        }
        Some(Bundle::new(language, ftl_files, strict, validate_references))
    }


    /// The errors that were kept when files were loaded.
    pub fn get_compile_errors(&self) -> (errors: Vec<ValidationError>)
        ensures
            errors::validation_errors_view(errors@) == self.errors(),
    {
        let mut errors: Vec<ValidationError> = Vec::new();
        let mut i: usize = 0;
        while i < self.compile_errors.len()
            invariant
                i <= self.compile_errors.len(),
                errors@.len() == i,
                forall|k: int|
                    0 <= k < i ==> (#[trigger] errors@[k])@ == self.compile_errors@[k]@,
            decreases self.compile_errors.len() - i,
        {
            errors.push(self.compile_errors[i].clone());
            i = i + 1;
        }
        assert(errors::validation_errors_view(errors@) =~= self.errors());
        errors
    }

    /// Whether what an identifier names, if anything, can be formatted: nothing that it may come
    /// upon makes the formatter panic.
    pub fn formats_safely(&self, identifier: &str) -> (safe: bool)
        requires
            self.wf(),
        ensures
            safe == names_safely(self.entries(), identifier@),
    {
        match lookup::find_pattern(&self.bundle, identifier) {
            Ok(pattern) => {
                let (id, attribute) = lookup::split(identifier);
                let attribute = match attribute {
                    Some(attribute) => Some(attribute.to_owned()),
                    None => None,
                };
                let root = Reference { term: false, id: id.to_owned(), attribute };
                assert(root@ == lookup::root_reference(identifier@));
                expansion::check_formats_safely(
                    pattern,
                    &root,
                    &self.outlines,
                    Ghost(self.entries()),
                )
            },
            Err(_) => true,
        }
    }

    /// Whether a translation can be asked for: whether nothing is formatted, because of the
    /// identifier or of a key, or what is formatted can be.
    pub fn translates_safely(
        &self,
        identifier: &str,
        variables: Option<&Vec<Variable>>,
    ) -> (safe: bool)
        requires
            self.wf(),
        ensures
            safe == (comes_to_formatting(self.entries(), identifier@, variables_given(variables))
                ==> names_safely(self.entries(), identifier@)),
    {
        if self.formats_safely(identifier) {
            return true;
        }
        match variables {
            Some(variables) => variables::collect_arguments(variables).is_err(),
            None => false,
        }
    }

    /// Translates: formats the message or the attribute that an identifier names.
    ///
    /// The setting for directionality marks is that of the latest call, whatever comes of it.
    pub fn get_translation(
        &mut self,
        identifier: &str,
        variables: Option<&Vec<Variable>>,
        use_isolating: bool,
    ) -> (outcome: Result<Translation, TranslationError>)
        requires
            old(self).wf(),
            comes_to_formatting(
                old(self).entries(),
                identifier@,
                variables_given(variables),
            ) ==> names_safely(old(self).entries(), identifier@),
        ensures
            final(self).wf(),
            final(self).entries() == old(self).entries(),
            final(self).errors() == old(self).errors(),
            final(self).settings() == (store::SettingsView {
                isolating: use_isolating,
                ..old(self).settings()
            }),
            outcome_view(outcome) == translated(
                final(self).settings(),
                old(self).entries(),
                identifier@,
                variables_given(variables),
            ),
            outcome matches Ok(translation) ==> forall|i: int|
                0 <= i < translation.errors@.len() ==> is_known_type(
                    (#[trigger] translation.errors@[i]).error_type@,
                ),
    {
        store::set_use_isolating(&mut self.bundle, use_isolating);
        let pattern = match lookup::find_pattern(&self.bundle, identifier) {
            Ok(pattern) => pattern,
            Err(message) => {
                return Err(TranslationError::Value(message));
            },
        };
        let none: Vec<Variable> = Vec::new();
        assert(none@ =~= Seq::empty());
        let given = match variables {
            Some(variables) => variables,
            None => &none,
        };
        let (arguments, mut errors) = match variables::collect_arguments(given) {
            Ok(collected) => collected,
            Err(message) => {
                return Err(TranslationError::Type(message));
            },
        };
        assert(expansion::referred(self.entries(), lookup::root_reference(identifier@)) == Some(
            syntax::pattern_view(*pattern),
        ));
        let (text, format_errors) = store::format_pattern(&self.bundle, pattern, &arguments);
        let ghost on_variables = errors@;
        append_format_errors(&mut errors, &format_errors);
        proof {
            let all = errors::format_errors_view(errors@);
            let added = errors::format_errors(store::fluent_errors_view(format_errors@));
            let first = errors::format_errors_view(on_variables);
            variables::lemma_variable_error_types(given@);
            assert(all == first + added);
            assert(added.len() == format_errors@.len());
            assert forall|i: int| 0 <= i < errors@.len() implies is_known_type(
                (#[trigger] errors@[i]).error_type@,
            ) by {
                assert(all[i] == errors@[i]@);
                if i < first.len() {
                    assert(all[i] == first[i]);
                } else {
                    let k = i - first.len();
                    assert(all[i] == added[k]);
                    assert(store::fluent_error_view(format_errors@[k]).class
                        == store::ErrorClass::ResolverError);
                }
            }
        }
        Ok(Translation { text, errors })
    }
}

/// Whether asking for a translation comes to formatting a pattern.
pub open spec fn comes_to_formatting(
    entries: store::Entries,
    identifier: Seq<char>,
    variables: Seq<Variable>,
) -> bool {
    &&& lookup::named_pattern(entries, identifier) is Ok
    &&& variables::variables_arguments(variables) is Ok
}

/// Whether what an identifier names, if anything, can be formatted.
pub open spec fn names_safely(entries: store::Entries, identifier: Seq<char>) -> bool {
    lookup::named_pattern(entries, identifier) matches Ok(pattern) ==> expansion::formats_safely(
        entries,
        lookup::root_reference(identifier),
        pattern,
    )
}

/// Whether a translation can come with an error of a type.
pub open spec fn is_known_type(error_type: Seq<char>) -> bool {
    error_type == "InvalidVariableType"@ || error_type == "ResolverError"@
}

/// The variables that are given, none where the list is missing.
pub open spec fn variables_given(variables: Option<&Vec<Variable>>) -> Seq<Variable> {
    match variables {
        Some(variables) => variables@,
        None => Seq::empty(),
    }
}

/// Whether every name in a store is an identifier, and that of the entry which stands under it.
pub open spec fn store_is_proper(entries: store::Entries) -> bool {
    forall|id: Seq<char>| #[trigger]
        entries.contains_key(id) ==> resource::has_proper_id(entries[id]) && match entries[id] {
            syntax::EntryView::Message(message) => message.id == id,
            syntax::EntryView::Term(term) => term.id == id,
            syntax::EntryView::Other => false,
        }
}

/// A store stays proper when proper entries are added to it.
pub proof fn lemma_proper_store_grows(entries: store::Entries, added: Seq<syntax::EntryView>)
    requires
        store_is_proper(entries),
        forall|i: int| 0 <= i < added.len() ==> resource::has_proper_id(#[trigger] added[i]),
    ensures
        store_is_proper(store::with_entries(entries, added)),
    decreases added.len(),
{
    if added.len() > 0 {
        assert forall|i: int| 0 <= i < added.drop_last().len() implies resource::has_proper_id(
            #[trigger] added.drop_last()[i],
        ) by {
            assert(resource::has_proper_id(added[i]));
        }
        lemma_proper_store_grows(entries, added.drop_last());
        assert(resource::has_proper_id(added[added.len() - 1]));
    }
}

} // verus!
