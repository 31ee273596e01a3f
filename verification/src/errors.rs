//! The errors that loading and formatting report.

use crate::position;
use crate::resource;
use crate::store;
use crate::text;
use fluent_bundle::FluentError;
use fluent_syntax::parser::ParserError;
use vstd::prelude::*;
use vstd::string::StringExecFns;

verus! {

/// A parsing error with its location.
#[derive(Debug, PartialEq, Eq)]
pub struct ParseErrorDetail {
    /// What the parser says.
    pub message: String,
    /// The line of the error, counted from one.
    pub line: usize,
    /// The column of the error in bytes, counted from one.
    pub column: usize,
    /// The byte at which the error starts, counted from zero.
    pub byte_start: usize,
    /// The byte at which the error ends, counted from zero.
    pub byte_end: usize,
    /// The file in which the error lies, where there is one.
    pub filename: Option<String>,
}

/// The view of a parsing error.
pub struct ParseErrorDetailView {
    pub message: Seq<char>,
    pub line: nat,
    pub column: nat,
    pub byte_start: usize,
    pub byte_end: usize,
    pub filename: Option<Seq<char>>,
}

impl View for ParseErrorDetail {
    type V = ParseErrorDetailView;

    open spec fn view(&self) -> ParseErrorDetailView {
        ParseErrorDetailView {
            message: self.message@,
            line: self.line as nat,
            column: self.column as nat,
            byte_start: self.byte_start,
            byte_end: self.byte_end,
            filename: text::option_view(self.filename),
        }
    }
}

impl ParseErrorDetailView {
    /// The developer's form of the error.
    pub open spec fn repr(self) -> Seq<char> {
        self.repr_with(text::quoted(self.message))
    }

    /// The developer's form of the error, with the message as a literal.
    pub open spec fn repr_with(self, message: Seq<char>) -> Seq<char> {
        "ParseErrorDetail(message="@ + message + ", line="@ + text::decimal(
            self.line,
        ) + ", column="@ + text::decimal(self.column) + ", byte_start="@ + text::decimal(
            self.byte_start as nat,
        ) + ", byte_end="@ + text::decimal(self.byte_end as nat) + ")"@
    }

    /// The reader's form of the error.
    pub open spec fn str(self) -> Seq<char> {
        let place = text::decimal(self.line) + ":"@ + text::decimal(self.column) + ": "@
            + self.message;
        match self.filename {
            Some(filename) => filename + ":"@ + place,
            None => place,
        }
    }
}

impl ParseErrorDetail {
    /// The developer's form of the error.
    pub fn __repr__(&self) -> (repr: String)
        ensures
            repr@ == self@.repr(),
    {
        self.repr_with(text::quoted_text(self.message.as_str()).as_str())
    }

    /// The developer's form of the error, with the message as a literal.
    pub fn repr_with(&self, message: &str) -> (repr: String)
        ensures
            repr@ == self@.repr_with(message@),
    {
        let mut repr = "ParseErrorDetail(message=".to_owned();
        repr.append(message);
        repr.append(", line=");
        repr.append(text::decimal_text(self.line).as_str());
        repr.append(", column=");
        repr.append(text::decimal_text(self.column).as_str());
        repr.append(", byte_start=");
        repr.append(text::decimal_text(self.byte_start).as_str());
        repr.append(", byte_end=");
        repr.append(text::decimal_text(self.byte_end).as_str());
        repr.append(")");
        repr
    }

    /// The reader's form of the error: file, line, column and message.
    pub fn __str__(&self) -> (str: String)
        ensures
            str@ == self@.str(),
    {
        let mut str = String::new();
        if let Some(filename) = &self.filename {
            str.append(filename.as_str());
            str.append(":");
        }
        str.append(text::decimal_text(self.line).as_str());
        str.append(":");
        str.append(text::decimal_text(self.column).as_str());
        str.append(": ");
        str.append(self.message.as_str());
        assert(str@ =~= self@.str());
        str
    }

    /// The detail of a parser error in a source text.
    pub open spec fn detail(
        error: resource::ParserErrorView,
        source: Seq<char>,
        filename: Option<Seq<char>>,
    ) -> ParseErrorDetailView {
        let bytes = vstd::utf8::encode_utf8(source);
        ParseErrorDetailView {
            message: error.message,
            line: position::line_at(bytes, error.start as int),
            column: position::column_at(bytes, error.start as int),
            byte_start: error.start,
            byte_end: error.end,
            filename,
        }
    }

    /// Locates a parser error in its source text.
    pub fn from_parser_error(
        error: &ParserError,
        source: &str,
        filename: Option<String>,
    ) -> (detail: ParseErrorDetail)
        requires
            vstd::utf8::encode_utf8(source@).len() < usize::MAX,
            position::is_text_position(
                vstd::utf8::encode_utf8(source@),
                error.pos.start as int,
            ),
        ensures
            detail@ == ParseErrorDetail::detail(
                resource::parser_error_view(*error),
                source@,
                text::option_view(filename),
            ),
    {
        let (line, column) = position::byte_pos_to_line_col(source, error.pos.start);
        ParseErrorDetail {
            message: resource::error_kind_text(&error.kind),
            line,
            column,
            byte_start: error.pos.start,
            byte_end: error.pos.end,
            filename,
        }
    }
}

/// An error that validation found when a file was added.
#[derive(Debug, PartialEq, Eq)]
pub struct ValidationError {
    pub error_type: String,
    pub message: String,
    pub message_id: Option<String>,
    pub reference: Option<String>,
}

/// The view of a validation error.
pub struct ValidationErrorView {
    pub error_type: Seq<char>,
    pub message: Seq<char>,
    pub message_id: Option<Seq<char>>,
    pub reference: Option<Seq<char>>,
}

impl View for ValidationError {
    type V = ValidationErrorView;

    open spec fn view(&self) -> ValidationErrorView {
        ValidationErrorView {
            error_type: self.error_type@,
            message: self.message@,
            message_id: text::option_view(self.message_id),
            reference: text::option_view(self.reference),
        }
    }
}

/// The view of a list of validation errors.
pub open spec fn validation_errors_view(errors: Seq<ValidationError>) -> Seq<ValidationErrorView> {
    errors.map_values(|e: ValidationError| e@)
}

impl Clone for ValidationError {
    fn clone(&self) -> (copy: Self)
        ensures
            copy@ == self@,
    {
        ValidationError {
            error_type: self.error_type.clone(),
            message: self.message.clone(),
            message_id: match &self.message_id {
                Some(id) => Some(id.clone()),
                None => None,
            },
            reference: match &self.reference {
                Some(reference) => Some(reference.clone()),
                None => None,
            },
        }
    }
}

impl ValidationErrorView {
    /// The developer's form of the error.
    pub open spec fn repr(self) -> Seq<char> {
        ValidationErrorView::repr_with(
            text::quoted(self.error_type),
            text::quoted(self.message),
            text::quoted_option(self.message_id),
        )
    }

    /// The developer's form of an error, with the parts as literals.
    pub open spec fn repr_with(
        error_type: Seq<char>,
        message: Seq<char>,
        message_id: Seq<char>,
    ) -> Seq<char> {
        "ValidationError(type="@ + error_type + ", message="@ + message + ", message_id="@
            + message_id + ")"@
    }

    /// The reader's form of the error.
    pub open spec fn str(self) -> Seq<char> {
        match self.message_id {
            Some(id) => self.error_type + " in '"@ + id + "': "@ + self.message,
            None => self.error_type + ": "@ + self.message,
        }
    }
}

impl ValidationError {
    /// The developer's form of the error.
    pub fn __repr__(&self) -> (repr: String)
        ensures
            repr@ == self@.repr(),
    {
        ValidationError::repr_with(
            text::quoted_text(self.error_type.as_str()).as_str(),
            text::quoted_text(self.message.as_str()).as_str(),
            text::quoted_option_text(&self.message_id).as_str(),
        )
    }

    /// The developer's form of an error, with the parts as literals.
    pub fn repr_with(error_type: &str, message: &str, message_id: &str) -> (repr: String)
        ensures
            repr@ == ValidationErrorView::repr_with(error_type@, message@, message_id@),
    {
        let mut repr = "ValidationError(type=".to_owned();
        repr.append(error_type);
        repr.append(", message=");
        repr.append(message);
        repr.append(", message_id=");
        repr.append(message_id);
        repr.append(")");
        repr
    }

    /// The reader's form of the error: its type, the message it lies in, and what it says.
    pub fn __str__(&self) -> (str: String)
        ensures
            str@ == self@.str(),
    {
        let mut str = self.error_type.clone();
        if let Some(id) = &self.message_id {
            str.append(" in '");
            str.append(id.as_str());
            str.append("': ");
        } else {
            str.append(": ");
        }
        str.append(self.message.as_str());
        str
    }
}

/// An error that came up while a message was formatted.
#[derive(Debug, PartialEq, Eq)]
pub struct FormatError {
    pub error_type: String,
    pub message: String,
}

/// The view of a formatting error.
pub struct FormatErrorView {
    pub error_type: Seq<char>,
    pub message: Seq<char>,
}

impl View for FormatError {
    type V = FormatErrorView;

    open spec fn view(&self) -> FormatErrorView {
        FormatErrorView { error_type: self.error_type@, message: self.message@ }
    }
}

/// The view of a list of formatting errors.
pub open spec fn format_errors_view(errors: Seq<FormatError>) -> Seq<FormatErrorView> {
    errors.map_values(|e: FormatError| e@)
}

impl FormatErrorView {
    /// The developer's form of the error.
    pub open spec fn repr(self) -> Seq<char> {
        FormatErrorView::repr_with(text::quoted(self.error_type), text::quoted(self.message))
    }

    /// The developer's form of an error, with the parts as literals.
    pub open spec fn repr_with(error_type: Seq<char>, message: Seq<char>) -> Seq<char> {
        "FormatError(type="@ + error_type + ", message="@ + message + ")"@
    }

    /// The reader's form of the error.
    pub open spec fn str(self) -> Seq<char> {
        self.error_type + ": "@ + self.message
    }
}

/// The name of a class of errors of the store.
pub open spec fn class_name(class: store::ErrorClass) -> Seq<char> {
    match class {
        store::ErrorClass::Overriding => "Overriding"@,
        store::ErrorClass::ParserError => "ParserError"@,
        store::ErrorClass::ResolverError => "ResolverError"@,
    }
}

/// The formatting error that an error of the store becomes.
pub open spec fn format_error(error: store::FluentErrorView) -> FormatErrorView {
    FormatErrorView { error_type: class_name(error.class), message: error.message }
}

/// The formatting errors that errors of the store become.
pub open spec fn format_errors(list: Seq<store::FluentErrorView>) -> Seq<FormatErrorView> {
    list.map_values(|e: store::FluentErrorView| format_error(e))
}

impl FormatError {
    /// The developer's form of the error.
    pub fn __repr__(&self) -> (repr: String)
        ensures
            repr@ == self@.repr(),
    {
        FormatError::repr_with(
            text::quoted_text(self.error_type.as_str()).as_str(),
            text::quoted_text(self.message.as_str()).as_str(),
        )
    }

    /// The developer's form of an error, with the parts as literals.
    pub fn repr_with(error_type: &str, message: &str) -> (repr: String)
        ensures
            repr@ == FormatErrorView::repr_with(error_type@, message@),
    {
        let mut repr = "FormatError(type=".to_owned();
        repr.append(error_type);
        repr.append(", message=");
        repr.append(message);
        repr.append(")");
        repr
    }

    /// The reader's form of the error: its type, and what it says.
    pub fn __str__(&self) -> (str: String)
        ensures
            str@ == self@.str(),
    {
        let mut str = self.error_type.clone();
        str.append(": ");
        str.append(self.message.as_str());
        str
    }

    /// A formatting error of a class, with a text.
    pub fn of_class(class: store::ErrorClass, message: String) -> (error: FormatError)
        ensures
            error@ == format_error(store::FluentErrorView { class, message: message@ }),
    {
        let error_type = match class {
            store::ErrorClass::Overriding => "Overriding",
            store::ErrorClass::ParserError => "ParserError",
            store::ErrorClass::ResolverError => "ResolverError",
        };
        FormatError { error_type: error_type.to_owned(), message }
    }

    /// The formatting error that an error of the store becomes.
    pub fn from_fluent_error(error: &FluentError) -> (format_error: FormatError)
        ensures
            format_error@ == self::format_error(store::fluent_error_view(*error)),
            store::class_front(store::fluent_error_view(*error).class).is_prefix_of(
                format_error.message@,
            ),
    {
        FormatError::of_class(store::error_class(error), store::fluent_error_text(error))
    }
}

} // verus!
