//! The variables that a translation is asked for with.

use crate::date;
use crate::errors;
use crate::errors::FormatError;
use crate::store;
use crate::text;
use fluent::FluentArgs;
use vstd::prelude::*;
use vstd::string::StringExecFns;

verus! {

/// The key of a variable.
#[derive(Debug, PartialEq, Eq)]
pub enum VariableKey {
    Text(String),
    /// Anything but a text, as it prints.
    Other(String),
}

/// The value of a variable.
#[derive(Debug, PartialEq, Eq)]
pub enum VariableValue {
    Text(String),
    /// An integer, or `None` where it is too large for a message.
    Integer(Option<i32>),
    Date { year: i32, month: u32, day: u32 },
    /// A value of a type that messages do not take.
    Other,
}

/// A variable.
#[derive(Debug, PartialEq, Eq)]
pub struct Variable {
    pub key: VariableKey,
    pub value: VariableValue,
}

/// The view of the value of a variable: the argument that it becomes, or `None` where messages do
/// not take it.
pub open spec fn value_argument(value: VariableValue) -> Option<store::ArgumentView> {
    match value {
        VariableValue::Text(text) => Some(store::ArgumentView::Text(text@)),
        VariableValue::Integer(integer) => match integer {
            Some(integer) => Some(store::ArgumentView::Integer(integer)),
            None => None,
        },
        VariableValue::Date { year, month, day } => {
            let date = date::DateView { year: year as int, month: month as int, day: day as int };
            if date::is_date(date) {
                Some(store::ArgumentView::Text(date::iso_date(date)))
            } else {
                None
            }
        },
        VariableValue::Other => None,
    }
}

/// The argument that a variable becomes. Where messages do not take the value, the key stands in.
pub open spec fn argument(key: Seq<char>, value: VariableValue) -> store::ArgumentView {
    match value_argument(value) {
        Some(argument) => argument,
        None => store::ArgumentView::Text(key),
    }
}

/// The error on a variable whose value messages do not take.
pub open spec fn unsupported_variable(key: Seq<char>) -> errors::FormatErrorView {
    errors::FormatErrorView {
        error_type: "InvalidVariableType"@,
        message: "Variable '"@ + key
            + "' has unsupported type, expected str/int/date. Using key as fallback."@,
    }
}

/// What is said of a key that is not a text.
pub open spec fn invalid_key(printed: Seq<char>) -> Seq<char> {
    "Variable key not a str, got "@ + printed + "."@
}

/// The view of what variables become: arguments, and errors on values that messages do not take.
pub struct ArgumentsView {
    pub arguments: store::Arguments,
    pub errors: Seq<errors::FormatErrorView>,
}

/// What variables become, or what is said of the first key that is not a text. Of several
/// variables with one key, the last one counts.
pub open spec fn variables_arguments(variables: Seq<Variable>) -> Result<ArgumentsView, Seq<char>>
    decreases variables.len(),
{
    if variables.len() == 0 {
        Ok(ArgumentsView { arguments: store::Arguments::empty(), errors: Seq::empty() })
    } else {
        match variables_arguments(variables.drop_last()) {
            Err(message) => Err(message),
            Ok(before) => match variables.last().key {
                VariableKey::Other(printed) => Err(invalid_key(printed@)),
                VariableKey::Text(key) => Ok(
                    ArgumentsView {
                        arguments: before.arguments.insert(
                            key@,
                            argument(key@, variables.last().value),
                        ),
                        errors: if value_argument(variables.last().value) is Some {
                            before.errors
                        } else {
                            before.errors.push(unsupported_variable(key@))
                        },
                    },
                ),
            },
        }
    }
}

/// A key that is not a text decides, whatever follows.
proof fn lemma_invalid_key_decides(variables: Seq<Variable>, i: int)
    requires
        0 <= i <= variables.len(),
        variables_arguments(variables.take(i)) is Err,
    ensures
        variables_arguments(variables) == variables_arguments(variables.take(i)),
    decreases variables.len() - i,
{
    if i < variables.len() {
        assert(variables.take(i + 1).drop_last() =~= variables.take(i));
        lemma_invalid_key_decides(variables, i + 1);
    } else {
        assert(variables.take(i) =~= variables);
    }
}

/// All errors on variables are of one type.
pub proof fn lemma_variable_error_types(variables: Seq<Variable>)
    requires
        variables_arguments(variables) is Ok,
    ensures
        forall|i: int|
            0 <= i < variables_arguments(variables)->Ok_0.errors.len() ==> (
            #[trigger] variables_arguments(variables)->Ok_0.errors[i]).error_type
                == "InvalidVariableType"@,
    decreases variables.len(),
{
    if variables.len() > 0 {
        lemma_variable_error_types(variables.drop_last());
    }
}

/// Sets the argument that a variable becomes. Tells whether messages take the value.
fn set_argument(arguments: &mut FluentArgs, key: &String, value: &VariableValue) -> (taken: bool)
    ensures
        store::arguments_of(*final(arguments)) == store::arguments_of(*old(arguments)).insert(
            key@,
            argument(key@, *value),
        ),
        taken == (value_argument(*value) is Some),
{
    match value {
        VariableValue::Text(text) => {
            store::set_text(arguments, key.clone(), text.clone());
            return true;
        },
        VariableValue::Integer(Some(integer)) => {
            store::set_integer(arguments, key.clone(), *integer);
            return true;
        },
        VariableValue::Date { year, month, day } => {
            if let Some(text) = date::date_text(*year, *month, *day) {
                store::set_text(arguments, key.clone(), text);
                return true;
            }
        },
        _ => {},
    }
    store::set_text(arguments, key.clone(), key.clone());
    false
}

/// Makes arguments out of variables.
pub fn collect_arguments(variables: &Vec<Variable>) -> (collected: Result<
    (FluentArgs<'static>, Vec<FormatError>),
    String,
>)
    ensures
        match collected {
            Ok((arguments, errors)) => variables_arguments(variables@) == Ok::<
                ArgumentsView,
                Seq<char>,
            >(
                ArgumentsView {
                    arguments: store::arguments_of(arguments),
                    errors: errors::format_errors_view(errors@),
                },
            ),
            Err(message) => variables_arguments(variables@) == Err::<ArgumentsView, Seq<char>>(
                message@,
            ),
        },
{
    let mut arguments = store::new_arguments();
    let mut errors: Vec<FormatError> = Vec::new();
    let mut i: usize = 0;
    assert(errors::format_errors_view(errors@) =~= Seq::empty());
    while i < variables.len()
        invariant
            i <= variables.len(),
            variables_arguments(variables@.take(i as int)) == Ok::<ArgumentsView, Seq<char>>(
                ArgumentsView {
                    arguments: store::arguments_of(arguments),
                    errors: errors::format_errors_view(errors@),
                },
            ),
        decreases variables.len() - i,
    {
        let ghost before = errors::format_errors_view(errors@);
        proof {
            assert(variables@.take(i + 1).drop_last() =~= variables@.take(i as int));
        }
        match &variables[i].key {
            VariableKey::Other(printed) => {
                let mut message = "Variable key not a str, got ".to_owned();
                message.append(printed.as_str());
                message.append(".");
                proof {
                    lemma_invalid_key_decides(variables@, i + 1);
                }
                return Err(message);
            },
            VariableKey::Text(key) => {
                if !set_argument(&mut arguments, key, &variables[i].value) {
                    let mut message = "Variable '".to_owned();
                    message.append(key.as_str());
                    message.append(
                        "' has unsupported type, expected str/int/date. Using key as fallback.",
                    );
                    let error = FormatError {
                        error_type: "InvalidVariableType".to_owned(),
                        message,
                    };
                    errors.push(error);
                    assert(errors::format_errors_view(errors@) =~= before.push(error@));
                }
            },
        }
        i = i + 1;
    }
    assert(variables@.take(i as int) =~= variables@);
    Ok((arguments, errors))
}

} // verus!
