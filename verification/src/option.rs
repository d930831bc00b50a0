//! Optional values: one child, `val`, that may be absent.

use vstd::prelude::*;
use crate::command::{lemma_parse_path, same_text, Command, CommandView};
use crate::context::{
    conclude, concluded, lemma_noted_nothing, lemma_noted_under, under, Context,
};
use crate::error::{Error, ErrorKind, Outcome};
use crate::json::{FromJson, Json, JsonView, ToJson};
use crate::reflect::{leaves_no_trace, run, Reflect};

verus! {

/// The one path element of an optional value.
pub open spec fn element_val() -> Seq<char> {
    seq!['v', 'a', 'l']
}

impl<T: FromJson> FromJson for Option<T> {
    open spec fn decoded(json: JsonView) -> Option<Option<T::V>> {
        match json {
            JsonView::Null => Some(None),
            _ => match T::decoded(json) {
                Some(value) => Some(Some(value)),
                None => None,
            },
        }
    }

    fn from_json(json: &Json) -> (result: Result<Self, Error>) {
        match json {
            Json::Null => Ok(None),
            _ => match T::from_json(json) {
                Ok(value) => Ok(Some(value)),
                Err(error) => Err(error),
            },
        }
    }
}

impl<T: ToJson> ToJson for Option<T> {
    open spec fn encoded(value: Option<T::V>) -> JsonView {
        match value {
            Some(inner) => T::encoded(inner),
            None => JsonView::Null,
        }
    }

    fn to_json(&self) -> (json: Json) {
        match self {
            Some(inner) => inner.to_json(),
            None => Json::Null,
        }
    }
}

impl<T: Reflect> Reflect for Option<T> {
    open spec fn apply(value: Option<T::V>, command: CommandView) -> (Option<T::V>, Outcome) {
        match command {
            CommandView::Path { element, command } => match value {
                Some(inner) if element == element_val() => {
                    let (after, outcome) = T::apply(inner, *command);
                    (Some(after), outcome)
                },
                _ => (value, Err(ErrorKind::PathError)),
            },
            CommandView::Assign { value: json } => match T::decoded(json) {
                Some(new) => (Some(new), Ok(())),
                None => (value, Err(ErrorKind::Json)),
            },
            CommandView::Remove { key } => (None, Ok(())),
            _ => (value, Err(ErrorKind::IncompatibleCommand)),
        }
    }

    open spec fn echoes(value: Option<T::V>, command: CommandView) -> Seq<(Seq<char>, bool)> {
        match (command, value) {
            (CommandView::Path { element, command }, Some(inner)) => if element == element_val() {
                under(element, T::echoes(inner, *command))
            } else {
                Seq::empty()
            },
            _ => concluded(command, Self::apply(value, command).1),
        }
    }

    proof fn lemma_assign_twice(value: Self::V, json: JsonView) {
    }

    fn command<C: Context>(&mut self, context: &mut C, command: &Command) -> (result: Result<
        (),
        Error,
    >) {
        proof {
            lemma_noted_nothing(context.observes(), context.path(), context.log());
        }
        let result = match command {
            Command::Path { element, command } => {
                proof {
                    reveal_strlit("val");
                    assert("val"@ =~= element_val());
                }
                if same_text(element.as_str(), "val") {
                    match self {
                        Some(inner) => {
                            let ghost held = inner.deep_view();
                            context.descend(element.as_str());
                            let result = inner.command(context, command);
                            context.ascend();
                            proof {
                                lemma_noted_under(
                                    old(context).observes(),
                                    old(context).path(),
                                    element@,
                                    old(context).log(),
                                    T::echoes(held, command@),
                                );
                            }
                            result
                        },
                        None => Err(Error::PathError),
                    }
                } else {
                    Err(Error::PathError)
                }
            },
            Command::Assign { value } => match T::from_json(value) {
                Ok(new) => {
                    *self = Some(new);
                    Ok(())
                },
                Err(error) => Err(error),
            },
            Command::Remove { key } => {
                *self = None;
                Ok(())
            },
            _ => Err(Error::IncompatibleCommand),
        };
        conclude(context, command, result)
    }
}

/// A path composes: running `val/rest` on an optional value that is present
/// is running `rest` on what it holds.
pub proof fn lemma_path_into_option<T: Reflect>(value: T::V, rest: Seq<char>)
    ensures
        ({
            let inner = run::<T>(value, rest);
            run::<Option<T>>(Some(value), element_val() + seq!['/'] + rest) == (
                Some(inner.0),
                inner.1,
            )
        }),
{
    let element = element_val();
    assert forall|j: int| 0 <= j < element.len() implies element[j] != '/' by {}
    lemma_parse_path(element, rest);
}

/// An optional value has one child, `val`, and only while it is present: a
/// path with another element, or into an absent value, is refused with a
/// path error and changes nothing.
pub proof fn lemma_no_such_child<T: Reflect>(
    value: Option<T::V>,
    element: Seq<char>,
    command: CommandView,
)
    requires
        element != element_val() || value is None,
    ensures
        <Option<T> as Reflect>::apply(
            value,
            CommandView::Path { element, command: Box::new(command) },
        ) == (value, Err::<(), ErrorKind>(ErrorKind::PathError)),
{
}

/// An optional value leaves no trace of a command that it refuses, if what it
/// holds leaves none.
pub proof fn lemma_option_leaves_no_trace<T: Reflect>()
    requires
        leaves_no_trace::<T>(),
    ensures
        leaves_no_trace::<Option<T>>(),
{
    assert forall|value: Option<T::V>, command: CommandView|
        (#[trigger] <Option<T> as Reflect>::apply(value, command)).1 is Err implies <Option<
        T,
    > as Reflect>::apply(value, command).0 == value by {}
}

} // verus!
