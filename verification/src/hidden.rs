//! State that belongs to one replica only: it takes no command and does not
//! travel.

use vstd::prelude::*;
use crate::command::{Command, CommandView};
use crate::context::{lemma_noted_nothing, Context};
use crate::error::{Error, ErrorKind, Outcome};
use crate::json::{FromJson, Json, JsonView, ToJson};
use crate::reflect::{leaves_no_trace, Reflect};

verus! {

/// A value that is kept out of replication.
///
/// A hidden value refuses every command, is written as `null` whatever it
/// holds, and is empty after it was read, whatever was read.
pub struct Hidden<T>(Option<T>);

impl<T> Hidden<T> {
    /// What the wrapper holds: nothing after it was read from a dynamic
    /// value.
    pub closed spec fn content(&self) -> Option<T> {
        self.0
    }

    /// Wraps a value.
    pub fn new(value: T) -> (hidden: Self)
        ensures
            hidden.content() == Some(value),
    {
        Hidden(Some(value))
    }

    /// Unwraps the value, unless the wrapper is empty.
    pub fn into_inner(self) -> (value: Option<T>)
        ensures
            value == self.content(),
    {
        self.0
    }

    /// The value, unless the wrapper is empty.
    pub fn as_ref(&self) -> (value: Option<&T>)
        ensures
            match value {
                Some(held) => self.content() == Some(*held),
                None => self.content() is None,
            },
    {
        self.0.as_ref()
    }

    /// The value for changing it in place, unless the wrapper is empty.
    pub fn as_mut(&mut self) -> (value: Option<&mut T>)
        ensures
            match value {
                Some(held) => old(self).content() == Some(*held) && final(self).content() == Some(
                    *final(held),
                ),
                None => old(self).content() is None && final(self).content() is None,
            },
    {
        self.0.as_mut()
    }
}

/// The default wrapper is empty.
impl<T> Default for Hidden<T> {
    fn default() -> (hidden: Self)
        ensures
            hidden.content() is None,
    {
        Hidden(None)
    }
}

impl<T> DeepView for Hidden<T> {
    type V = Option<T>;

    open spec fn deep_view(&self) -> Option<T> {
        self.content()
    }
}

impl<T> FromJson for Hidden<T> {
    open spec fn decoded(json: JsonView) -> Option<Option<T>> {
        Some(None)
    }

    fn from_json(json: &Json) -> (result: Result<Self, Error>) {
        Ok(Hidden(None))
    }
}

impl<T> ToJson for Hidden<T> {
    open spec fn encoded(value: Option<T>) -> JsonView {
        JsonView::Null
    }

    fn to_json(&self) -> (json: Json) {
        Json::Null
    }
}

impl<T> Reflect for Hidden<T> {
    open spec fn apply(value: Option<T>, command: CommandView) -> (Option<T>, Outcome) {
        (value, Err(ErrorKind::IncompatibleCommand))
    }

    open spec fn echoes(value: Option<T>, command: CommandView) -> Seq<(Seq<char>, bool)> {
        Seq::empty()
    }

    proof fn lemma_assign_twice(value: Self::V, json: JsonView) {
    }

    fn command<C: Context>(&mut self, context: &mut C, command: &Command) -> (result: Result<
        (),
        Error,
    >) {
        proof {
            lemma_noted_nothing(context.observes(), context.path(), context.log());
        }
        Err(Error::IncompatibleCommand)
    }
}

/// A hidden value does not survive being written and read back: whatever it
/// held, and whatever is read, the result is empty.
pub proof fn lemma_hidden_is_invisible<T>(content: Option<T>, json: JsonView)
    ensures
        Hidden::<T>::encoded(content) == JsonView::Null,
        Hidden::<T>::decoded(Hidden::<T>::encoded(content)) == Some(None::<T>),
        Hidden::<T>::decoded(json) == Some(None::<T>),
{
}

/// A hidden value leaves no trace of a command: it refuses all of them.
pub proof fn lemma_hidden_leaves_no_trace<T>()
    ensures
        leaves_no_trace::<Hidden<T>>(),
{
}

} // verus!
