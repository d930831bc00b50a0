//! Sequences: children addressed by position.

use vstd::prelude::*;
use std::collections::VecDeque;
use crate::command::{is_terminal, lemma_parse_path, parse_spec, Command, CommandView};
use crate::context::{
    conclude, concluded, lemma_noted_nothing, lemma_noted_under, under, Context,
};
use crate::error::{Error, ErrorKind, Outcome};
use crate::json::{lemma_views, views, FromJson, Json, JsonView, ToJson};
use crate::reflect::{leaves_no_trace, run, Reflect};

verus! {

broadcast use vstd::seq::group_seq_axioms;

/// The value of a decimal digit.
pub open spec fn digit(symbol: char) -> Option<nat> {
    if '0' as u32 <= symbol as u32 && symbol as u32 <= '9' as u32 {
        Some((symbol as u32 - '0' as u32) as nat)
    } else {
        None
    }
}

/// The number that a run of decimal digits denotes.
pub open spec fn decimal(digits: Seq<char>) -> nat
    decreases digits.len(),
{
    if digits.len() == 0 {
        0
    } else {
        decimal(digits.drop_last()) * 10 + digit(digits.last()).unwrap_or(0)
    }
}

/// Whether a text holds decimal digits only.
pub open spec fn all_digits(text: Seq<char>) -> bool {
    forall|i: int| 0 <= i < text.len() ==> digit(#[trigger] text[i]) is Some
}

/// A text without the `+` sign that it may begin with.
pub open spec fn unsigned(text: Seq<char>) -> Seq<char> {
    if text.len() > 0 && text[0] == '+' {
        text.skip(1)
    } else {
        text
    }
}

/// The index that a path element denotes: an optional `+` and then decimal
/// digits, at least one, and nothing else.
pub open spec fn index_of(element: Seq<char>) -> Option<nat> {
    let digits = unsigned(element);
    if digits.len() > 0 && all_digits(digits) {
        Some(decimal(digits))
    } else {
        None
    }
}

/// Parses a path element as an index (`str::parse::<usize>`). By the
/// documentation of the standard library the text is an optional `+` sign
/// followed by decimal digits only, and parsing fails on an empty run of
/// digits, on any other character, and on a number that does not fit.
#[verifier::external_body]
pub(crate) fn parse_index(element: &str) -> (result: Result<usize, core::num::ParseIntError>)
    ensures
        match result {
            Ok(index) => index_of(element@) == Some(index as nat),
            Err(_) => match index_of(element@) {
                Some(index) => index > usize::MAX,
                None => true,
            },
        },
{
    element.parse::<usize>()
}

/// The values that the items of an array are read as, if all of them can be
/// read.
pub open spec fn decoded_items<T: FromJson>(items: Seq<JsonView>) -> Option<Seq<T::V>> {
    if forall|i: int| 0 <= i < items.len() ==> (#[trigger] T::decoded(items[i])) is Some {
        Some(Seq::new(items.len(), |i: int| T::decoded(items[i]).unwrap()))
    } else {
        None
    }
}

/// The dynamic values of the items of a sequence.
pub open spec fn encoded_items<T: ToJson>(items: Seq<T::V>) -> Seq<JsonView> {
    Seq::new(items.len(), |i: int| T::encoded(items[i]))
}

/// What a command does to a sequence.
///
/// A path leads into the element at the index that the path element
/// denotes. `set:` replaces the sequence, `push:` appends, `pop:` drops the
/// last element if there is one, `remove:` takes out the element at an index.
/// An index past the end is a [`ErrorKind::PathError`] in a path; in
/// `remove:` it is one where `strict` holds, and otherwise leaves the
/// sequence as it is.
pub open spec fn apply_sequence<T: Reflect>(
    value: Seq<T::V>,
    command: CommandView,
    strict: bool,
) -> (Seq<T::V>, Outcome) {
    match command {
        CommandView::Path { element, command } => match index_of(element) {
            Some(index) => if index > usize::MAX {
                (value, Err(ErrorKind::ParseIntError))
            } else if index < value.len() {
                let (after, outcome) = T::apply(value[index as int], *command);
                (value.update(index as int, after), outcome)
            } else {
                (value, Err(ErrorKind::PathError))
            },
            None => (value, Err(ErrorKind::ParseIntError)),
        },
        CommandView::Assign { value: json } => match json {
            JsonView::Array(items) => match decoded_items::<T>(items) {
                Some(new) => (new, Ok(())),
                None => (value, Err(ErrorKind::Json)),
            },
            _ => (value, Err(ErrorKind::Json)),
        },
        CommandView::Push { value: json } => match T::decoded(json) {
            Some(item) => (value.push(item), Ok(())),
            None => (value, Err(ErrorKind::Json)),
        },
        CommandView::Pop => if value.len() > 0 {
            (value.drop_last(), Ok(()))
        } else {
            (value, Ok(()))
        },
        CommandView::Remove { key } => match usize::decoded(key) {
            Some(index) => if index < value.len() {
                (value.remove(index as int), Ok(()))
            } else if strict {
                (value, Err(ErrorKind::PathError))
            } else {
                (value, Ok(()))
            },
            None => (value, Err(ErrorKind::Json)),
        },
        _ => (value, Err(ErrorKind::IncompatibleCommand)),
    }
}

/// What a command records on its way through a sequence: what it records in
/// the element that its path leads into, behind the element of the path.
pub open spec fn echoes_below<T: Reflect>(value: Seq<T::V>, command: CommandView) -> Seq<
    (Seq<char>, bool),
> {
    match command {
        CommandView::Path { element, command } => match index_of(element) {
            Some(index) => if index <= usize::MAX && index < value.len() {
                under(element, T::echoes(value[index as int], *command))
            } else {
                Seq::empty()
            },
            None => Seq::empty(),
        },
        _ => Seq::empty(),
    }
}

/// What a command records in a sequence: a path what it records below, a
/// terminal command that the sequence has carried out the command itself.
pub open spec fn echoes_sequence<T: Reflect>(
    value: Seq<T::V>,
    command: CommandView,
    strict: bool,
) -> Seq<(Seq<char>, bool)> {
    if command is Path {
        echoes_below::<T>(value, command)
    } else {
        concluded(command, apply_sequence::<T>(value, command, strict).1)
    }
}

/// Reads the items of an array one by one.
fn read_items<T: FromJson>(items: &Vec<Json>) -> (result: Result<Vec<T>, Error>)
    ensures
        match decoded_items::<T>(views(items@)) {
            Some(values) => result is Ok && result->Ok_0.deep_view() == values,
            None => result is Err && result->Err_0@ is Json,
        },
{
    let ghost sources = views(items@);
    proof {
        lemma_views(items@);
    }
    let mut values: Vec<T> = Vec::new();
    let mut i: usize = 0;
    while i < items.len()
        invariant
            i <= items.len(),
            values.len() == i,
            sources == views(items@),
            sources.len() == items@.len(),
            forall|j: int| 0 <= j < items@.len() ==> sources[j] == items@[j]@,
            forall|j: int| 0 <= j < i ==> T::decoded(sources[j]) == Some(values@[j].deep_view()),
        decreases items.len() - i,
    {
        match T::from_json(&items[i]) {
            Ok(value) => {
                values.push(value);
            },
            Err(error) => {
                assert(T::decoded(sources[i as int]) is None);
                return Err(error);
            },
        }
        i += 1;
    }
    Ok(values)
}

/// Writes the items of a sequence one by one.
fn write_items<T: ToJson>(items: &Vec<T>) -> (json: Vec<Json>)
    ensures
        views(json@) == encoded_items::<T>(items.deep_view()),
{
    let mut json: Vec<Json> = Vec::new();
    let mut i: usize = 0;
    while i < items.len()
        invariant
            i <= items.len(),
            json.len() == i,
            forall|j: int| 0 <= j < i ==> json@[j]@ == T::encoded(items@[j].deep_view()),
        decreases items.len() - i,
    {
        json.push(items[i].to_json());
        i += 1;
    }
    proof {
        lemma_views(json@);
    }
    json
}

impl<T: FromJson> FromJson for Vec<T> {
    open spec fn decoded(json: JsonView) -> Option<Seq<T::V>> {
        match json {
            JsonView::Array(items) => decoded_items::<T>(items),
            _ => None,
        }
    }

    fn from_json(json: &Json) -> (result: Result<Self, Error>) {
        match json {
            Json::Array(items) => {
read_items(items)
            },
            _ => Err(Json::unexpected("an array")),
        }
    }
}

impl<T: ToJson> ToJson for Vec<T> {
    open spec fn encoded(value: Seq<T::V>) -> JsonView {
        JsonView::Array(encoded_items::<T>(value))
    }

    fn to_json(&self) -> (json: Json) {
        Json::Array(write_items(self))
    }
}

impl<T: Reflect> Reflect for Vec<T> {
    open spec fn apply(value: Seq<T::V>, command: CommandView) -> (Seq<T::V>, Outcome) {
        apply_sequence::<T>(value, command, true)
    }

    open spec fn echoes(value: Seq<T::V>, command: CommandView) -> Seq<(Seq<char>, bool)> {
        echoes_sequence::<T>(value, command, true)
    }

    proof fn lemma_assign_twice(value: Self::V, json: JsonView) {
    }

    fn command<C: Context>(&mut self, context: &mut C, command: &Command) -> (result: Result<
        (),
        Error,
    >) {
        proof {
            lemma_noted_nothing(context.observes(), context.path(), context.log());
        }
        let result = match command {
            Command::Path { element, command } => match parse_index(element.as_str()) {
                Ok(index) => {
                    if index < self.len() {
                        context.descend(element.as_str());
                        let result = self[index].command(context, command);
                        context.ascend();
                        proof {
                            lemma_noted_under(
                                old(context).observes(),
                                old(context).path(),
                                element@,
                                old(context).log(),
                                T::echoes(old(self).deep_view()[index as int], command@),
                            );
                        }
                        result
                    } else {
                        Err(Error::PathError)
                    }
                },
                Err(error) => Err(Error::ParseIntError(error)),
            },
            Command::Assign { value } => match <Vec<T> as FromJson>::from_json(value) {
                Ok(new) => {
                    *self = new;
                    Ok(())
                },
                Err(error) => Err(error),
            },
            Command::Push { value } => match T::from_json(value) {
                Ok(item) => {
                    self.push(item);
                    Ok(())
                },
                Err(error) => Err(error),
            },
            Command::Pop => {
                self.pop();
                Ok(())
            },
            Command::Remove { key } => match usize::from_json(key) {
                Ok(index) => {
                    if index < self.len() {
                        self.remove(index);
                        Ok(())
                    } else {
                        Err(Error::PathError)
                    }
                },
                Err(error) => Err(error),
            },
            _ => Err(Error::IncompatibleCommand),
        };
        conclude(context, command, result)
    }
}

/// The element of a queue at an index, for changing it in place
/// (`VecDeque::get_mut`): `None` if the index is past the end. The queue is
/// what it was but for the element, which is what the reference is left
/// with.
#[verifier::external_body]
fn queue_get_mut<T>(queue: &mut VecDeque<T>, index: usize) -> (element: Option<&mut T>)
    ensures
        match element {
            Some(held) => index < old(queue)@.len() && *held == old(queue)@[index as int]
                && final(queue)@ == old(queue)@.update(index as int, *final(held)),
            None => index >= old(queue)@.len() && final(queue)@ == old(queue)@,
        },
{
    queue.get_mut(index)
}

impl<T: FromJson> FromJson for VecDeque<T> {
    open spec fn decoded(json: JsonView) -> Option<Seq<T::V>> {
        match json {
            JsonView::Array(items) => decoded_items::<T>(items),
            _ => None,
        }
    }

    fn from_json(json: &Json) -> (result: Result<Self, Error>) {
        match json {
            Json::Array(items) => match read_items::<T>(items) {
                Ok(values) => {
                    let mut queue: VecDeque<T> = VecDeque::new();
                    let ghost all = values@;
                    for item in iter: values
                        invariant
                            iter.seq() == all,
                            queue@ == all.take(iter.index() as int),
                    {
                        queue.push_back(item);
                    }
                    assert(queue.deep_view() =~= decoded_items::<T>(views(items@)).unwrap());
                    Ok(queue)
                },
                Err(error) => Err(error),
            },
            _ => Err(Json::unexpected("an array")),
        }
    }
}

impl<T: ToJson> ToJson for VecDeque<T> {
    open spec fn encoded(value: Seq<T::V>) -> JsonView {
        JsonView::Array(encoded_items::<T>(value))
    }

    fn to_json(&self) -> (json: Json) {
        let mut items: Vec<Json> = Vec::new();
        let mut i: usize = 0;
        while i < self.len()
            invariant
                i <= self.len(),
                items.len() == i,
                forall|j: int| 0 <= j < i ==> items@[j]@ == T::encoded(self@[j].deep_view()),
            decreases self.len() - i,
        {
            items.push(self[i].to_json());
            i += 1;
        }
        proof {
            lemma_views(items@);
        }
        assert(views(items@) =~= encoded_items::<T>(self.deep_view()));
        Json::Array(items)
    }
}

impl<T: Reflect> Reflect for VecDeque<T> {
    open spec fn apply(value: Seq<T::V>, command: CommandView) -> (Seq<T::V>, Outcome) {
        apply_sequence::<T>(value, command, false)
    }

    open spec fn echoes(value: Seq<T::V>, command: CommandView) -> Seq<(Seq<char>, bool)> {
        echoes_sequence::<T>(value, command, false)
    }

    proof fn lemma_assign_twice(value: Self::V, json: JsonView) {
    }

    fn command<C: Context>(&mut self, context: &mut C, command: &Command) -> (result: Result<
        (),
        Error,
    >) {
        proof {
            lemma_noted_nothing(context.observes(), context.path(), context.log());
        }
        let result = match command {
            Command::Path { element, command } => match parse_index(element.as_str()) {
                Ok(index) => match queue_get_mut(self, index) {
                    Some(held) => {
                        context.descend(element.as_str());
                        let result = held.command(context, command);
                        context.ascend();
                        proof {
                            lemma_noted_under(
                                old(context).observes(),
                                old(context).path(),
                                element@,
                                old(context).log(),
                                T::echoes(old(self).deep_view()[index as int], command@),
                            );
                        }
                        result
                    },
                    None => Err(Error::PathError),
                },
                Err(error) => Err(Error::ParseIntError(error)),
            },
            Command::Assign { value } => match <VecDeque<T> as FromJson>::from_json(value) {
                Ok(new) => {
                    *self = new;
                    Ok(())
                },
                Err(error) => Err(error),
            },
            Command::Push { value } => match T::from_json(value) {
                Ok(item) => {
                    self.push_back(item);
                    Ok(())
                },
                Err(error) => Err(error),
            },
            Command::Pop => {
                self.pop_back();
                Ok(())
            },
            Command::Remove { key } => match usize::from_json(key) {
                Ok(index) => {
                    self.remove(index);
                    Ok(())
                },
                Err(error) => Err(error),
            },
            _ => Err(Error::IncompatibleCommand),
        };
        conclude(context, command, result)
    }
}

/// Makes an array of the items of a vector (`TryFrom<Vec<T>>` of `[T; N]`,
/// through `TryInto::try_into`): the items in their order, if there are
/// exactly as many as the array holds.
#[verifier::external_body]
fn into_array<T, const N: usize>(items: Vec<T>) -> (array: Option<[T; N]>)
    ensures
        match array {
            Some(array) => items@.len() == N && array@ == items@,
            None => items@.len() != N,
        },
{
    items.try_into().ok()
}

/// What a command does to an array of `size` elements: a path leads into
/// the element at an index, `set:` replaces all elements at once and needs
/// exactly as many values as the array holds, and nothing else is taken.
pub open spec fn apply_array<T: Reflect>(value: Seq<T::V>, command: CommandView, size: nat) -> (
    Seq<T::V>,
    Outcome,
) {
    match command {
        CommandView::Path { .. } => apply_sequence::<T>(value, command, true),
        CommandView::Assign { value: json } => match decoded_array::<T>(json, size) {
            Some(new) => (new, Ok(())),
            None => (value, Err(ErrorKind::Json)),
        },
        _ => (value, Err(ErrorKind::IncompatibleCommand)),
    }
}

/// The elements that a dynamic value is read as for an array of `size`
/// elements: an array of exactly that many items that can all be read.
pub open spec fn decoded_array<T: FromJson>(json: JsonView, size: nat) -> Option<Seq<T::V>> {
    match json {
        JsonView::Array(items) => if items.len() == size {
            decoded_items::<T>(items)
        } else {
            None
        },
        _ => None,
    }
}

impl<T: FromJson, const N: usize> FromJson for [T; N] {
    open spec fn decoded(json: JsonView) -> Option<Seq<T::V>> {
        decoded_array::<T>(json, N as nat)
    }

    fn from_json(json: &Json) -> (result: Result<Self, Error>) {
        match json {
            Json::Array(items) => {
                proof {
                    lemma_views(items@);
                }
                match read_items::<T>(items) {
                    Ok(values) => {
                        let ghost all = values.deep_view();
                        assert(all.len() == views(items@).len());
                        match into_array::<T, N>(values) {
                            Some(array) => {
                                Ok(array)
                            },
                            None => Err(Json::unexpected("an array of the right length")),
                        }
                    },
                    Err(error) => Err(error),
                }
            },
            _ => Err(Json::unexpected("an array")),
        }
    }
}

impl<T: ToJson, const N: usize> ToJson for [T; N] {
    open spec fn encoded(value: Seq<T::V>) -> JsonView {
        JsonView::Array(encoded_items::<T>(value))
    }

    fn to_json(&self) -> (json: Json) {
        let mut items: Vec<Json> = Vec::new();
        let mut i: usize = 0;
        while i < N
            invariant
                i <= N,
                items.len() == i,
                forall|j: int| 0 <= j < i ==> items@[j]@ == T::encoded(self@[j].deep_view()),
            decreases N - i,
        {
            items.push(self[i].to_json());
            i += 1;
        }
        proof {
            lemma_views(items@);
        }
        assert(views(items@) =~= encoded_items::<T>(self.deep_view()));
        Json::Array(items)
    }
}

impl<T: Reflect, const N: usize> Reflect for [T; N] {
    open spec fn apply(value: Seq<T::V>, command: CommandView) -> (Seq<T::V>, Outcome) {
        apply_array::<T>(value, command, N as nat)
    }

    open spec fn echoes(value: Seq<T::V>, command: CommandView) -> Seq<(Seq<char>, bool)> {
        if command is Path {
            echoes_below::<T>(value, command)
        } else {
            concluded(command, apply_array::<T>(value, command, N as nat).1)
        }
    }

    proof fn lemma_assign_twice(value: Self::V, json: JsonView) {
    }

    fn command<C: Context>(&mut self, context: &mut C, command: &Command) -> (result: Result<
        (),
        Error,
    >) {
        proof {
            lemma_noted_nothing(context.observes(), context.path(), context.log());
        }
        let result = match command {
            Command::Path { element, command } => match parse_index(element.as_str()) {
                Ok(index) => {
                    if index < N {
                        context.descend(element.as_str());
                        let result = self[index].command(context, command);
                        context.ascend();
                        proof {
                            lemma_noted_under(
                                old(context).observes(),
                                old(context).path(),
                                element@,
                                old(context).log(),
                                T::echoes(old(self).deep_view()[index as int], command@),
                            );
                        }
                        result
                    } else {
                        Err(Error::PathError)
                    }
                },
                Err(error) => Err(Error::ParseIntError(error)),
            },
            Command::Assign { value } => match <[T; N] as FromJson>::from_json(value) {
                Ok(new) => {
                    *self = new;
                    Ok(())
                },
                Err(error) => Err(error),
            },
            _ => Err(Error::IncompatibleCommand),
        };
        conclude(context, command, result)
    }
}

/// What running the command that `text` denotes does to a sequence, see
/// [`apply_sequence`].
pub open spec fn run_sequence<T: Reflect>(value: Seq<T::V>, text: Seq<char>, strict: bool) -> (
    Seq<T::V>,
    Outcome,
) {
    match parse_spec(text) {
        Ok(command) => apply_sequence::<T>(value, command, strict),
        Err(error) => (value, Err(error)),
    }
}

/// The text of an index can stand in a path: it holds no `/` and does not
/// begin with the keyword of a terminal command.
pub proof fn lemma_index_is_plain(element: Seq<char>)
    requires
        index_of(element) is Some,
    ensures
        !element.contains('/'),
        !is_terminal(element),
{
    let digits = unsigned(element);
    assert forall|j: int| 0 <= j < element.len() implies element[j] != '/' by {
        if element[0] == '+' {
            if j > 0 {
                assert(digit(digits[j - 1]) is Some);
            }
        }
    }
}

/// A path composes: running `index/rest` on a sequence is running `rest` on
/// the element at the index, and leaves the other elements as they are.
pub proof fn lemma_path_into_sequence<T: Reflect>(
    value: Seq<T::V>,
    element: Seq<char>,
    rest: Seq<char>,
    strict: bool,
)
    requires
        index_of(element) is Some,
        index_of(element)->Some_0 < value.len(),
        index_of(element)->Some_0 <= usize::MAX,
    ensures
        ({
            let index = index_of(element)->Some_0 as int;
            let inner = run::<T>(value[index], rest);
            run_sequence::<T>(value, element + seq!['/'] + rest, strict) == (
                value.update(index, inner.0),
                inner.1,
            )
        }),
{
    let index = index_of(element)->Some_0 as int;
    lemma_index_is_plain(element);
    lemma_parse_path(element, rest);
}

/// A path to an index past the end of a sequence is refused with a path
/// error, and leaves the sequence as it is.
pub proof fn lemma_no_such_index<T: Reflect>(
    value: Seq<T::V>,
    element: Seq<char>,
    command: CommandView,
    strict: bool,
)
    requires
        index_of(element) is Some,
        value.len() <= index_of(element)->Some_0 <= usize::MAX,
    ensures
        apply_sequence::<T>(
            value,
            CommandView::Path { element, command: Box::new(command) },
            strict,
        ) == (value, Err::<(), ErrorKind>(ErrorKind::PathError)),
{
}

/// Push and pop balance: appending a value that can be read and then
/// dropping the last element gives the sequence back.
pub proof fn lemma_push_then_pop<T: Reflect>(value: Seq<T::V>, json: JsonView, strict: bool)
    requires
        T::decoded(json) is Some,
    ensures
        ({
            let pushed = apply_sequence::<T>(value, CommandView::Push { value: json }, strict);
            &&& pushed.1 is Ok
            &&& pushed.0.len() == value.len() + 1
            &&& apply_sequence::<T>(pushed.0, CommandView::Pop, strict) == (
                value,
                Ok::<(), ErrorKind>(()),
            )
        }),
{
}

/// A sequence leaves no trace of a command that it refuses, if its elements
/// leave none.
pub proof fn lemma_sequence_leaves_no_trace<T: Reflect>(
    value: Seq<T::V>,
    command: CommandView,
    strict: bool,
)
    requires
        leaves_no_trace::<T>(),
        apply_sequence::<T>(value, command, strict).1 is Err,
    ensures
        apply_sequence::<T>(value, command, strict).0 == value,
{
}

/// A vector leaves no trace of a command that it refuses, if its elements
/// leave none.
pub proof fn lemma_vec_leaves_no_trace<T: Reflect>()
    requires
        leaves_no_trace::<T>(),
    ensures
        leaves_no_trace::<Vec<T>>(),
{
    assert forall|value: Seq<T::V>, command: CommandView|
        (#[trigger] <Vec<T> as Reflect>::apply(value, command)).1 is Err implies <Vec<
        T,
    > as Reflect>::apply(value, command).0 == value by {
        lemma_sequence_leaves_no_trace::<T>(value, command, true);
    }
}

/// A queue leaves no trace of a command that it refuses, if its elements
/// leave none.
pub proof fn lemma_queue_leaves_no_trace<T: Reflect>()
    requires
        leaves_no_trace::<T>(),
    ensures
        leaves_no_trace::<VecDeque<T>>(),
{
    assert forall|value: Seq<T::V>, command: CommandView|
        (#[trigger] <VecDeque<T> as Reflect>::apply(value, command)).1 is Err implies <VecDeque<
        T,
    > as Reflect>::apply(value, command).0 == value by {
        lemma_sequence_leaves_no_trace::<T>(value, command, false);
    }
}

/// An array leaves no trace of a command that it refuses, if its elements
/// leave none.
pub proof fn lemma_array_leaves_no_trace<T: Reflect, const N: usize>()
    requires
        leaves_no_trace::<T>(),
    ensures
        leaves_no_trace::<[T; N]>(),
{
    assert forall|value: Seq<T::V>, command: CommandView|
        (#[trigger] <[T; N] as Reflect>::apply(value, command)).1 is Err implies <[
        T;
        N
    ] as Reflect>::apply(value, command).0 == value by {
        if command is Path {
            lemma_sequence_leaves_no_trace::<T>(value, command, true);
        }
    }
}

} // verus!
