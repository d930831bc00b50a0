//! Maps with text keys: children addressed by name, kept in the order their
//! keys were first bound.

use vstd::prelude::*;
use crate::command::{is_terminal, lemma_parse_path, same_text, Command, CommandView};
use crate::context::{
    conclude, concluded, lemma_noted_nothing, lemma_noted_under, under, Context,
};
use crate::error::{Error, ErrorKind, Outcome};
use crate::json::{
    json_document, lemma_member_views, member_views, FromJson, Json, JsonView, ToJson,
};
use crate::record::{lemma_position_found, position};
use crate::reflect::{leaves_no_trace, run, Reflect};

verus! {

broadcast use vstd::seq::group_seq_axioms;

/// A map from text to values.
///
/// The entries are kept in the order their keys were first bound, and that is
/// the order they are written in. Binding a key that is bound already
/// replaces its value where it stands.
pub struct Dictionary<V> {
    entries: Vec<(String, V)>,
}

/// The keys of a list of entries.
pub open spec fn keys<X>(entries: Seq<(Seq<char>, X)>) -> Seq<Seq<char>> {
    Seq::new(entries.len(), |i: int| entries[i].0)
}

/// The entries after `key` was bound to `value`: the value replaces the one
/// of the first entry with that key, or the entry is added at the end.
pub open spec fn put<X>(entries: Seq<(Seq<char>, X)>, key: Seq<char>, value: X) -> Seq<
    (Seq<char>, X),
> {
    match position(keys(entries), key) {
        Some(at) => entries.update(at, (key, value)),
        None => entries.push((key, value)),
    }
}

/// The entries without the first one with `key`, if there is one.
pub open spec fn without<X>(entries: Seq<(Seq<char>, X)>, key: Seq<char>) -> Seq<(Seq<char>, X)> {
    match position(keys(entries), key) {
        Some(at) => entries.remove(at),
        None => entries,
    }
}

/// The key that a path element denotes: the element is read as one JSON
/// document, which must be a string.
pub open spec fn text_key(element: Seq<char>) -> Option<Seq<char>> {
    match json_document(element) {
        Some(JsonView::String(key)) => Some(key),
        _ => None,
    }
}

/// The entries that the members of an object are read as, if the value of
/// each can be read: the members are bound one after the other.
pub open spec fn decoded_entries<V: FromJson>(members: Seq<(Seq<char>, JsonView)>) -> Option<
    Seq<(Seq<char>, V::V)>,
>
    decreases members.len(),
{
    if members.len() == 0 {
        Some(Seq::empty())
    } else {
        match (decoded_entries::<V>(members.drop_last()), V::decoded(members.last().1)) {
            (Some(entries), Some(value)) => Some(put(entries, members.last().0, value)),
            _ => None,
        }
    }
}

/// The members that entries are written as: one for each, in their order.
pub open spec fn encoded_entries<V: ToJson>(entries: Seq<(Seq<char>, V::V)>) -> Seq<
    (Seq<char>, JsonView),
> {
    Seq::new(entries.len(), |i: int| (entries[i].0, V::encoded(entries[i].1)))
}

/// What a command does to a dictionary.
///
/// A path leads into the value of the key that the path element denotes when
/// it is read as JSON. `set:` replaces the dictionary by what an object is
/// read as, `insert:` binds a key to a value, `remove:` unbinds a key and is
/// content if the key is not bound. A key that is no JSON string is a
/// [`ErrorKind::Json`], a key without a value in a path a
/// [`ErrorKind::PathError`].
pub open spec fn apply_dictionary<V: Reflect>(
    value: Seq<(Seq<char>, V::V)>,
    command: CommandView,
) -> (Seq<(Seq<char>, V::V)>, Outcome) {
    match command {
        CommandView::Path { element, command } => match text_key(element) {
            Some(key) => match position(keys(value), key) {
                Some(at) => {
                    let (after, outcome) = V::apply(value[at].1, *command);
                    (value.update(at, (key, after)), outcome)
                },
                None => (value, Err(ErrorKind::PathError)),
            },
            None => (value, Err(ErrorKind::Json)),
        },
        CommandView::Assign { value: json } => match json {
            JsonView::Object(members) => match decoded_entries::<V>(members) {
                Some(new) => (new, Ok(())),
                None => (value, Err(ErrorKind::Json)),
            },
            _ => (value, Err(ErrorKind::Json)),
        },
        CommandView::Insert { key, value: json } => match (key, V::decoded(json)) {
            (JsonView::String(key), Some(item)) => (put(value, key, item), Ok(())),
            _ => (value, Err(ErrorKind::Json)),
        },
        CommandView::Remove { key } => match key {
            JsonView::String(key) => (without(value, key), Ok(())),
            _ => (value, Err(ErrorKind::Json)),
        },
        _ => (value, Err(ErrorKind::IncompatibleCommand)),
    }
}

impl<V: DeepView> DeepView for Dictionary<V> {
    type V = Seq<(Seq<char>, V::V)>;

    closed spec fn deep_view(&self) -> Seq<(Seq<char>, V::V)> {
        self.entries.deep_view()
    }
}

impl<V: DeepView> Dictionary<V> {
    /// A dictionary without entries.
    pub fn new() -> (dictionary: Self)
        ensures
            dictionary.deep_view() == Seq::<(Seq<char>, V::V)>::empty(),
    {
        let dictionary = Dictionary { entries: Vec::new() };
        dictionary
    }

    /// The number of entries.
    pub fn len(&self) -> (count: usize)
        ensures
            count == self.deep_view().len(),
    {
        self.entries.len()
    }

    /// The place of the first entry with `key`.
    fn find(&self, key: &str) -> (place: Option<usize>)
        ensures
            match place {
                Some(at) => position(keys(self.deep_view()), key@) == Some(at as int) && at
                    < self.entries@.len(),
                None => position(keys(self.deep_view()), key@) is None,
            },
    {
        let ghost names = keys(self.deep_view());
        let mut i: usize = 0;
        while i < self.entries.len()
            invariant
                i <= self.entries.len(),
                names == keys(self.deep_view()),
                forall|j: int| 0 <= j < i ==> names[j] != key@,
            decreases self.entries.len() - i,
        {
            if same_text(self.entries[i].0.as_str(), key) {
                proof {
                    lemma_position_found(names, key@, i as int);
                }
                return Some(i);
            }
            i += 1;
        }
        None
    }

    /// The value that `key` is bound to.
    pub fn get(&self, key: &str) -> (value: Option<&V>)
        ensures
            match position(keys(self.deep_view()), key@) {
                Some(at) => value matches Some(held) && held.deep_view() == self.deep_view()[at].1,
                None => value is None,
            },
    {
        match self.find(key) {
            Some(at) => Some(&self.entries[at].1),
            None => None,
        }
    }

    /// Binds `key` to `value`.
    pub fn insert(&mut self, key: String, value: V)
        ensures
            final(self).deep_view() == put(old(self).deep_view(), key@, value.deep_view()),
    {
        match self.find(key.as_str()) {
            Some(at) => {
                self.entries[at] = (key, value);
            },
            None => {
                self.entries.push((key, value));
            },
        }
    }

    /// Unbinds `key`, and hands out the value it was bound to.
    pub fn remove(&mut self, key: &str) -> (value: Option<V>)
        ensures
            final(self).deep_view() == without(old(self).deep_view(), key@),
            match position(keys(old(self).deep_view()), key@) {
                Some(at) => value matches Some(held) && held.deep_view() == old(
                    self,
                ).deep_view()[at].1,
                None => value is None,
            },
    {
        match self.find(key) {
            Some(at) => {
                let entry = self.entries.remove(at);
                Some(entry.1)
            },
            None => None,
        }
    }
}

impl<V: FromJson> FromJson for Dictionary<V> {
    open spec fn decoded(json: JsonView) -> Option<Seq<(Seq<char>, V::V)>> {
        match json {
            JsonView::Object(members) => decoded_entries::<V>(members),
            _ => None,
        }
    }

    fn from_json(json: &Json) -> (result: Result<Self, Error>) {
        match json {
            Json::Object(members) => {
                let ghost all = member_views(members@);
                let mut dictionary: Dictionary<V> = Dictionary::new();
                let mut i: usize = 0;
                proof {
                    lemma_member_views(members@);
                }
                while i < members.len()
                    invariant
                        i <= members.len(),
                        json@ == JsonView::Object(all),
                        all == member_views(members@),
                        all.len() == members@.len(),
                        forall|j: int|
                            0 <= j < members@.len() ==> (#[trigger] all[j]) == (
                                members@[j].0@,
                                members@[j].1@,
                            ),
                        decoded_entries::<V>(all.take(i as int)) == Some(dictionary.deep_view()),
                    decreases members.len() - i,
                {
                    proof {
                        assert(all.take(i + 1).drop_last() =~= all.take(i as int));
                    }
                    match V::from_json(&members[i].1) {
                        Ok(value) => {
                            dictionary.insert(members[i].0.clone(), value);
                        },
                        Err(error) => {
                            proof {
                                lemma_entries_fail::<V>(all, i + 1);
                            }
                            return Err(error);
                        },
                    }
                    i += 1;
                }
                assert(all.take(i as int) =~= all);
                Ok(dictionary)
            },
            _ => Err(Json::unexpected("an object")),
        }
    }
}

/// Members that cannot be read after some of them cannot be read as a whole.
pub proof fn lemma_entries_fail<V: FromJson>(members: Seq<(Seq<char>, JsonView)>, upto: int)
    requires
        0 <= upto <= members.len(),
        decoded_entries::<V>(members.take(upto)) is None,
    ensures
        decoded_entries::<V>(members) is None,
    decreases members.len() - upto,
{
    if upto < members.len() {
        assert(members.take(upto + 1).drop_last() =~= members.take(upto));
        lemma_entries_fail::<V>(members, upto + 1);
    } else {
        assert(members.take(upto) =~= members);
    }
}

impl<V: ToJson> ToJson for Dictionary<V> {
    open spec fn encoded(value: Seq<(Seq<char>, V::V)>) -> JsonView {
        JsonView::Object(encoded_entries::<V>(value))
    }

    fn to_json(&self) -> (json: Json) {
        let mut members: Vec<(String, Json)> = Vec::new();
        let mut i: usize = 0;
        while i < self.entries.len()
            invariant
                i <= self.entries.len(),
                members.len() == i,
                forall|j: int|
                    0 <= j < i ==> (#[trigger] members@[j]).0@ == self.entries@[j].0@
                        && members@[j].1@ == V::encoded(self.entries@[j].1.deep_view()),
            decreases self.entries.len() - i,
        {
            members.push((self.entries[i].0.clone(), self.entries[i].1.to_json()));
            i += 1;
        }
        proof {
            lemma_member_views(members@);
            assert(member_views(members@) =~= encoded_entries::<V>(self.deep_view()));
        }
        Json::Object(members)
    }
}

impl<V: Reflect> Reflect for Dictionary<V> {
    open spec fn apply(value: Seq<(Seq<char>, V::V)>, command: CommandView) -> (
        Seq<(Seq<char>, V::V)>,
        Outcome,
    ) {
        apply_dictionary::<V>(value, command)
    }

    open spec fn echoes(value: Seq<(Seq<char>, V::V)>, command: CommandView) -> Seq<
        (Seq<char>, bool),
    > {
        match command {
            CommandView::Path { element, command } => match text_key(element) {
                Some(key) => match position(keys(value), key) {
                    Some(at) => under(element, V::echoes(value[at].1, *command)),
                    None => Seq::empty(),
                },
                None => Seq::empty(),
            },
            _ => concluded(command, apply_dictionary::<V>(value, command).1),
        }
    }

    proof fn lemma_assign_twice(value: Self::V, json: JsonView) {
    }

    fn command<C: Context>(&mut self, context: &mut C, command: &Command) -> (result: Result<
        (),
        Error,
    >) {
        proof {
            lemma_noted_nothing(context.observes(), context.path(), context.log());
        }
        let result = match command {
            Command::Path { element, command } => {
                let name = match Json::parse(element.as_str()) {
                    Ok(name) => name,
                    Err(error) => {
                        return Err(error);
                    },
                };
                match name {
                    Json::String(key) => match self.find(key.as_str()) {
                        Some(at) => {
                            let ghost inner = self.entries@[at as int].1.deep_view();
                            context.descend(element.as_str());
                            let result = self.entries[at].1.command(context, command);
                            context.ascend();
                            proof {
                                lemma_noted_under(
                                    old(context).observes(),
                                    old(context).path(),
                                    element@,
                                    old(context).log(),
                                    V::echoes(inner, command@),
                                );
                            }
                            result
                        },
                        None => Err(Error::PathError),
                    },
                    _ => Err(Json::unexpected("a string")),
                }
            },
            Command::Assign { value } => match <Dictionary<V> as FromJson>::from_json(value) {
                Ok(new) => {
                    *self = new;
                    Ok(())
                },
                Err(error) => Err(error),
            },
            Command::Insert { key, value } => match key {
                Json::String(key) => match V::from_json(value) {
                    Ok(item) => {
                        self.insert(key.clone(), item);
                        Ok(())
                    },
                    Err(error) => Err(error),
                },
                _ => Err(Json::unexpected("a string")),
            },
            Command::Remove { key } => match key {
                Json::String(key) => {
                    self.remove(key.as_str());
                    Ok(())
                },
                _ => Err(Json::unexpected("a string")),
            },
            _ => Err(Error::IncompatibleCommand),
        };
        conclude(context, command, result)
    }
}

/// A path composes: running `key/rest` on a dictionary is running `rest` on
/// the value of the key, and leaves the other entries as they are. The text
/// of the key must be one that can stand in a path.
pub proof fn lemma_path_into_dictionary<V: Reflect>(
    value: Seq<(Seq<char>, V::V)>,
    element: Seq<char>,
    rest: Seq<char>,
)
    requires
        !element.contains('/'),
        !is_terminal(element),
        text_key(element) is Some,
        position(keys(value), text_key(element)->Some_0) is Some,
    ensures
        ({
            let key = text_key(element)->Some_0;
            let at = position(keys(value), key)->Some_0;
            let inner = run::<V>(value[at].1, rest);
            run::<Dictionary<V>>(value, element + seq!['/'] + rest) == (
                value.update(at, (key, inner.0)),
                inner.1,
            )
        }),
{
    lemma_parse_path(element, rest);
}

/// A dictionary leaves no trace of a command that it refuses, if its values
/// leave none.
pub proof fn lemma_dictionary_leaves_no_trace<V: Reflect>()
    requires
        leaves_no_trace::<V>(),
    ensures
        leaves_no_trace::<Dictionary<V>>(),
{
    assert forall|value: Seq<(Seq<char>, V::V)>, command: CommandView|
        (#[trigger] <Dictionary<V> as Reflect>::apply(value, command)).1 is Err implies <Dictionary<
        V,
    > as Reflect>::apply(value, command).0 == value by {}
}

/// A path to a key that is not bound is refused with a path error, and
/// leaves the dictionary as it is.
pub proof fn lemma_no_such_entry<V: Reflect>(
    value: Seq<(Seq<char>, V::V)>,
    element: Seq<char>,
    command: CommandView,
)
    requires
        text_key(element) is Some,
        !keys(value).contains(text_key(element)->Some_0),
    ensures
        apply_dictionary::<V>(value, CommandView::Path { element, command: Box::new(command) })
            == (value, Err::<(), ErrorKind>(ErrorKind::PathError)),
{
    crate::record::lemma_position_absent(keys(value), text_key(element)->Some_0);
}

} // verus!
