//! Maps: children addressed by key.

use vstd::prelude::*;
use vstd::std_specs::hash::*;
use crate::command::{is_terminal, lemma_parse_path, Command, CommandView};
use crate::context::{
    conclude, concluded, lemma_noted_nothing, lemma_noted_under, under, Context,
};
use crate::error::{Error, ErrorKind, Outcome};
use crate::json::{
    json_document, lemma_member_views, member_views, FromJson, Json, JsonView,
};
use crate::primitive::Primitive;
use crate::reflect::{leaves_no_trace, run, Reflect};
use std::collections::HashMap;

verus! {

broadcast use {vstd::seq::group_seq_axioms, vstd::std_specs::hash::group_hash_axioms};

/// A primitive that can be the key of a map: one that is its own view, and
/// that hashes and compares as a key must.
pub trait Key: Primitive + DeepView<V = Self> + Eq + core::hash::Hash {
    /// A key is its own view, and obeys the model of hash-table keys.
    proof fn lemma_key(key: Self)
        ensures
            key.deep_view() == key,
            obeys_key_model::<Self>(),
    ;
}

/// The key that a text denotes: the text is read as one JSON document, and
/// the document as a key.
pub open spec fn key_of<K: Key>(text: Seq<char>) -> Option<K> {
    match json_document(text) {
        Some(json) => K::decoded(json),
        None => None,
    }
}

/// The map that the members of an object are read as, if the name of each can
/// be read as a key and its value as a value. Of two members with the same
/// key the later one stays.
pub open spec fn decoded_members<K: Key, V: FromJson>(
    members: Seq<(Seq<char>, JsonView)>,
) -> Option<Map<K, V::V>>
    decreases members.len(),
{
    if members.len() == 0 {
        Some(Map::empty())
    } else {
        match decoded_members::<K, V>(members.drop_last()) {
            Some(map) => match (key_of::<K>(members.last().0), V::decoded(members.last().1)) {
                (Some(key), Some(value)) => Some(map.insert(key, value)),
                _ => None,
            },
            None => None,
        }
    }
}

/// The view of a map with keys that are their own view: the same keys, each
/// with the view of its value.
pub proof fn lemma_map_view<K: Key, V: DeepView>(map: HashMap<K, V>)
    ensures
        map.deep_view() == Map::<K, V::V>::new(
            |key: K| map@.contains_key(key),
            |key: K| map@[key].deep_view(),
        ),
{
    reveal(hash_map_deep_view_impl);
    let wanted = Map::<K, V::V>::new(
        |key: K| map@.contains_key(key),
        |key: K| map@[key].deep_view(),
    );
    assert forall|key: K| map.deep_view().contains_key(key) == wanted.contains_key(key) by {
        K::lemma_key(key);
        if map.deep_view().contains_key(key) {
            let original = choose|original: K| #[trigger]
                map@.contains_key(original) && key == original.deep_view();
            K::lemma_key(original);
        }
    }
    assert forall|key: K| map.deep_view().contains_key(key) implies map.deep_view()[key]
        == wanted[key] by {
        let original = choose|original: K|
            map@.contains_key(original) && #[trigger] original.deep_view() == key;
        K::lemma_key(key);
        assert(wanted.contains_key(key));
        K::lemma_key(original);
    }
}

impl<K: Key, V: FromJson> FromJson for HashMap<K, V> {
    open spec fn decoded(json: JsonView) -> Option<Map<K, V::V>> {
        match json {
            JsonView::Object(members) => decoded_members::<K, V>(members),
            _ => None,
        }
    }

    fn from_json(json: &Json) -> (result: Result<Self, Error>) {
        match json {
            Json::Object(members) => {
                let ghost all = member_views(members@);
                let mut map: HashMap<K, V> = HashMap::new();
                let mut i: usize = 0;
                proof {
                    lemma_member_views(members@);
                    lemma_map_view(map);
                }
                while i < members.len()
                    invariant
                        i <= members.len(),
                        json@ == JsonView::Object(all),
                        all == member_views(members@),
                        all.len() == members@.len(),
                        forall|j: int|
                            0 <= j < members@.len() ==> (#[trigger] all[j]) == (
                                members@[j].0@,
                                members@[j].1@,
                            ),
                        decoded_members::<K, V>(all.take(i as int)) == Some(map.deep_view()),
                    decreases members.len() - i,
                {
                    proof {
                        assert(all.take(i + 1).drop_last() =~= all.take(i as int));
                    }
                    let name = match Json::parse(members[i].0.as_str()) {
                        Ok(name) => name,
                        Err(error) => {
                            proof {
                                lemma_members_fail::<K, V>(all, i + 1);
                            }
                            return Err(error);
                        },
                    };
                    let key = match K::from_json(&name) {
                        Ok(key) => key,
                        Err(error) => {
                            proof {
                                lemma_members_fail::<K, V>(all, i + 1);
                            }
                            return Err(error);
                        },
                    };
                    let value = match V::from_json(&members[i].1) {
                        Ok(value) => value,
                        Err(error) => {
                            proof {
                                lemma_members_fail::<K, V>(all, i + 1);
                            }
                            return Err(error);
                        },
                    };
                    let ghost before = map;
                    proof {
                        K::lemma_key(key);
                    }
                    map.insert(key, value);
                    proof {
                        lemma_map_view(before);
                        lemma_map_view(map);
                    }
                    i += 1;
                }
                assert(all.take(i as int) =~= all);
                Ok(map)
            },
            _ => Err(Json::unexpected("an object")),
        }
    }
}

/// Members that cannot be read after some of them cannot be read as a whole.
pub proof fn lemma_members_fail<K: Key, V: FromJson>(
    members: Seq<(Seq<char>, JsonView)>,
    upto: int,
)
    requires
        0 <= upto <= members.len(),
        decoded_members::<K, V>(members.take(upto)) is None,
    ensures
        decoded_members::<K, V>(members) is None,
    decreases members.len() - upto,
{
    if upto < members.len() {
        assert(members.take(upto + 1).drop_last() =~= members.take(upto));
        lemma_members_fail::<K, V>(members, upto + 1);
    } else {
        assert(members.take(upto) =~= members);
    }
}

/// What a command does to a map.
///
/// A path leads into the value at the key that the path element denotes when
/// it is read as JSON. `set:` replaces the map by what an object is read as,
/// `insert:` binds a key to a value, `remove:` unbinds a key and is content
/// if the key is not bound. A key that cannot be read is a
/// [`ErrorKind::Json`], a key without a value in a path a
/// [`ErrorKind::PathError`].
pub open spec fn apply_map<K: Key, V: Reflect>(value: Map<K, V::V>, command: CommandView) -> (
    Map<K, V::V>,
    Outcome,
) {
    match command {
        CommandView::Path { element, command } => match key_of::<K>(element) {
            Some(key) => if value.contains_key(key) {
                let (after, outcome) = V::apply(value[key], *command);
                (value.insert(key, after), outcome)
            } else {
                (value, Err(ErrorKind::PathError))
            },
            None => (value, Err(ErrorKind::Json)),
        },
        CommandView::Assign { value: json } => match json {
            JsonView::Object(members) => match decoded_members::<K, V>(members) {
                Some(new) => (new, Ok(())),
                None => (value, Err(ErrorKind::Json)),
            },
            _ => (value, Err(ErrorKind::Json)),
        },
        CommandView::Insert { key, value: json } => match (K::decoded(key), V::decoded(json)) {
            (Some(key), Some(item)) => (value.insert(key, item), Ok(())),
            _ => (value, Err(ErrorKind::Json)),
        },
        CommandView::Remove { key } => match K::decoded(key) {
            Some(key) => (value.remove(key), Ok(())),
            None => (value, Err(ErrorKind::Json)),
        },
        _ => (value, Err(ErrorKind::IncompatibleCommand)),
    }
}

impl<K: Key, V: Reflect> Reflect for HashMap<K, V> {
    open spec fn apply(value: Map<K, V::V>, command: CommandView) -> (Map<K, V::V>, Outcome) {
        apply_map::<K, V>(value, command)
    }

    open spec fn echoes(value: Map<K, V::V>, command: CommandView) -> Seq<(Seq<char>, bool)> {
        match command {
            CommandView::Path { element, command } => match key_of::<K>(element) {
                Some(key) => if value.contains_key(key) {
                    under(element, V::echoes(value[key], *command))
                } else {
                    Seq::empty()
                },
                None => Seq::empty(),
            },
            _ => concluded(command, apply_map::<K, V>(value, command).1),
        }
    }

    proof fn lemma_assign_twice(value: Self::V, json: JsonView) {
    }

    fn command<C: Context>(&mut self, context: &mut C, command: &Command) -> (result: Result<
        (),
        Error,
    >) {
        let ghost before = *self;
        proof {
            lemma_map_view(before);
            lemma_noted_nothing(context.observes(), context.path(), context.log());
        }
        let result = match command {
            Command::Path { element, command } => {
                let name = match Json::parse(element.as_str()) {
                    Ok(name) => name,
                    Err(error) => {
                        return Err(error);
                    },
                };
                let key = match K::from_json(&name) {
                    Ok(key) => key,
                    Err(error) => {
                        return Err(error);
                    },
                };
                proof {
                    K::lemma_key(key);
                }
                match self.remove(&key) {
                    Some(held) => {
                        let mut held = held;
                        let ghost inner = held.deep_view();
                        context.descend(element.as_str());
                        let result = held.command(context, command);
                        context.ascend();
                        proof {
                            lemma_noted_under(
                                old(context).observes(),
                                old(context).path(),
                                element@,
                                old(context).log(),
                                V::echoes(inner, command@),
                            );
                        }
                        self.insert(key, held);
                        proof {
                            lemma_map_view(*self);
                        }
                        result
                    },
                    None => {
                        proof {
                            lemma_map_view(*self);
                        }
                        Err(Error::PathError)
                    },
                }
            },
            Command::Assign { value } => match <HashMap<K, V> as FromJson>::from_json(value) {
                Ok(new) => {
                    *self = new;
                    Ok(())
                },
                Err(error) => Err(error),
            },
            Command::Insert { key, value } => {
                let key = match K::from_json(key) {
                    Ok(key) => key,
                    Err(error) => {
                        return Err(error);
                    },
                };
                let value = match V::from_json(value) {
                    Ok(value) => value,
                    Err(error) => {
                        return Err(error);
                    },
                };
                proof {
                    K::lemma_key(key);
                }
                self.insert(key, value);
                proof {
                    lemma_map_view(*self);
                }
                Ok(())
            },
            Command::Remove { key } => {
                let key = match K::from_json(key) {
                    Ok(key) => key,
                    Err(error) => {
                        return Err(error);
                    },
                };
                proof {
                    K::lemma_key(key);
                }
                self.remove(&key);
                proof {
                    lemma_map_view(*self);
                }
                Ok(())
            },
            _ => Err(Error::IncompatibleCommand),
        };
        conclude(context, command, result)
    }
}

impl Key for bool {
    proof fn lemma_key(key: bool) {
    }
}

impl Key for u8 {
    proof fn lemma_key(key: u8) {
    }
}

impl Key for u16 {
    proof fn lemma_key(key: u16) {
    }
}

impl Key for u32 {
    proof fn lemma_key(key: u32) {
    }
}

impl Key for u64 {
    proof fn lemma_key(key: u64) {
    }
}

impl Key for usize {
    proof fn lemma_key(key: usize) {
    }
}

impl Key for i8 {
    proof fn lemma_key(key: i8) {
    }
}

impl Key for i16 {
    proof fn lemma_key(key: i16) {
    }
}

impl Key for i32 {
    proof fn lemma_key(key: i32) {
    }
}

impl Key for i64 {
    proof fn lemma_key(key: i64) {
    }
}

impl Key for isize {
    proof fn lemma_key(key: isize) {
    }
}

/// A path composes: running `key/rest` on a map is running `rest` on the
/// value at the key, and leaves the other values as they are. The text of
/// the key must be one that can stand in a path.
pub proof fn lemma_path_into_map<K: Key, V: Reflect>(
    value: Map<K, V::V>,
    element: Seq<char>,
    rest: Seq<char>,
)
    requires
        !element.contains('/'),
        !is_terminal(element),
        key_of::<K>(element) is Some,
        value.contains_key(key_of::<K>(element)->Some_0),
    ensures
        ({
            let key = key_of::<K>(element)->Some_0;
            let inner = run::<V>(value[key], rest);
            run::<HashMap<K, V>>(value, element + seq!['/'] + rest) == (
                value.insert(key, inner.0),
                inner.1,
            )
        }),
{
    let key = key_of::<K>(element)->Some_0;
    lemma_parse_path(element, rest);
}

/// A path to a key that is not bound is refused with a path error, and
/// leaves the map as it is.
pub proof fn lemma_no_such_key<K: Key, V: Reflect>(
    value: Map<K, V::V>,
    element: Seq<char>,
    command: CommandView,
)
    requires
        key_of::<K>(element) is Some,
        !value.contains_key(key_of::<K>(element)->Some_0),
    ensures
        apply_map::<K, V>(value, CommandView::Path { element, command: Box::new(command) }) == (
            value,
            Err::<(), ErrorKind>(ErrorKind::PathError),
        ),
{
}

/// A map leaves no trace of a command that it refuses, if its values leave
/// none.
pub proof fn lemma_map_leaves_no_trace<K: Key, V: Reflect>()
    requires
        leaves_no_trace::<V>(),
    ensures
        leaves_no_trace::<HashMap<K, V>>(),
{
    assert forall|value: Map<K, V::V>, command: CommandView|
        (#[trigger] <HashMap<K, V> as Reflect>::apply(value, command)).1 is Err implies <HashMap<
        K,
        V,
    > as Reflect>::apply(value, command).0 == value by {}
}

} // verus!
