//! Dynamic JSON values, as plain data that contracts can speak of.

use vstd::prelude::*;
use crate::error::Error;
use serde_json::Error as JsonError;

verus! {

/// The JSON codec's own value type, which reading and writing text pass through.
#[verifier::external_type_specification]
#[verifier::external_body]
pub struct ExValue(serde_json::Value);

/// The codec's number type, which carries the numbers that are not integers.
#[verifier::external_type_specification]
#[verifier::external_body]
pub struct ExNumber(serde_json::Number);

/// A JSON number.
#[derive(Debug, PartialEq)]
pub enum Numeric {
    /// A non-negative integer.
    PosInt(u64),
    /// An integer; the codec only produces negative ones here.
    NegInt(i64),
    /// A number with a fraction or an exponent, kept as the codec read it.
    Float(serde_json::Number),
}

impl Numeric {
    /// The integer this number is, if it is one.
    pub open spec fn integer(self) -> Option<int> {
        match self {
            Numeric::PosInt(n) => Some(n as int),
            Numeric::NegInt(n) => Some(n as int),
            Numeric::Float(_) => None,
        }
    }
}

/// A dynamic JSON value.
#[derive(Debug, PartialEq)]
pub enum Json {
    Null,
    Bool(bool),
    Number(Numeric),
    String(String),
    Array(Vec<Json>),
    /// The members of an object, in the order the codec yields them.
    Object(Vec<(String, Json)>),
}

/// The mathematical counterpart of [`Json`].
pub enum JsonView {
    Null,
    Bool(bool),
    Number(Numeric),
    String(Seq<char>),
    Array(Seq<JsonView>),
    Object(Seq<(Seq<char>, JsonView)>),
}

impl View for Json {
    type V = JsonView;

    open spec fn view(&self) -> JsonView
        decreases self,
    {
        match self {
            Json::Null => JsonView::Null,
            Json::Bool(b) => JsonView::Bool(*b),
            Json::Number(n) => JsonView::Number(*n),
            Json::String(s) => JsonView::String(s@),
            Json::Array(items) => JsonView::Array(views(items@)),
            Json::Object(members) => JsonView::Object(member_views(members@)),
        }
    }
}

/// The views of a sequence of dynamic values.
pub open spec fn views(items: Seq<Json>) -> Seq<JsonView>
    decreases items,
{
    if items.len() == 0 {
        Seq::empty()
    } else {
        views(items.drop_last()).push(items.last().view())
    }
}

/// The views of the members of an object.
pub open spec fn member_views(members: Seq<(String, Json)>) -> Seq<(Seq<char>, JsonView)>
    decreases members,
{
    if members.len() == 0 {
        Seq::empty()
    } else {
        member_views(members.drop_last()).push((members.last().0@, members.last().1.view()))
    }
}

/// The views of a sequence are the views of its items, one for one.
pub proof fn lemma_views(items: Seq<Json>)
    ensures
        views(items).len() == items.len(),
        forall|i: int| 0 <= i < items.len() ==> (#[trigger] views(items)[i]) == items[i]@,
    decreases items.len(),
{
    if items.len() > 0 {
        lemma_views(items.drop_last());
        assert(views(items) == views(items.drop_last()).push(items.last()@));
    }
}

/// The views of the members of an object are the views of its members, one
/// for one.
pub proof fn lemma_member_views(members: Seq<(String, Json)>)
    ensures
        member_views(members).len() == members.len(),
        forall|i: int|
            0 <= i < members.len() ==> (#[trigger] member_views(members)[i]) == (
                members[i].0@,
                members[i].1@,
            ),
    decreases members.len(),
{
    if members.len() > 0 {
        lemma_member_views(members.drop_last());
        assert(member_views(members) == member_views(members.drop_last()).push(
            (members.last().0@, members.last().1@),
        ));
    }
}

/// Appending an item appends its view.
pub proof fn lemma_views_push(items: Seq<Json>, item: Json)
    ensures
        views(items.push(item)) == views(items).push(item@),
{
    assert(items.push(item).drop_last() =~= items);
}

/// One step of reading a text as a stream of JSON values.
pub enum StreamItem {
    /// Only whitespace is left.
    End,
    /// A value was read.
    Value(JsonView),
    /// The text ends in the middle of a value.
    Truncated,
    /// What follows is not a JSON value.
    Malformed,
}

/// What reading one item of a stream gave.
enum Read {
    End,
    Value(Json),
    Truncated,
    Malformed(JsonError),
}

/// The `index`-th item that the codec yields when it reads `text` as a stream
/// of whitespace-separated JSON values.
pub uninterp spec fn json_stream_item(text: Seq<char>, index: nat) -> StreamItem;

/// The value that `text` denotes when the codec reads all of it as a single
/// JSON document, if it is one.
pub uninterp spec fn json_document(text: Seq<char>) -> Option<JsonView>;

/// The compact text that the codec writes for a value.
pub uninterp spec fn json_text(value: JsonView) -> Seq<char>;

/// Tells the integers among the codec's numbers from the others
/// (`serde_json::Number::as_u64` and `as_i64`). Nothing is claimed of the
/// result.
#[verifier::external_body]
fn from_number(number: serde_json::Number) -> Numeric {
    match (number.as_u64(), number.as_i64()) {
        (Some(u), _) => Numeric::PosInt(u),
        (_, Some(i)) => Numeric::NegInt(i),
        _ => Numeric::Float(number),
    }
}

/// Moves a value of the codec into a [`Json`], variant by variant
/// (`serde_json::Value`). Nothing is claimed of the result.
#[verifier::external_body]
fn from_value(value: serde_json::Value) -> Json {
    match value {
        serde_json::Value::Null => Json::Null,
        serde_json::Value::Bool(b) => Json::Bool(b),
        serde_json::Value::Number(n) => Json::Number(from_number(n)),
        serde_json::Value::String(s) => Json::String(s),
        serde_json::Value::Array(a) => Json::Array(a.into_iter().map(from_value).collect()),
        serde_json::Value::Object(o) => Json::Object(
            o.into_iter().map(|(k, v)| (k, from_value(v))).collect(),
        ),
    }
}

/// Builds the codec's number for a [`Numeric`] (`serde_json::Number::from`
/// for the integers). Nothing is claimed of the result.
#[verifier::external_body]
fn to_number(number: &Numeric) -> serde_json::Number {
    match number {
        Numeric::PosInt(u) => serde_json::Number::from(*u),
        Numeric::NegInt(i) => serde_json::Number::from(*i),
        Numeric::Float(n) => n.clone(),
    }
}

/// Builds the codec's value for a [`Json`], variant by variant
/// (`serde_json::Value`). Nothing is claimed of the result.
#[verifier::external_body]
fn to_value(json: &Json) -> serde_json::Value {
    match json {
        Json::Null => serde_json::Value::Null,
        Json::Bool(b) => serde_json::Value::Bool(*b),
        Json::Number(n) => serde_json::Value::Number(to_number(n)),
        Json::String(s) => serde_json::Value::String(s.clone()),
        Json::Array(a) => serde_json::Value::Array(a.iter().map(to_value).collect()),
        Json::Object(o) => serde_json::Value::Object(
            o.iter().map(|(k, v)| (k.clone(), to_value(v))).collect(),
        ),
    }
}

/// Reads `text` as a stream of JSON values and returns its `index`-th item
/// (`serde_json::Deserializer::from_str`, `into_iter`, and `Iterator::nth` on
/// the resulting `serde_json::StreamDeserializer`; `serde_json::Error::is_eof`
/// tells the error of a text that ends within a value from the others). The
/// contract names the item and adds one fact: every item that is not the end
/// of the stream starts at a character of its own, so there are at most as
/// many as the text has characters.
#[verifier::external_body]
fn stream_item(text: &str, index: usize) -> (item: Read)
    ensures
        match item {
            Read::End => json_stream_item(text@, index as nat) is End,
            Read::Value(value) => json_stream_item(text@, index as nat) == StreamItem::Value(
                value@,
            ),
            Read::Truncated => json_stream_item(text@, index as nat) is Truncated,
            Read::Malformed(_) => json_stream_item(text@, index as nat) is Malformed,
        },
        !(item is End) ==> index < text@.len(),
{
    match serde_json::Deserializer::from_str(text).into_iter::<serde_json::Value>().nth(index) {
        None => Read::End,
        Some(Ok(value)) => Read::Value(from_value(value)),
        Some(Err(error)) if error.is_eof() => Read::Truncated,
        Some(Err(error)) => Read::Malformed(error),
    }
}

/// Reads all of `text` as one JSON document (`serde_json::from_str`). The
/// contract names the value read, and says that reading fails exactly where
/// the text is no document.
#[verifier::external_body]
fn document(text: &str) -> (value: Result<Json, JsonError>)
    ensures
        match value {
            Ok(value) => json_document(text@) == Some(value@),
            Err(_) => json_document(text@) is None,
        },
{
    serde_json::from_str::<serde_json::Value>(text).map(from_value)
}

/// Writes a value as compact JSON text (`Display` of `serde_json::Value`,
/// through `ToString::to_string`). The contract names the text.
#[verifier::external_body]
fn compact(json: &Json) -> (text: String)
    ensures
        text@ == json_text(json@),
{
    to_value(json).to_string()
}

/// Makes the codec's error for a value of the wrong shape
/// (`serde::de::Error::custom` of `serde_json::Error`). Nothing is claimed of
/// the error but that it is one.
#[verifier::external_body]
fn mismatch(expected: &str) -> JsonError {
    serde::de::Error::custom(format!("invalid value, expected {}", expected))
}

impl Json {
    /// Reads a whole text as one JSON document.
    pub fn parse(text: &str) -> (result: Result<Json, Error>)
        ensures
            match result {
                Ok(value) => json_document(text@) == Some(value@),
                Err(error) => json_document(text@) is None && error@ is Json,
            },
    {
        match document(text) {
            Ok(value) => Ok(value),
            Err(error) => Err(Error::Json(error)),
        }
    }

    /// Reads the `index`-th value of a text that holds a stream of
    /// whitespace-separated JSON values: `None` where the stream has ended
    /// before it. A text that ends in the middle of the value is an
    /// [`Error::WrongArgumentCount`], anything else that is no value an
    /// [`Error::Json`].
    pub fn parse_nth(text: &str, index: usize) -> (result: Option<Result<Json, Error>>)
        ensures
            match json_stream_item(text@, index as nat) {
                StreamItem::End => result is None,
                StreamItem::Value(value) => result matches Some(Ok(read)) && read@ == value,
                StreamItem::Truncated => result matches Some(Err(error))
                    && error@ is WrongArgumentCount,
                StreamItem::Malformed => result matches Some(Err(error)) && error@ is Json,
            },
            result is Some ==> index < text@.len(),
    {
        match stream_item(text, index) {
            Read::End => None,
            Read::Value(value) => Some(Ok(value)),
            Read::Truncated => Some(Err(Error::WrongArgumentCount)),
            Read::Malformed(error) => Some(Err(Error::Json(error))),
        }
    }

    /// Writes the value as compact JSON text.
    pub fn to_text(&self) -> (text: String)
        ensures
            text@ == json_text(self@),
    {
        compact(self)
    }

    /// The error of a value that does not have the shape a typed reader
    /// expects.
    pub fn unexpected(expected: &str) -> (error: Error)
        ensures
            error@ is Json,
    {
        Error::Json(mismatch(expected))
    }
}

/// The value of the first member of an object that is called `name`.
pub open spec fn member_of(members: Seq<(Seq<char>, JsonView)>, name: Seq<char>) -> Option<JsonView>
    decreases members.len(),
{
    if members.len() == 0 {
        None
    } else if members[0].0 == name {
        Some(members[0].1)
    } else {
        member_of(members.skip(1), name)
    }
}

impl Json {
    /// The value of the member `name` of an object: `None` if the value is no
    /// object or has no such member.
    pub fn member(&self, name: &str) -> (value: Option<&Json>)
        ensures
            match self@ {
                JsonView::Object(members) => match member_of(members, name@) {
                    Some(found) => value matches Some(held) && held@ == found,
                    None => value is None,
                },
                _ => value is None,
            },
    {
        match self {
            Json::Object(members) => {
                let ghost all = member_views(members@);
                proof {
                    lemma_member_views(members@);
                    assert(all.skip(0) =~= all);
                }
                let mut i: usize = 0;
                while i < members.len()
                    invariant
                        i <= members.len(),
                        self@ == JsonView::Object(all),
                        all == member_views(members@),
                        all.len() == members@.len(),
                        forall|j: int|
                            0 <= j < members@.len() ==> (#[trigger] all[j]) == (
                                members@[j].0@,
                                members@[j].1@,
                            ),
                        member_of(all, name@) == member_of(all.skip(i as int), name@),
                    decreases members.len() - i,
                {
                    proof {
                        assert(all.skip(i as int).skip(1) =~= all.skip(i + 1));
                    }
                    if crate::command::same_text(members[i].0.as_str(), name) {
                        return Some(&members[i].1);
                    }
                    i += 1;
                }
                None
            },
            _ => None,
        }
    }
}

/// A type that can be read from a dynamic value.
///
/// `decoded` says, over the deep views, which dynamic values are accepted and
/// what each becomes; `from_json` computes it.
pub trait FromJson: Sized + DeepView {
    /// The value that `json` is read as, if it has the right shape.
    spec fn decoded(json: JsonView) -> Option<Self::V>;

    /// Reads a value, or fails with [`Error::Json`].
    fn from_json(json: &Json) -> (result: Result<Self, Error>)
        ensures
            match Self::decoded(json@) {
                Some(value) => result is Ok && result->Ok_0.deep_view() == value,
                None => result is Err && result->Err_0@ is Json,
            },
    ;
}

/// A type that can be written as a dynamic value.
pub trait ToJson: DeepView {
    /// The dynamic value that stands for `value`.
    spec fn encoded(value: Self::V) -> JsonView;

    /// Writes the value.
    fn to_json(&self) -> (json: Json)
        ensures
            json@ == Self::encoded(self.deep_view()),
    ;
}

/// Whether a dynamic value holds integers only where it holds numbers.
pub open spec fn whole(json: JsonView) -> bool
    decreases json,
{
    match json {
        JsonView::Number(number) => !(number is Float),
        JsonView::Array(items) => all_whole(items),
        JsonView::Object(members) => all_members_whole(members),
        _ => true,
    }
}

/// Whether every one of a sequence of dynamic values is whole.
pub open spec fn all_whole(items: Seq<JsonView>) -> bool
    decreases items,
{
    if items.len() == 0 {
        true
    } else {
        all_whole(items.drop_last()) && whole(items.last())
    }
}

/// Whether the value of every member of an object is whole.
pub open spec fn all_members_whole(members: Seq<(Seq<char>, JsonView)>) -> bool
    decreases members,
{
    if members.len() == 0 {
        true
    } else {
        all_members_whole(members.drop_last()) && whole(members.last().1)
    }
}

/// A sequence is whole if and only if each of its values is.
pub proof fn lemma_all_whole(items: Seq<JsonView>)
    ensures
        all_whole(items) <==> forall|i: int| 0 <= i < items.len() ==> whole(#[trigger] items[i]),
    decreases items.len(),
{
    if items.len() > 0 {
        lemma_all_whole(items.drop_last());
        if all_whole(items) {
            assert forall|i: int| 0 <= i < items.len() implies whole(#[trigger] items[i]) by {
                if i < items.len() - 1 {
                    assert(items.drop_last()[i] == items[i]);
                }
            }
        }
        if forall|i: int| 0 <= i < items.len() ==> whole(#[trigger] items[i]) {
            assert forall|i: int| 0 <= i < items.drop_last().len() implies whole(
                #[trigger] items.drop_last()[i],
            ) by {}
        }
    }
}

/// The members of an object are whole if and only if the value of each is.
pub proof fn lemma_all_members_whole(members: Seq<(Seq<char>, JsonView)>)
    ensures
        all_members_whole(members) <==> forall|i: int|
            0 <= i < members.len() ==> whole((#[trigger] members[i]).1),
    decreases members.len(),
{
    if members.len() > 0 {
        lemma_all_members_whole(members.drop_last());
        if all_members_whole(members) {
            assert forall|i: int| 0 <= i < members.len() implies whole(
                (#[trigger] members[i]).1,
            ) by {
                if i < members.len() - 1 {
                    assert(members.drop_last()[i] == members[i]);
                }
            }
        }
        if forall|i: int| 0 <= i < members.len() ==> whole((#[trigger] members[i]).1) {
            assert forall|i: int| 0 <= i < members.drop_last().len() implies whole(
                (#[trigger] members.drop_last()[i]).1,
            ) by {}
        }
    }
}

impl Json {
    /// Whether two dynamic values are the same, member for member. Numbers
    /// that are not integers are kept as the codec read them and are not
    /// compared: a value that holds one is the same as no value.
    pub fn same(&self, other: &Json) -> (same: bool)
        ensures
            same == (self@ == other@ && whole(self@)),
        decreases self, 0nat,
    {
        match (self, other) {
            (Json::Null, Json::Null) => {
                true
            },
            (Json::Bool(a), Json::Bool(b)) => {
                *a == *b
            },
            (Json::Number(Numeric::PosInt(a)), Json::Number(Numeric::PosInt(b))) => {
                let same = *a == *b;
                same
            },
            (Json::Number(Numeric::NegInt(a)), Json::Number(Numeric::NegInt(b))) => {
                let same = *a == *b;
                same
            },
            (Json::String(a), Json::String(b)) => {
                let same = crate::command::same_text(a.as_str(), b.as_str());
                same
            },
            (Json::Array(a), Json::Array(b)) => {
                proof {
                    lemma_views(a@);
                    lemma_views(b@);
                }
                if a.len() != b.len() {
                    return false;
                }
                let same = same_items(a, b, 0);
                proof {
                    lemma_all_whole(views(a@));
                    if same {
                        assert(views(a@) =~= views(b@));
                        assert forall|j: int| 0 <= j < views(a@).len() implies whole(
                            #[trigger] views(a@)[j],
                        ) by {}
                    } else {
                        let j = choose|j: int|
                            0 <= j < a@.len() && !(a@[j]@ == b@[j]@ && whole(a@[j]@));
                        if whole(self@) {
                            assert(whole(views(a@)[j]));
                        }
                    }

                }
                same
            },
            (Json::Object(a), Json::Object(b)) => {
                proof {
                    lemma_member_views(a@);
                    lemma_member_views(b@);
                }
                if a.len() != b.len() {
                    return false;
                }
                let same = same_members(a, b, 0);
                proof {
                    lemma_all_members_whole(member_views(a@));
                    if same {
                        assert(member_views(a@) =~= member_views(b@));
                        assert forall|j: int| 0 <= j < member_views(a@).len() implies whole(
                            (#[trigger] member_views(a@)[j]).1,
                        ) by {}
                    } else {
                        let j = choose|j: int|
                            0 <= j < a@.len() && !(a@[j].0@ == b@[j].0@ && a@[j].1@ == b@[j].1@
                                && whole(a@[j].1@));
                        if whole(self@) {
                            assert(whole(member_views(a@)[j].1));
                        }
                    }

                }
                same
            },
            _ => {
                false
            },
        }
    }
}

/// Whether the items of two arrays of one length are the same from `from`
/// on.
pub(crate) fn same_items(a: &Vec<Json>, b: &Vec<Json>, from: usize) -> (same: bool)
    requires
        from <= a.len() == b.len(),
    ensures
        same == (forall|j: int| from <= j < a@.len() ==> a@[j]@ == b@[j]@ && whole(a@[j]@)),
    decreases a, a.len() - from,
{
    if from == a.len() {
        true
    } else if a[from].same(&b[from]) {
        same_items(a, b, from + 1)
    } else {
        false
    }
}

/// Whether the members of two objects of one length are the same from
/// `from` on.
fn same_members(a: &Vec<(String, Json)>, b: &Vec<(String, Json)>, from: usize) -> (same: bool)
    requires
        from <= a.len() == b.len(),
    ensures
        same == (forall|j: int|
            from <= j < a@.len() ==> a@[j].0@ == b@[j].0@ && a@[j].1@ == b@[j].1@ && whole(
                a@[j].1@,
            )),
    decreases a, a.len() - from,
{
    if from == a.len() {
        true
    } else if crate::command::same_text(a[from].0.as_str(), b[from].0.as_str()) && a[from].1.same(
        &b[from].1,
    ) {
        same_members(a, b, from + 1)
    } else {
        false
    }
}

} // verus!
