//! Values without children: the only command they take replaces them whole.

use vstd::prelude::*;
use crate::command::{Command, CommandView};
use crate::context::{conclude, concluded, lemma_noted_nothing, Context};
use crate::error::{Error, ErrorKind, Outcome};
use crate::json::{lemma_views, views, FromJson, Json, JsonView, Numeric, ToJson};
use crate::reflect::{leaves_no_trace, Reflect};

verus! {

/// The integer that a dynamic value holds, if it is a number without fraction
/// or exponent.
pub open spec fn integer_of(json: JsonView) -> Option<int> {
    match json {
        JsonView::Number(number) => number.integer(),
        _ => None,
    }
}

/// The dynamic value that stands for an integer that fits in 64 bits, signed
/// or unsigned.
pub open spec fn integer_json(value: int) -> JsonView {
    if value >= 0 {
        JsonView::Number(Numeric::PosInt(value as u64))
    } else {
        JsonView::Number(Numeric::NegInt(value as i64))
    }
}

/// Reads the integer of a dynamic value.
fn read_integer(json: &Json) -> (value: Option<i128>)
    ensures
        match value {
            Some(v) => integer_of(json@) == Some(v as int),
            None => integer_of(json@) is None,
        },
{
    match json {
        Json::Number(Numeric::PosInt(n)) => Some(*n as i128),
        Json::Number(Numeric::NegInt(n)) => Some(*n as i128),
        _ => None,
    }
}

/// Marks the types whose values have no children: a primitive takes `set:`
/// and refuses every other command.
pub trait Primitive: FromJson {
}

impl<T: Primitive> Reflect for T {
    open spec fn apply(value: Self::V, command: CommandView) -> (Self::V, Outcome) {
        match command {
            CommandView::Assign { value: json } => match Self::decoded(json) {
                Some(new) => (new, Ok(())),
                None => (value, Err(ErrorKind::Json)),
            },
            _ => (value, Err(ErrorKind::IncompatibleCommand)),
        }
    }

    open spec fn echoes(value: Self::V, command: CommandView) -> Seq<(Seq<char>, bool)> {
        concluded(command, Self::apply(value, command).1)
    }

    proof fn lemma_assign_twice(value: Self::V, json: JsonView) {
    }

    fn command<C: Context>(&mut self, context: &mut C, command: &Command) -> (result: Result<
        (),
        Error,
    >) {
        proof {
            lemma_noted_nothing(context.observes(), context.path(), context.log());
        }
        let result = match command {
            Command::Assign { value } => match T::from_json(value) {
                Ok(new) => {
                    *self = new;
                    Ok(())
                },
                Err(error) => Err(error),
            },
            _ => Err(Error::IncompatibleCommand),
        };
        conclude(context, command, result)
    }
}

impl FromJson for bool {
    open spec fn decoded(json: JsonView) -> Option<bool> {
        match json {
            JsonView::Bool(value) => Some(value),
            _ => None,
        }
    }

    fn from_json(json: &Json) -> (result: Result<Self, Error>) {
        match json {
            Json::Bool(value) => Ok(*value),
            _ => Err(Json::unexpected("a boolean")),
        }
    }
}

impl ToJson for bool {
    open spec fn encoded(value: bool) -> JsonView {
        JsonView::Bool(value)
    }

    fn to_json(&self) -> (json: Json) {
        Json::Bool(*self)
    }
}

impl Primitive for bool {
}

impl FromJson for String {
    open spec fn decoded(json: JsonView) -> Option<Seq<char>> {
        match json {
            JsonView::String(value) => Some(value),
            _ => None,
        }
    }

    fn from_json(json: &Json) -> (result: Result<Self, Error>) {
        match json {
            Json::String(value) => Ok(value.clone()),
            _ => Err(Json::unexpected("a string")),
        }
    }
}

impl ToJson for String {
    open spec fn encoded(value: Seq<char>) -> JsonView {
        JsonView::String(value)
    }

    fn to_json(&self) -> (json: Json) {
        Json::String(self.clone())
    }
}

impl Primitive for String {
}

impl FromJson for u8 {
    open spec fn decoded(json: JsonView) -> Option<u8> {
        match integer_of(json) {
            Some(value) => if value <= u8::MAX && value >= 0 {
                Some(value as u8)
            } else {
                None
            },
            None => None,
        }
    }

    fn from_json(json: &Json) -> (result: Result<Self, Error>) {
        match read_integer(json) {
            Some(value) => if value <= u8::MAX as i128 && value >= 0 {
                Ok(value as u8)
            } else {
                Err(Json::unexpected("a u8"))
            },
            None => Err(Json::unexpected("a u8")),
        }
    }
}

impl ToJson for u8 {
    open spec fn encoded(value: u8) -> JsonView {
        integer_json(value as int)
    }

    fn to_json(&self) -> (json: Json) {
        Json::Number(Numeric::PosInt(*self as u64))
    }
}

impl Primitive for u8 {
}

impl FromJson for u16 {
    open spec fn decoded(json: JsonView) -> Option<u16> {
        match integer_of(json) {
            Some(value) => if value <= u16::MAX && value >= 0 {
                Some(value as u16)
            } else {
                None
            },
            None => None,
        }
    }

    fn from_json(json: &Json) -> (result: Result<Self, Error>) {
        match read_integer(json) {
            Some(value) => if value <= u16::MAX as i128 && value >= 0 {
                Ok(value as u16)
            } else {
                Err(Json::unexpected("a u16"))
            },
            None => Err(Json::unexpected("a u16")),
        }
    }
}

impl ToJson for u16 {
    open spec fn encoded(value: u16) -> JsonView {
        integer_json(value as int)
    }

    fn to_json(&self) -> (json: Json) {
        Json::Number(Numeric::PosInt(*self as u64))
    }
}

impl Primitive for u16 {
}

impl FromJson for u32 {
    open spec fn decoded(json: JsonView) -> Option<u32> {
        match integer_of(json) {
            Some(value) => if value <= u32::MAX && value >= 0 {
                Some(value as u32)
            } else {
                None
            },
            None => None,
        }
    }

    fn from_json(json: &Json) -> (result: Result<Self, Error>) {
        match read_integer(json) {
            Some(value) => if value <= u32::MAX as i128 && value >= 0 {
                Ok(value as u32)
            } else {
                Err(Json::unexpected("a u32"))
            },
            None => Err(Json::unexpected("a u32")),
        }
    }
}

impl ToJson for u32 {
    open spec fn encoded(value: u32) -> JsonView {
        integer_json(value as int)
    }

    fn to_json(&self) -> (json: Json) {
        Json::Number(Numeric::PosInt(*self as u64))
    }
}

impl Primitive for u32 {
}

impl FromJson for u64 {
    open spec fn decoded(json: JsonView) -> Option<u64> {
        match integer_of(json) {
            Some(value) => if value <= u64::MAX && value >= 0 {
                Some(value as u64)
            } else {
                None
            },
            None => None,
        }
    }

    fn from_json(json: &Json) -> (result: Result<Self, Error>) {
        match read_integer(json) {
            Some(value) => if value <= u64::MAX as i128 && value >= 0 {
                Ok(value as u64)
            } else {
                Err(Json::unexpected("a u64"))
            },
            None => Err(Json::unexpected("a u64")),
        }
    }
}

impl ToJson for u64 {
    open spec fn encoded(value: u64) -> JsonView {
        integer_json(value as int)
    }

    fn to_json(&self) -> (json: Json) {
        Json::Number(Numeric::PosInt(*self as u64))
    }
}

impl Primitive for u64 {
}

impl FromJson for usize {
    open spec fn decoded(json: JsonView) -> Option<usize> {
        match integer_of(json) {
            Some(value) => if value <= usize::MAX && value >= 0 {
                Some(value as usize)
            } else {
                None
            },
            None => None,
        }
    }

    fn from_json(json: &Json) -> (result: Result<Self, Error>) {
        match read_integer(json) {
            Some(value) => if value <= usize::MAX as i128 && value >= 0 {
                Ok(value as usize)
            } else {
                Err(Json::unexpected("a usize"))
            },
            None => Err(Json::unexpected("a usize")),
        }
    }
}

impl ToJson for usize {
    open spec fn encoded(value: usize) -> JsonView {
        integer_json(value as int)
    }

    fn to_json(&self) -> (json: Json) {
        Json::Number(Numeric::PosInt(*self as u64))
    }
}

impl Primitive for usize {
}

impl FromJson for i8 {
    open spec fn decoded(json: JsonView) -> Option<i8> {
        match integer_of(json) {
            Some(value) => if i8::MIN <= value && value <= i8::MAX {
                Some(value as i8)
            } else {
                None
            },
            None => None,
        }
    }

    fn from_json(json: &Json) -> (result: Result<Self, Error>) {
        match read_integer(json) {
            Some(value) => if i8::MIN as i128 <= value && value <= i8::MAX as i128 {
                Ok(value as i8)
            } else {
                Err(Json::unexpected("an i8"))
            },
            None => Err(Json::unexpected("an i8")),
        }
    }
}

impl ToJson for i8 {
    open spec fn encoded(value: i8) -> JsonView {
        integer_json(value as int)
    }

    fn to_json(&self) -> (json: Json) {
        if *self >= 0 {
            Json::Number(Numeric::PosInt(*self as u64))
        } else {
            Json::Number(Numeric::NegInt(*self as i64))
        }
    }
}

impl Primitive for i8 {
}

impl FromJson for i16 {
    open spec fn decoded(json: JsonView) -> Option<i16> {
        match integer_of(json) {
            Some(value) => if i16::MIN <= value && value <= i16::MAX {
                Some(value as i16)
            } else {
                None
            },
            None => None,
        }
    }

    fn from_json(json: &Json) -> (result: Result<Self, Error>) {
        match read_integer(json) {
            Some(value) => if i16::MIN as i128 <= value && value <= i16::MAX as i128 {
                Ok(value as i16)
            } else {
                Err(Json::unexpected("an i16"))
            },
            None => Err(Json::unexpected("an i16")),
        }
    }
}

impl ToJson for i16 {
    open spec fn encoded(value: i16) -> JsonView {
        integer_json(value as int)
    }

    fn to_json(&self) -> (json: Json) {
        if *self >= 0 {
            Json::Number(Numeric::PosInt(*self as u64))
        } else {
            Json::Number(Numeric::NegInt(*self as i64))
        }
    }
}

impl Primitive for i16 {
}

impl FromJson for i32 {
    open spec fn decoded(json: JsonView) -> Option<i32> {
        match integer_of(json) {
            Some(value) => if i32::MIN <= value && value <= i32::MAX {
                Some(value as i32)
            } else {
                None
            },
            None => None,
        }
    }

    fn from_json(json: &Json) -> (result: Result<Self, Error>) {
        match read_integer(json) {
            Some(value) => if i32::MIN as i128 <= value && value <= i32::MAX as i128 {
                Ok(value as i32)
            } else {
                Err(Json::unexpected("an i32"))
            },
            None => Err(Json::unexpected("an i32")),
        }
    }
}

impl ToJson for i32 {
    open spec fn encoded(value: i32) -> JsonView {
        integer_json(value as int)
    }

    fn to_json(&self) -> (json: Json) {
        if *self >= 0 {
            Json::Number(Numeric::PosInt(*self as u64))
        } else {
            Json::Number(Numeric::NegInt(*self as i64))
        }
    }
}

impl Primitive for i32 {
}

impl FromJson for i64 {
    open spec fn decoded(json: JsonView) -> Option<i64> {
        match integer_of(json) {
            Some(value) => if i64::MIN <= value && value <= i64::MAX {
                Some(value as i64)
            } else {
                None
            },
            None => None,
        }
    }

    fn from_json(json: &Json) -> (result: Result<Self, Error>) {
        match read_integer(json) {
            Some(value) => if i64::MIN as i128 <= value && value <= i64::MAX as i128 {
                Ok(value as i64)
            } else {
                Err(Json::unexpected("an i64"))
            },
            None => Err(Json::unexpected("an i64")),
        }
    }
}

impl ToJson for i64 {
    open spec fn encoded(value: i64) -> JsonView {
        integer_json(value as int)
    }

    fn to_json(&self) -> (json: Json) {
        if *self >= 0 {
            Json::Number(Numeric::PosInt(*self as u64))
        } else {
            Json::Number(Numeric::NegInt(*self as i64))
        }
    }
}

impl Primitive for i64 {
}

impl FromJson for isize {
    open spec fn decoded(json: JsonView) -> Option<isize> {
        match integer_of(json) {
            Some(value) => if isize::MIN <= value && value <= isize::MAX {
                Some(value as isize)
            } else {
                None
            },
            None => None,
        }
    }

    fn from_json(json: &Json) -> (result: Result<Self, Error>) {
        match read_integer(json) {
            Some(value) => if isize::MIN as i128 <= value && value <= isize::MAX as i128 {
                Ok(value as isize)
            } else {
                Err(Json::unexpected("an isize"))
            },
            None => Err(Json::unexpected("an isize")),
        }
    }
}

impl ToJson for isize {
    open spec fn encoded(value: isize) -> JsonView {
        integer_json(value as int)
    }

    fn to_json(&self) -> (json: Json) {
        if *self >= 0 {
            Json::Number(Numeric::PosInt(*self as u64))
        } else {
            Json::Number(Numeric::NegInt(*self as i64))
        }
    }
}

impl Primitive for isize {
}

/// A pair is read from an array of two items, and written as one.
impl<A: FromJson, B: FromJson> FromJson for (A, B) {
    open spec fn decoded(json: JsonView) -> Option<(A::V, B::V)> {
        match json {
            JsonView::Array(items) => if items.len() == 2 {
                match (A::decoded(items[0]), B::decoded(items[1])) {
                    (Some(first), Some(second)) => Some((first, second)),
                    _ => None,
                }
            } else {
                None
            },
            _ => None,
        }
    }

    fn from_json(json: &Json) -> (result: Result<Self, Error>) {
        match json {
            Json::Array(items) => {
                proof {
                    lemma_views(items@);
                }
                if items.len() == 2 {
                    match A::from_json(&items[0]) {
                        Ok(first) => match B::from_json(&items[1]) {
                            Ok(second) => Ok((first, second)),
                            Err(error) => Err(error),
                        },
                        Err(error) => Err(error),
                    }
                } else {
                    Err(Json::unexpected("an array of two items"))
                }
            },
            _ => Err(Json::unexpected("an array")),
        }
    }
}

impl<A: ToJson, B: ToJson> ToJson for (A, B) {
    open spec fn encoded(value: (A::V, B::V)) -> JsonView {
        JsonView::Array(seq![A::encoded(value.0), B::encoded(value.1)])
    }

    fn to_json(&self) -> (json: Json) {
        let mut items: Vec<Json> = Vec::new();
        items.push(self.0.to_json());
        items.push(self.1.to_json());
        proof {
            lemma_views(items@);
            assert(views(items@) =~= seq![
                A::encoded(self.0.deep_view()),
                B::encoded(self.1.deep_view()),
            ]);
        }
        Json::Array(items)
    }
}

impl<A: Primitive, B: Primitive> Primitive for (A, B) {
}

/// A triple is read from an array of three items, and written as one.
impl<A: FromJson, B: FromJson, C: FromJson> FromJson for (A, B, C) {
    open spec fn decoded(json: JsonView) -> Option<(A::V, B::V, C::V)> {
        match json {
            JsonView::Array(items) => if items.len() == 3 {
                match (A::decoded(items[0]), B::decoded(items[1]), C::decoded(items[2])) {
                    (Some(first), Some(second), Some(third)) => Some((first, second, third)),
                    _ => None,
                }
            } else {
                None
            },
            _ => None,
        }
    }

    fn from_json(json: &Json) -> (result: Result<Self, Error>) {
        match json {
            Json::Array(items) => {
                proof {
                    lemma_views(items@);
                }
                if items.len() == 3 {
                    match A::from_json(&items[0]) {
                        Ok(first) => match B::from_json(&items[1]) {
                            Ok(second) => match C::from_json(&items[2]) {
                                Ok(third) => Ok((first, second, third)),
                                Err(error) => Err(error),
                            },
                            Err(error) => Err(error),
                        },
                        Err(error) => Err(error),
                    }
                } else {
                    Err(Json::unexpected("an array of three items"))
                }
            },
            _ => Err(Json::unexpected("an array")),
        }
    }
}

impl<A: ToJson, B: ToJson, C: ToJson> ToJson for (A, B, C) {
    open spec fn encoded(value: (A::V, B::V, C::V)) -> JsonView {
        JsonView::Array(seq![A::encoded(value.0), B::encoded(value.1), C::encoded(value.2)])
    }

    fn to_json(&self) -> (json: Json) {
        let mut items: Vec<Json> = Vec::new();
        items.push(self.0.to_json());
        items.push(self.1.to_json());
        items.push(self.2.to_json());
        proof {
            lemma_views(items@);
            assert(views(items@) =~= seq![
                A::encoded(self.0.deep_view()),
                B::encoded(self.1.deep_view()),
                C::encoded(self.2.deep_view()),
            ]);
        }
        Json::Array(items)
    }
}

impl<A: Primitive, B: Primitive, C: Primitive> Primitive for (A, B, C) {
}

/// A primitive leaves no trace of a command that it refuses.
pub proof fn lemma_primitive_leaves_no_trace<T: Primitive>()
    ensures
        leaves_no_trace::<T>(),
{
}

} // verus!
