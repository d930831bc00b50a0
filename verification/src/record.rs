//! Records: children addressed by field name, and callables bound by name.
//!
//! A record type declares its fields and callables in a [`Schema`], which
//! says where a command goes: into a field, to the whole record, or to a
//! callable ([`Route`]). A type that implements [`Record`] leaves the rest to
//! [`dispatch`], which goes into the field under the deeper context, reads
//! the whole record from the value and records that, or invokes the
//! callable; its [`Reflect`](crate::Reflect) implementation is that one
//! call.

use vstd::prelude::*;
use crate::command::{
    is_terminal, lemma_parse_path, parse_spec, same_text, Command, CommandView,
};
use crate::context::{
    conclude, concluded, lemma_noted_nothing, lemma_noted_under, noted, under, Context,
};
use crate::error::{outcome, Error, ErrorKind, Outcome};
use crate::json::{views, FromJson, Json, JsonView};
use crate::list::{index_of, parse_index};

verus! {

broadcast use vstd::seq::group_seq_axioms;

/// A callable bound to a record: the name it is called by and the number of
/// arguments it takes, the context not counted.
pub struct Callable {
    pub name: String,
    pub args: usize,
}

/// The word that names a callable in its declaration.
pub open spec fn word_name() -> Seq<char> {
    seq!['n', 'a', 'm', 'e']
}

/// The word that gives the number of arguments in a declaration.
pub open spec fn word_args() -> Seq<char> {
    seq!['a', 'r', 'g', 's']
}

/// What the `key = "value"` pairs of a declaration say, read from the left:
/// the name, if one was given, and the number of arguments, which is 0 unless
/// given. A later pair overrides an earlier one of the same key. A number
/// that is no index is a [`ErrorKind::ParseIntError`], a key other than
/// `name` and `args` an [`ErrorKind::InvalidCommand`].
pub open spec fn declared(pairs: Seq<(Seq<char>, Seq<char>)>) -> Result<
    (Option<Seq<char>>, nat),
    ErrorKind,
>
    decreases pairs.len(),
{
    if pairs.len() == 0 {
        Ok((None, 0))
    } else {
        match declared(pairs.drop_last()) {
            Ok((name, args)) => {
                let (key, value) = pairs.last();
                if key == word_name() {
                    Ok((Some(value), args))
                } else if key == word_args() {
                    match index_of(value) {
                        Some(number) => if number <= usize::MAX {
                            Ok((name, number))
                        } else {
                            Err(ErrorKind::ParseIntError)
                        },
                        None => Err(ErrorKind::ParseIntError),
                    }
                } else {
                    Err(ErrorKind::InvalidCommand)
                }
            },
            Err(error) => Err(error),
        }
    }
}

impl Callable {
    /// Binds a callable.
    pub fn new(name: String, args: usize) -> (callable: Self)
        ensures
            callable.name == name,
            callable.args == args,
    {
        Callable { name, args }
    }

    /// Reads a binding from the `key = "value"` pairs of its declaration, as
    /// in `name = "set_bar", args = "2"`. A declaration without a name is an
    /// [`Error::InvalidCommand`]; for the rest see [`declared`].
    pub fn declare(pairs: &Vec<(String, String)>) -> (result: Result<Callable, Error>)
        ensures
            match declared(pairs.deep_view()) {
                Ok((Some(name), args)) => result matches Ok(callable) && callable.name@ == name
                    && callable.args == args,
                Ok((None, _)) => result matches Err(error) && error@ is InvalidCommand,
                Err(kind) => result matches Err(error) && error@ == kind,
            },
    {
        let ghost all = pairs.deep_view();
        let mut name: Option<String> = None;
        let mut args: usize = 0;
        let mut i: usize = 0;
        proof {
            reveal_strlit("name");
            reveal_strlit("args");
        }
        while i < pairs.len()
            invariant
                i <= pairs.len(),
                all == pairs.deep_view(),
                "name"@ == word_name(),
                "args"@ == word_args(),
                declared(all.take(i as int)) == Ok::<(Option<Seq<char>>, nat), ErrorKind>(
                    (name.deep_view(), args as nat),
                ),
            decreases pairs.len() - i,
        {
            proof {
                assert(all.take(i + 1).drop_last() =~= all.take(i as int));
            }
            if same_text(pairs[i].0.as_str(), "name") {
                name = Some(pairs[i].1.clone());
            } else if same_text(pairs[i].0.as_str(), "args") {
                match parse_index(pairs[i].1.as_str()) {
                    Ok(number) => {
                        args = number;
                    },
                    Err(error) => {
                        proof {
                            lemma_declared_fails(all, i + 1);
                        }
                        return Err(Error::ParseIntError(error));
                    },
                }
            } else {
                proof {
                    lemma_declared_fails(all, i + 1);
                }
                return Err(Error::InvalidCommand);
            }
            i += 1;
        }
        assert(all.take(i as int) =~= all);
        match name {
            Some(name) => Ok(Callable { name, args }),
            None => Err(Error::InvalidCommand),
        }
    }
}

/// A declaration that fails after some of its pairs fails as a whole, in the
/// same way.
pub proof fn lemma_declared_fails(pairs: Seq<(Seq<char>, Seq<char>)>, upto: int)
    requires
        0 <= upto <= pairs.len(),
        declared(pairs.take(upto)) is Err,
    ensures
        declared(pairs) == declared(pairs.take(upto)),
    decreases pairs.len() - upto,
{
    if upto < pairs.len() {
        assert(pairs.take(upto + 1).drop_last() =~= pairs.take(upto));
        lemma_declared_fails(pairs, upto + 1);
    } else {
        assert(pairs.take(upto) =~= pairs);
    }
}

/// The declaration of a record: the names of its fields, in the order they
/// are declared, and its callables.
pub struct Schema {
    pub fields: Vec<String>,
    pub callables: Vec<Callable>,
}

/// Where a command that is addressed to a record goes.
pub enum Route<'a> {
    /// Into the field with this number, which carries out `command`.
    Field { index: usize, command: &'a Command },
    /// The whole record is replaced by what `value` decodes to.
    Assign { value: &'a Json },
    /// The callable with this number is invoked with `arguments`, which are
    /// as many as it takes.
    Call { index: usize, arguments: &'a Vec<Json> },
}

/// The mathematical counterpart of [`Route`].
pub enum RouteView {
    Field { index: int, command: CommandView },
    Assign { value: JsonView },
    Call { index: int, arguments: Seq<JsonView> },
}

impl<'a> View for Route<'a> {
    type V = RouteView;

    open spec fn view(&self) -> RouteView {
        match self {
            Route::Field { index, command } => RouteView::Field {
                index: *index as int,
                command: command@,
            },
            Route::Assign { value } => RouteView::Assign { value: value@ },
            Route::Call { index, arguments } => RouteView::Call {
                index: *index as int,
                arguments: views(arguments@),
            },
        }
    }
}

/// Whether `at` is the place of the first of `names` that is `name`.
pub open spec fn is_position(names: Seq<Seq<char>>, name: Seq<char>, at: int) -> bool {
    &&& 0 <= at < names.len()
    &&& names[at] == name
    &&& forall|j: int| 0 <= j < at ==> names[j] != name
}

/// The place of the first of `names` that is `name`, if there is one.
pub open spec fn position(names: Seq<Seq<char>>, name: Seq<char>) -> Option<int> {
    if exists|at: int| is_position(names, name, at) {
        Some(choose|at: int| is_position(names, name, at))
    } else {
        None
    }
}

/// The first match is unique, so finding one determines [`position`].
pub proof fn lemma_position_found(names: Seq<Seq<char>>, name: Seq<char>, at: int)
    requires
        is_position(names, name, at),
    ensures
        position(names, name) == Some(at),
{
}

/// A name that is not among `names` has no position, and the other way
/// round.
pub proof fn lemma_position_absent(names: Seq<Seq<char>>, name: Seq<char>)
    ensures
        position(names, name) is None <==> !names.contains(name),
{
    if names.contains(name) {
        let at = least_index(names, name, names.len() as int);
        lemma_position_found(names, name, at);
    } else {
        if exists|at: int| is_position(names, name, at) {
            let at = choose|at: int| is_position(names, name, at);
        }
    }
}

/// The first place below `limit` at which `name` stands.
proof fn least_index(names: Seq<Seq<char>>, name: Seq<char>, limit: int) -> (at: int)
    requires
        0 <= limit <= names.len(),
        exists|j: int| 0 <= j < limit && names[j] == name,
    ensures
        is_position(names, name, at),
    decreases limit,
{
    if exists|j: int| 0 <= j < limit - 1 && names[j] == name {
        least_index(names, name, limit - 1)
    } else {
        limit - 1
    }
}

/// The names of the callables of a schema.
pub open spec fn callable_names(callables: Seq<Callable>) -> Seq<Seq<char>> {
    Seq::new(callables.len(), |i: int| callables[i].name@)
}

/// Where a command goes in a record with these fields and callables.
///
/// A path goes into the first field whose name is its element; no such field
/// is a [`ErrorKind::PathError`]. `set:` replaces the record. A call goes to
/// the first callable of that name if the number of arguments is the number
/// it takes, and is a [`ErrorKind::WrongArgumentCount`] if it is not; no such
/// callable is an [`ErrorKind::InvalidCommand`]. Any other command is an
/// [`ErrorKind::IncompatibleCommand`].
pub open spec fn route_spec(
    fields: Seq<Seq<char>>,
    callables: Seq<Callable>,
    command: CommandView,
) -> Result<RouteView, ErrorKind> {
    match command {
        CommandView::Path { element, command } => match position(fields, element) {
            Some(index) => Ok(RouteView::Field { index, command: *command }),
            None => Err(ErrorKind::PathError),
        },
        CommandView::Assign { value } => Ok(RouteView::Assign { value }),
        CommandView::Call { key, arguments } => match position(callable_names(callables), key) {
            Some(index) => if arguments.len() == callables[index].args {
                Ok(RouteView::Call { index, arguments })
            } else {
                Err(ErrorKind::WrongArgumentCount)
            },
            None => Err(ErrorKind::InvalidCommand),
        },
        _ => Err(ErrorKind::IncompatibleCommand),
    }
}

/// What a routing result stands for.
pub open spec fn routed(result: Result<Route<'_>, Error>) -> Result<RouteView, ErrorKind> {
    match result {
        Ok(route) => Ok(route@),
        Err(error) => Err(error@),
    }
}

impl Schema {
    /// The names of the fields, in the order they are declared.
    pub open spec fn field_names(&self) -> Seq<Seq<char>> {
        self.fields.deep_view()
    }

    /// Declares a record.
    pub fn new(fields: Vec<String>, callables: Vec<Callable>) -> (schema: Self)
        ensures
            schema.fields == fields,
            schema.callables == callables,
    {
        Schema { fields, callables }
    }

    /// The number of the first field that is called `name`.
    pub fn field(&self, name: &str) -> (index: Option<usize>)
        ensures
            match index {
                Some(at) => position(self.field_names(), name@) == Some(at as int) && at
                    < self.fields@.len(),
                None => position(self.field_names(), name@) is None,
            },
    {
        let ghost names = self.field_names();
        let mut i: usize = 0;
        while i < self.fields.len()
            invariant
                i <= self.fields.len(),
                names == self.field_names(),
                forall|j: int| 0 <= j < i ==> names[j] != name@,
            decreases self.fields.len() - i,
        {
            if same_text(self.fields[i].as_str(), name) {
                proof {
                    lemma_position_found(names, name@, i as int);
                }
                return Some(i);
            }
            i += 1;
        }
        None
    }

    /// The number of the first callable that is called `name`.
    pub fn callable(&self, name: &str) -> (index: Option<usize>)
        ensures
            match index {
                Some(at) => position(callable_names(self.callables@), name@) == Some(at as int)
                    && at < self.callables@.len(),
                None => position(callable_names(self.callables@), name@) is None,
            },
    {
        let ghost names = callable_names(self.callables@);
        let mut i: usize = 0;
        while i < self.callables.len()
            invariant
                i <= self.callables.len(),
                names == callable_names(self.callables@),
                forall|j: int| 0 <= j < i ==> names[j] != name@,
            decreases self.callables.len() - i,
        {
            if same_text(self.callables[i].name.as_str(), name) {
                proof {
                    lemma_position_found(names, name@, i as int);
                }
                return Some(i);
            }
            i += 1;
        }
        None
    }

    /// Says where a command that is addressed to the record goes, or why the
    /// record refuses it.
    pub fn route<'a>(&self, command: &'a Command) -> (result: Result<Route<'a>, Error>)
        ensures
            routed(result) == route_spec(self.field_names(), self.callables@, command@),
    {
        match command {
            Command::Path { element, command } => match self.field(element.as_str()) {
                Some(index) => Ok(Route::Field { index, command }),
                None => Err(Error::PathError),
            },
            Command::Assign { value } => Ok(Route::Assign { value }),
            Command::Call { key, arguments } => match self.callable(key.as_str()) {
                Some(index) => {
                    proof {
                        crate::json::lemma_views(arguments@);
                    }
                    if arguments.len() == self.callables[index].args {
                        Ok(Route::Call { index, arguments })
                    } else {
                        Err(Error::WrongArgumentCount)
                    }
                },
                None => Err(Error::InvalidCommand),
            },
            _ => Err(Error::IncompatibleCommand),
        }
    }
}

/// A record refuses what it has not declared: a path whose element is no
/// field of it is a path error, and a call of a name that is no callable of
/// it is an invalid command.
pub proof fn lemma_undeclared_is_refused(
    fields: Seq<Seq<char>>,
    callables: Seq<Callable>,
    name: Seq<char>,
    command: CommandView,
    arguments: Seq<JsonView>,
)
    ensures
        !fields.contains(name) ==> route_spec(
            fields,
            callables,
            CommandView::Path { element: name, command: Box::new(command) },
        ) == Err::<RouteView, ErrorKind>(ErrorKind::PathError),
        !callable_names(callables).contains(name) ==> route_spec(
            fields,
            callables,
            CommandView::Call { key: name, arguments },
        ) == Err::<RouteView, ErrorKind>(ErrorKind::InvalidCommand),
{
    lemma_position_absent(fields, name);
    lemma_position_absent(callable_names(callables), name);
}

/// A path composes: the text `field/rest` goes into the field of that name
/// with the command that `rest` denotes, and fails as `rest` does where it
/// is no command. The name must be one that can stand in a path.
pub proof fn lemma_path_into_record(
    fields: Seq<Seq<char>>,
    callables: Seq<Callable>,
    name: Seq<char>,
    rest: Seq<char>,
)
    requires
        !name.contains('/'),
        !is_terminal(name),
        fields.contains(name),
    ensures
        match parse_spec(rest) {
            Ok(command) => parse_spec(name + seq!['/'] + rest) matches Ok(whole) && route_spec(
                fields,
                callables,
                whole,
            ) == Ok::<RouteView, ErrorKind>(
                RouteView::Field { index: position(fields, name)->Some_0, command },
            ),
            Err(error) => parse_spec(name + seq!['/'] + rest) == Err::<CommandView, ErrorKind>(
                error,
            ),
        },
        position(fields, name) is Some,
{
    lemma_parse_path(name, rest);
    lemma_position_absent(fields, name);
}

/// The number of a field or callable, as contracts see it.
pub type Place = int;

/// Names, as contracts see them.
pub type Names = Seq<Seq<char>>;

/// The callables of a record, as contracts see them.
pub type Bindings = Seq<Callable>;

/// Dynamic values, as contracts see them.
pub type Values = Seq<JsonView>;

/// What a struct declares to be a reflective record: its fields and
/// callables, how a command is carried out in one of its fields, and how one
/// of its callables is invoked. [`dispatch`] does everything else.
pub trait Record: FromJson {
    /// The names of the fields, in the order they are declared.
    spec fn field_names() -> Seq<Seq<char>>;

    /// The callables that the record binds.
    spec fn bindings() -> Seq<Callable>;

    /// What `command` does when the field with the number `index` carries
    /// it out: the record afterwards, how the command ended, and what it has
    /// recorded, as it reads in the field.
    spec fn in_field(value: Self::V, index: int, command: CommandView) -> (
        Self::V,
        Outcome,
        Seq<(Seq<char>, bool)>,
    );

    /// What invoking the callable with the number `index` does: the record
    /// afterwards, how the call ended, and what it has recorded, as it reads
    /// in the record.
    spec fn invoked(value: Self::V, index: int, arguments: Seq<JsonView>) -> (
        Self::V,
        Outcome,
        Seq<(Seq<char>, bool)>,
    );

    /// The declaration of the record.
    fn schema() -> (schema: Schema)
        ensures
            schema.field_names() == Self::field_names(),
            schema.callables@ == Self::bindings(),
    ;

    /// Hands a command to the field with the number `index`, which carries
    /// it out under `context`.
    fn field_command<C: Context>(
        &mut self,
        index: usize,
        context: &mut C,
        command: &Command,
    ) -> (result: Result<(), Error>)
        requires
            index < Self::field_names().len(),
        ensures
            ({
                let done = Self::in_field(old(self).deep_view(), index as int, command@);
                &&& final(self).deep_view() == done.0
                &&& outcome(result) == done.1
                &&& final(context).log() == noted(
                    old(context).observes(),
                    old(context).path(),
                    old(context).log(),
                    done.2,
                )
            }),
            final(context).observes() == old(context).observes(),
            final(context).path() == old(context).path(),
    ;

    /// Invokes the callable with the number `index`, with as many arguments
    /// as it takes and `context` in front of them.
    fn invoke<C: Context>(
        &mut self,
        index: usize,
        context: &mut C,
        arguments: &Vec<Json>,
    ) -> (result: Result<(), Error>)
        requires
            index < Self::bindings().len(),
            arguments@.len() == Self::bindings()[index as int].args,
        ensures
            ({
                let done = Self::invoked(old(self).deep_view(), index as int, views(arguments@));
                &&& final(self).deep_view() == done.0
                &&& outcome(result) == done.1
                &&& final(context).log() == noted(
                    old(context).observes(),
                    old(context).path(),
                    old(context).log(),
                    done.2,
                )
            }),
            final(context).observes() == old(context).observes(),
            final(context).path() == old(context).path(),
    ;
}

/// What a command does to a record, and what it records on the way.
///
/// A path goes into the field of that name, which carries out the rest of
/// the command one level down. `set:` replaces the record by what the value
/// is read as, and is recorded as it is written. A call goes to the callable
/// of that name, which records what it runs through the context. What the
/// record has not declared it refuses, see [`route_spec`].
pub open spec fn record_apply<R: Record>(value: R::V, command: CommandView) -> (
    R::V,
    Outcome,
    Seq<(Seq<char>, bool)>,
) {
    match route_spec(R::field_names(), R::bindings(), command) {
        Ok(RouteView::Field { index, command: inner }) => {
            let done = R::in_field(value, index, inner);
            (done.0, done.1, under(command->element, done.2))
        },
        Ok(RouteView::Assign { value: json }) => match R::decoded(json) {
            Some(new) => (new, Ok(()), concluded(command, Ok(()))),
            None => (value, Err(ErrorKind::Json), Seq::empty()),
        },
        Ok(RouteView::Call { index, arguments }) => R::invoked(value, index, arguments),
        Err(error) => (value, Err(error), Seq::empty()),
    }
}

/// Carries out a command on a record: asks the declaration where the command
/// goes, and then goes into the field under the deeper context, replaces the
/// record and records that, or invokes the callable.
pub fn dispatch<R: Record, C: Context>(
    record: &mut R,
    context: &mut C,
    command: &Command,
) -> (result: Result<(), Error>)
    ensures
        ({
            let done = record_apply::<R>(old(record).deep_view(), command@);
            &&& final(record).deep_view() == done.0
            &&& outcome(result) == done.1
            &&& final(context).log() == noted(
                old(context).observes(),
                old(context).path(),
                old(context).log(),
                done.2,
            )
        }),
        final(context).observes() == old(context).observes(),
        final(context).path() == old(context).path(),
{
    proof {
        lemma_noted_nothing(context.observes(), context.path(), context.log());
    }
    let schema = R::schema();
    match schema.route(command) {
        Ok(Route::Field { index, command: inner }) => match command {
            Command::Path { element, .. } => {
                let ghost before = record.deep_view();
                context.descend(element.as_str());
                let result = record.field_command(index, context, inner);
                context.ascend();
                proof {
                    lemma_noted_under(
                        old(context).observes(),
                        old(context).path(),
                        element@,
                        old(context).log(),
                        R::in_field(before, index as int, inner@).2,
                    );
                }
                result
            },
            _ => Err(Error::PathError),
        },
        Ok(Route::Assign { value }) => match R::from_json(value) {
            Ok(new) => {
                *record = new;
                conclude(context, command, Ok(()))
            },
            Err(error) => Err(error),
        },
        Ok(Route::Call { index, arguments }) => {
            proof {
                crate::json::lemma_views(arguments@);
            }
            record.invoke(index, context, arguments)
        },
        Err(error) => Err(error),
    }
}

/// Replacing a record is idempotent.
pub proof fn lemma_record_assign_twice<R: Record>(value: R::V, json: JsonView)
    ensures
        record_apply::<R>(
            record_apply::<R>(value, CommandView::Assign { value: json }).0,
            CommandView::Assign { value: json },
        ) == record_apply::<R>(value, CommandView::Assign { value: json }),
{
}

/// A path composes: running `field/rest` on a record is running `rest` in
/// the field of that name, and what is recorded there reads behind the name
/// of the field. The name must be one that can stand in a path.
pub proof fn lemma_path_into_field<R: Record>(value: R::V, name: Seq<char>, rest: Seq<char>)
    requires
        !name.contains('/'),
        !is_terminal(name),
        R::field_names().contains(name),
    ensures
        match parse_spec(rest) {
            Ok(command) => parse_spec(name + seq!['/'] + rest) matches Ok(whole) && ({
                let done = R::in_field(value, position(R::field_names(), name)->Some_0, command);
                record_apply::<R>(value, whole) == (done.0, done.1, under(name, done.2))
            }),
            Err(error) => parse_spec(name + seq!['/'] + rest) == Err::<CommandView, ErrorKind>(
                error,
            ),
        },
{
    lemma_path_into_record(R::field_names(), R::bindings(), name, rest);
}

} // verus!
