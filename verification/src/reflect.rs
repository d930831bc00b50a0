//! The one operation of a reflective value: carrying out a command on itself.

use vstd::prelude::*;
use crate::command::{parse_spec, Command, CommandView};
use crate::context::{noted, Context};
use crate::error::{outcome, Error, Outcome};
use crate::json::{FromJson, JsonView};

verus! {

/// What running the command that `text` denotes does to a value: the value
/// afterwards and how the command ended. A text that is no command leaves the
/// value as it is.
pub open spec fn run<R: Reflect>(value: R::V, text: Seq<char>) -> (R::V, Outcome) {
    match parse_spec(text) {
        Ok(command) => R::apply(value, command),
        Err(error) => (value, Err(error)),
    }
}

/// The entries that running the command that `text` denotes records in the
/// context, see [`Reflect::echoes`]. A text that is no command records
/// nothing.
pub open spec fn run_echoes<R: Reflect>(value: R::V, text: Seq<char>) -> Seq<(Seq<char>, bool)> {
    match parse_spec(text) {
        Ok(command) => R::echoes(value, command),
        Err(_) => Seq::empty(),
    }
}

/// Trait for executing commands.
///
/// `apply` is the meaning of every command on the deep view of a value: the
/// view afterwards, and the outcome. A command that fails part of the way may
/// leave behind what it changed before; `apply` says what.
pub trait Reflect: FromJson {
    /// The view of the value after `command`, and how the command ended.
    spec fn apply(value: Self::V, command: CommandView) -> (Self::V, Outcome);

    /// The entries that `command` records in the context while it is carried
    /// out, as they read where the value stands, in the order they are
    /// recorded. The reflector that carries out a terminal command records
    /// it, once it has succeeded, as the command is written and for
    /// broadcast; a callable records the commands that it runs through the
    /// context.
    spec fn echoes(value: Self::V, command: CommandView) -> Seq<(Seq<char>, bool)>;

    /// Replacing a value is idempotent: `set:` with the same dynamic value
    /// twice leaves what it leaves once, and ends as it ends once.
    proof fn lemma_assign_twice(value: Self::V, json: JsonView)
        ensures
            Self::apply(
                Self::apply(value, CommandView::Assign { value: json }).0,
                CommandView::Assign { value: json },
            ) == Self::apply(value, CommandView::Assign { value: json }),
    ;

    /// Executes the command on this object.
    ///
    /// The context comes back at the path it went in with; if it observes,
    /// its log has grown by what the command has recorded.
    fn command<C: Context>(&mut self, context: &mut C, command: &Command) -> (result: Result<
        (),
        Error,
    >)
        ensures
            (final(self).deep_view(), outcome(result)) == Self::apply(
                old(self).deep_view(),
                command@,
            ),
            final(context).observes() == old(context).observes(),
            final(context).path() == old(context).path(),
            final(context).log() == noted(
                old(context).observes(),
                old(context).path(),
                old(context).log(),
                Self::echoes(old(self).deep_view(), command@),
            ),
    ;

    /// Same as `command`, but with a command as text that still has to be
    /// parsed.
    fn command_str<C: Context>(&mut self, context: &mut C, command: &str) -> (result: Result<
        (),
        Error,
    >)
        ensures
            (final(self).deep_view(), outcome(result)) == match parse_spec(command@) {
                Ok(parsed) => Self::apply(old(self).deep_view(), parsed),
                Err(error) => (old(self).deep_view(), Err(error)),
            },
            final(context).observes() == old(context).observes(),
            final(context).path() == old(context).path(),
            final(context).log() == noted(
                old(context).observes(),
                old(context).path(),
                old(context).log(),
                match parse_spec(command@) {
                    Ok(parsed) => Self::echoes(old(self).deep_view(), parsed),
                    Err(_) => Seq::empty(),
                },
            ),
    {
        proof {
            crate::context::lemma_noted_nothing(context.observes(), context.path(), context.log());
        }
        match Command::parse(command) {
            Ok(parsed) => self.command(context, &parsed),
            Err(error) => Err(error),
        }
    }
}

/// Whether a reflector leaves no trace of a command that it refuses: a
/// command that fails leaves the value as it was.
pub open spec fn leaves_no_trace<R: Reflect>() -> bool {
    forall|value: R::V, command: CommandView|
        (#[trigger] R::apply(value, command)).1 is Err ==> R::apply(value, command).0 == value
}

} // verus!
