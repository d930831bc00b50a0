//! The capability that is threaded through a traversal and observes what it
//! commits.

use vstd::prelude::*;
use crate::command::{emit_spec, Command, CommandView};
use crate::error::{outcome, Error, Outcome};
use crate::reflect::{run, Reflect};

verus! {

/// The text that a path stands for in front of a command: each element
/// followed by a `/`.
pub open spec fn prefix(path: Seq<Seq<char>>) -> Seq<char>
    decreases path.len(),
{
    if path.len() == 0 {
        Seq::empty()
    } else {
        prefix(path.drop_last()) + path.last() + seq!['/']
    }
}

/// The entries of a log, as contracts see them: each a text, and whether it
/// is to reach the originator of the command as well.
pub type Entries = Seq<(Seq<char>, bool)>;

/// The entries of a log with `front` put before the text of each.
pub open spec fn at(front: Seq<char>, entries: Seq<(Seq<char>, bool)>) -> Seq<(Seq<char>, bool)> {
    Seq::new(entries.len(), |i: int| (front + entries[i].0, entries[i].1))
}

/// The entries that were recorded in the child `element`, as they read one
/// level up: behind the element and a `/`.
pub open spec fn under(element: Seq<char>, entries: Seq<(Seq<char>, bool)>) -> Seq<
    (Seq<char>, bool),
> {
    at(element + seq!['/'], entries)
}

/// The log of a context after `entries` were recorded where it stands: an
/// observing context has added each behind the prefix of its path.
pub open spec fn noted(
    observes: bool,
    path: Seq<Seq<char>>,
    log: Seq<(Seq<char>, bool)>,
    entries: Seq<(Seq<char>, bool)>,
) -> Seq<(Seq<char>, bool)> {
    if observes {
        log + at(prefix(path), entries)
    } else {
        log
    }
}

/// What is recorded one level down is recorded behind the element of that
/// level.
pub proof fn lemma_noted_under(
    observes: bool,
    path: Seq<Seq<char>>,
    element: Seq<char>,
    log: Seq<(Seq<char>, bool)>,
    entries: Seq<(Seq<char>, bool)>,
)
    ensures
        noted(observes, path.push(element), log, entries) == noted(
            observes,
            path,
            log,
            under(element, entries),
        ),
{
    let deeper = path.push(element);
    assert(deeper.drop_last() =~= path);
    assert forall|i: int| 0 <= i < entries.len() implies prefix(deeper) + entries[i].0 == prefix(
        path,
    ) + (element + seq!['/'] + entries[i].0) by {}
}

/// Nothing recorded leaves the log as it is.
pub proof fn lemma_noted_nothing(observes: bool, path: Seq<Seq<char>>, log: Seq<(Seq<char>, bool)>)
    ensures
        noted(observes, path, log, Seq::empty()) == log,
{
}

/// At the root entries read as they are.
pub proof fn lemma_at_root(entries: Seq<(Seq<char>, bool)>)
    ensures
        at(prefix(Seq::empty()), entries) == entries,
{
    assert forall|i: int| 0 <= i < entries.len() implies Seq::<char>::empty() + entries[i].0
        == entries[i].0 by {}
}

/// One entry leaves the log longer by that entry, behind the prefix of the
/// path.
pub proof fn lemma_noted_one(
    path: Seq<Seq<char>>,
    log: Seq<(Seq<char>, bool)>,
    text: Seq<char>,
    broadcast: bool,
)
    ensures
        noted(true, path, log, seq![(text, broadcast)]) == log.push(
            (prefix(path) + text, broadcast),
        ),
{
}

/// The entry that a reflector records when it has carried out a command
/// itself: a terminal command that succeeded is recorded as it is written,
/// for broadcast. A path records nothing of its own, and neither does a
/// command that failed.
pub open spec fn concluded(command: CommandView, outcome: Outcome) -> Seq<(Seq<char>, bool)> {
    if outcome is Ok && !(command is Path) {
        seq![(emit_spec(command), true)]
    } else {
        Seq::empty()
    }
}

/// Context for executing commands.
///
/// A context follows the traversal down a tree (`descend`, `ascend`) and is
/// told of each committed mutation (`record`). Its model is the path it
/// stands at and the log of what it recorded, each entry a text and whether
/// the entry is to reach the originator of the command as well. A context
/// that does not observe leaves both as they are.
pub trait Context {
    /// The elements of the path from the root to where the context stands.
    spec fn path(&self) -> Seq<Seq<char>>;

    /// The entries recorded so far, oldest first.
    spec fn log(&self) -> Seq<(Seq<char>, bool)>;

    /// Whether the context keeps track of paths and mutations at all.
    spec fn observes(&self) -> bool;

    /// Takes the context a level deeper, into the child `element`.
    fn descend(&mut self, element: &str)
        ensures
            final(self).observes() == old(self).observes(),
            final(self).log() == old(self).log(),
            final(self).path() == if old(self).observes() {
                old(self).path().push(element@)
            } else {
                old(self).path()
            },
    ;

    /// Takes the context back up one level. At the root it stays where it
    /// is.
    fn ascend(&mut self)
        ensures
            final(self).observes() == old(self).observes(),
            final(self).log() == old(self).log(),
            final(self).path() == if old(self).observes() && old(self).path().len() > 0 {
                old(self).path().drop_last()
            } else {
                old(self).path()
            },
    ;

    /// Notes that the command `text` was carried out where the context
    /// stands. An observing context logs the text behind the prefix of its
    /// path.
    fn record(&mut self, text: &str, broadcast: bool)
        ensures
            final(self).observes() == old(self).observes(),
            final(self).path() == old(self).path(),
            final(self).log() == if old(self).observes() {
                old(self).log().push((prefix(old(self).path()) + text@, broadcast))
            } else {
                old(self).log()
            },
    ;
}

/// The inert context, for when no context is needed: it observes nothing.
impl Context for () {
    open spec fn path(&self) -> Seq<Seq<char>> {
        Seq::empty()
    }

    open spec fn log(&self) -> Seq<(Seq<char>, bool)> {
        Seq::empty()
    }

    open spec fn observes(&self) -> bool {
        false
    }

    fn descend(&mut self, element: &str) {
    }

    fn ascend(&mut self) {
    }

    fn record(&mut self, text: &str, broadcast: bool) {
    }
}

/// Concludes a command that a reflector has carried out: records it in the
/// context if it is a terminal command that succeeded, and hands the result
/// on.
pub fn conclude<C: Context>(context: &mut C, command: &Command, result: Result<(), Error>) -> (end:
    Result<(), Error>)
    ensures
        end == result,
        final(context).observes() == old(context).observes(),
        final(context).path() == old(context).path(),
        final(context).log() == noted(
            old(context).observes(),
            old(context).path(),
            old(context).log(),
            concluded(command@, outcome(result)),
        ),
{
    proof {
        lemma_noted_nothing(context.observes(), context.path(), context.log());
    }
    match command {
        Command::Path { .. } => {},
        _ => {
            if result.is_ok() {
                let text = command.emit();
                proof {
                    lemma_noted_one(context.path(), context.log(), text@, true);
                }
                context.record(text.as_str(), true);
            }
        },
    }
    result
}

/// The log after a command that ended in `result` was offered to a context
/// whose log was `log` and whose path was `path`.
pub open spec fn logged(
    observes: bool,
    path: Seq<Seq<char>>,
    log: Seq<(Seq<char>, bool)>,
    text: Seq<char>,
    broadcast: bool,
    result: Outcome,
) -> Seq<(Seq<char>, bool)> {
    if observes && result is Ok {
        log.push((prefix(path) + text, broadcast))
    } else {
        log
    }
}

/// Runs the command `cmd` on `value` at once and, if it succeeds, records it
/// in `context`, to be sent to every remote, the originator included.
///
/// The command is carried out with the inert context, so exactly one entry is
/// recorded for it.
pub fn command<C: Context, R: Reflect>(context: &mut C, value: &mut R, cmd: &str) -> (result:
    Result<(), Error>)
    ensures
        (final(value).deep_view(), outcome(result)) == run::<R>(old(value).deep_view(), cmd@),
        final(context).observes() == old(context).observes(),
        final(context).path() == old(context).path(),
        final(context).log() == logged(
            old(context).observes(),
            old(context).path(),
            old(context).log(),
            cmd@,
            true,
            outcome(result),
        ),
{
    let mut inert = ();
    match value.command_str(&mut inert, cmd) {
        Ok(()) => {
            context.record(cmd, true);
            Ok(())
        },
        Err(error) => Err(error),
    }
}

/// Same as [`command`], but the recorded entry is not sent to the remote that
/// the command came from.
pub fn local_command<C: Context, R: Reflect>(context: &mut C, value: &mut R, cmd: &str) -> (result:
    Result<(), Error>)
    ensures
        (final(value).deep_view(), outcome(result)) == run::<R>(old(value).deep_view(), cmd@),
        final(context).observes() == old(context).observes(),
        final(context).path() == old(context).path(),
        final(context).log() == logged(
            old(context).observes(),
            old(context).path(),
            old(context).log(),
            cmd@,
            false,
            outcome(result),
        ),
{
    let mut inert = ();
    match value.command_str(&mut inert, cmd) {
        Ok(()) => {
            context.record(cmd, false);
            Ok(())
        },
        Err(error) => Err(error),
    }
}

} // verus!
