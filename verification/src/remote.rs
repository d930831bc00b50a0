//! The transport: a duplex channel of text messages that never blocks.

use vstd::prelude::*;
use crate::error::Error;
use std::sync::mpsc::Receiver;

verus! {

broadcast use vstd::seq::group_seq_axioms;

/// The receiving end of a channel, on which an acceptor hands new transports
/// to a server.
#[verifier::external_type_specification]
#[verifier::external_body]
#[verifier::reject_recursive_types(T)]
pub struct ExReceiver<T>(Receiver<T>);

/// Takes what is waiting on a channel right now, in the order it arrived,
/// without blocking (`std::sync::mpsc::Receiver::try_iter`). What arrives is
/// up to the sender, so nothing is claimed of it.
#[verifier::external_body]
pub(crate) fn arrivals<R>(listener: &Receiver<R>) -> Vec<R> {
    listener.try_iter().collect()
}

/// Trait for communication with remote nodes.
///
/// The model of a remote is what it holds at the moment: the messages that
/// have arrived and wait to be received, the messages that were accepted for
/// sending, and whether the connection is alive. What has arrived stays
/// until it is received, whether the connection is closed meanwhile or not:
/// a server counts on finding at each client what waited there when its
/// tick began.
pub trait Remote {
    /// The messages that have arrived and were not received yet, oldest
    /// first.
    spec fn inbox(&self) -> Seq<Seq<char>>;

    /// The messages accepted for sending so far, oldest first.
    spec fn outbox(&self) -> Seq<Seq<char>>;

    /// Whether the connection is alive.
    spec fn open(&self) -> bool;

    /// Closes the connection to the remote node. What has arrived or was
    /// sent stays as it is.
    fn close(&mut self)
        ensures
            !final(self).open(),
            final(self).inbox() == old(self).inbox(),
            final(self).outbox() == old(self).outbox(),
    ;

    /// Returns whether the connection to the remote node is still alive.
    fn alive(&self) -> (alive: bool)
        ensures
            alive == self.open(),
    ;

    /// Sends a message to the remote node. A message is accepted whole or
    /// not at all, and a closed connection stays closed.
    fn send(&mut self, message: &str) -> (result: Result<(), Error>)
        ensures
            final(self).inbox() == old(self).inbox(),
            final(self).open() ==> old(self).open(),
            final(self).outbox() == if result is Ok {
                old(self).outbox().push(message@)
            } else {
                old(self).outbox()
            },
    ;

    /// Tries to receive a message from the remote node: the oldest one that
    /// waits, or `None` if none does. This function never blocks.
    fn recv(&mut self) -> (message: Option<String>)
        ensures
            final(self).outbox() == old(self).outbox(),
            final(self).open() ==> old(self).open(),
            match message {
                Some(text) => old(self).inbox().len() > 0 && text@ == old(self).inbox()[0]
                    && final(self).inbox() == old(self).inbox().skip(1),
                None => old(self).inbox().len() == 0 && final(self).inbox() == old(self).inbox(),
            },
    ;

    /// Returns an iterator over the available messages. When there are no
    /// more messages available at this time the iterator yields `None`.
    fn iter(&mut self) -> (iter: Iter<'_, Self>) where Self: Sized
        ensures
            *iter.0 == *old(self),
            *final(iter.0) == *final(self),
    {
        Iter(self)
    }
}

/// Iterates over the available messages from a remote node.
pub struct Iter<'a, R: Remote>(pub &'a mut R);

impl<'a, R: Remote> Iter<'a, R> {
    /// The next message that waits, if any.
    pub fn next(&mut self) -> (message: Option<String>)
        ensures
            final(self).0.outbox() == old(self).0.outbox(),
            match message {
                Some(text) => old(self).0.inbox().len() > 0 && text@ == old(self).0.inbox()[0]
                    && final(self).0.inbox() == old(self).0.inbox().skip(1),
                None => old(self).0.inbox().len() == 0
                    && final(self).0.inbox() == old(self).0.inbox(),
            },
    {
        self.0.recv()
    }
}

/// The texts of the entries of a log that are due to a transport: all of
/// them, but for the transport a command came from, to which only the
/// entries marked for broadcast go.
pub open spec fn due(entries: Seq<(Seq<char>, bool)>, origin: bool) -> Seq<Seq<char>>
    decreases entries.len(),
{
    if entries.len() == 0 {
        Seq::empty()
    } else if entries.last().1 || !origin {
        due(entries.drop_last(), origin).push(entries.last().0)
    } else {
        due(entries.drop_last(), origin)
    }
}

/// The texts of the entries of a log.
pub open spec fn texts(entries: Seq<(Seq<char>, bool)>) -> Seq<Seq<char>> {
    Seq::new(entries.len(), |i: int| entries[i].0)
}

/// To a transport that a command did not come from, every entry is due.
pub proof fn lemma_due_to_others(entries: Seq<(Seq<char>, bool)>)
    ensures
        due(entries, false) == texts(entries),
    decreases entries.len(),
{
    if entries.len() > 0 {
        lemma_due_to_others(entries.drop_last());
    }
}

/// What a transport has taken of `texts`: the leading ones, in order, and
/// all of them if it is alive afterwards; a transport that is alive
/// afterwards was alive before.
pub open spec fn handed<R: Remote>(before: R, after: R, texts: Seq<Seq<char>>) -> bool {
    let count = after.outbox().len() - before.outbox().len();
    &&& 0 <= count <= texts.len()
    &&& after.outbox() == before.outbox() + texts.take(count)
    &&& after.open() ==> before.open() && count == texts.len()
}

/// What sending `texts` to a transport leaves behind: what waits at it is
/// as it was, it has taken the leading ones of the texts and all of them if
/// it is alive afterwards, and with nothing to send it is as it was.
pub open spec fn sent<R: Remote>(before: R, after: R, texts: Seq<Seq<char>>) -> bool {
    &&& after.inbox() == before.inbox()
    &&& handed(before, after, texts)
    &&& texts.len() == 0 ==> after == before
}

/// What sending `texts` to every transport of a list leaves behind.
pub open spec fn sent_to_all<R: Remote>(
    before: Seq<R>,
    after: Seq<R>,
    texts: Seq<Seq<char>>,
) -> bool {
    &&& after.len() == before.len()
    &&& forall|j: int| 0 <= j < before.len() ==> sent(before[j], #[trigger] after[j], texts)
}

/// Sending nothing leaves every transport as it is.
pub proof fn lemma_sent_nothing<R: Remote>(remotes: Seq<R>)
    ensures
        sent_to_all(remotes, remotes, Seq::empty()),
{
    assert forall|j: int| 0 <= j < remotes.len() implies sent(
        remotes[j],
        #[trigger] remotes[j],
        Seq::empty(),
    ) by {}
}

/// The entries that are due from the leading entries of a log are the
/// leading ones of those that are due from the log.
pub proof fn lemma_due_prefix(entries: Seq<(Seq<char>, bool)>, origin: bool, upto: int)
    requires
        0 <= upto <= entries.len(),
    ensures
        due(entries.take(upto), origin).is_prefix_of(due(entries, origin)),
    decreases entries.len() - upto,
{
    if upto < entries.len() {
        lemma_due_prefix(entries, origin, upto + 1);
        assert(entries.take(upto + 1).drop_last() =~= entries.take(upto));
    } else {
        assert(entries.take(upto) =~= entries);
    }
}

/// Settles what follows from one attempt to send: a transport that took
/// the message is left as it is, one that did not is closed. Returns whether
/// sending goes on.
pub fn pass<R: Remote>(remote: &mut R, sent: Result<(), Error>) -> (taken: bool)
    ensures
        taken == sent is Ok,
        final(remote).inbox() == old(remote).inbox(),
        final(remote).outbox() == old(remote).outbox(),
        if sent is Ok {
            *final(remote) == *old(remote)
        } else {
            !final(remote).open()
        },
{
    match sent {
        Ok(()) => true,
        Err(_) => {
            remote.close();
            false
        },
    }
}

/// Sends the entries of a log that are due to a transport, oldest first.
/// The first message that the transport does not take closes it, and nothing
/// more is sent to it: what it has taken is the leading ones of the messages
/// that were due, and all of them if it is still alive.
pub fn deliver<R: Remote>(remote: &mut R, entries: &Vec<(String, bool)>, origin: bool)
    ensures
        sent(*old(remote), *final(remote), due(entries.deep_view(), origin)),
{
    let ghost log = entries.deep_view();
    let mut i: usize = 0;
    while i < entries.len()
        invariant
            i <= entries.len(),
            log == entries.deep_view(),
            remote.inbox() == old(remote).inbox(),
            remote.open() ==> old(remote).open(),
            remote.outbox() == old(remote).outbox() + due(log.take(i as int), origin),
            due(log.take(i as int), origin).len() == 0 ==> *remote == *old(remote),
        decreases entries.len() - i,
    {
        proof {
            assert(log.take(i + 1).drop_last() =~= log.take(i as int));
            lemma_due_prefix(log, origin, i as int);
        }
        if entries[i].1 || !origin {
            let attempt = remote.send(entries[i].0.as_str());
            if !pass(remote, attempt) {
                proof {
                    lemma_due_prefix(log, origin, i + 1);
                }
                return ;
            }
        }
        i += 1;
    }
    assert(log.take(i as int) =~= log);
    assert(due(log, origin).take(due(log, origin).len() as int) =~= due(log, origin));
}

} // verus!
