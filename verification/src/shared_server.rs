//! One authoritative value, mirrored to every connected remote.

use vstd::prelude::*;
use crate::context::{lemma_at_root, Context};
use crate::error::{outcome, Error};
use crate::json::{json_text, ToJson};
use crate::reflect::{run, run_echoes, Reflect};
use crate::remote::{
    arrivals, deliver, due, handed, lemma_due_to_others, lemma_sent_nothing, sent, sent_to_all,
    texts, Remote,
};
use crate::reply::Reply;
use std::sync::mpsc::Receiver;

verus! {

broadcast use vstd::seq::group_seq_axioms;

/// What serving the messages that wait at one client does: the value
/// afterwards, the log of what the messages have recorded on their way, the
/// number of messages that were taken, and whether serving stopped at a
/// message that failed. Messages are run in order under a context that
/// gathers what they record; the first one that fails ends the round, and
/// what it changed and recorded before it failed stays.
pub open spec fn served<T: Reflect>(value: T::V, inbox: Seq<Seq<char>>) -> (
    T::V,
    Seq<(Seq<char>, bool)>,
    int,
    bool,
)
    decreases inbox.len(),
{
    if inbox.len() == 0 {
        (value, Seq::empty(), 0, false)
    } else {
        let (next, outcome) = run::<T>(value, inbox[0]);
        let recorded = run_echoes::<T>(value, inbox[0]);
        if outcome is Ok {
            let rest = served::<T>(next, inbox.skip(1));
            (rest.0, recorded + rest.1, rest.2 + 1, rest.3)
        } else {
            (next, recorded, 1, true)
        }
    }
}

/// What a transport looks like after it was sent the text of the value on
/// joining.
pub open spec fn welcomed<R: Remote>(arrival: R, joined: R, text: Seq<char>) -> bool {
    &&& joined.inbox() == arrival.inbox()
    &&& joined.outbox() == arrival.outbox().push(text)
    &&& joined.open() ==> arrival.open()
}

/// Whether `joined` are the transports among `arrivals` that took the text
/// of the value, in the order they arrived and each as it is after taking
/// the text.
pub open spec fn admitted<R: Remote>(arrivals: Seq<R>, joined: Seq<R>, text: Seq<char>) -> bool
    decreases arrivals.len(),
{
    if arrivals.len() == 0 {
        joined.len() == 0
    } else {
        ||| admitted(arrivals.drop_last(), joined, text)
        ||| (joined.len() > 0 && welcomed(arrivals.last(), joined.last(), text) && admitted(
            arrivals.drop_last(),
            joined.drop_last(),
            text,
        ))
    }
}

/// The messages that wait at each of a list of transports.
pub open spec fn inboxes<R: Remote>(remotes: Seq<R>) -> Seq<Seq<Seq<char>>> {
    Seq::new(remotes.len(), |j: int| remotes[j].inbox())
}

/// What serving every client in turn does to a value.
pub open spec fn processed<T: Reflect>(value: T::V, inboxes: Seq<Seq<Seq<char>>>) -> T::V
    decreases inboxes.len(),
{
    if inboxes.len() == 0 {
        value
    } else {
        served::<T>(processed::<T>(value, inboxes.drop_last()), inboxes.last()).0
    }
}

/// The round of serving the client at `index` within a round over all
/// clients: its log, the number of messages taken from it, and whether it
/// failed.
pub open spec fn round_of<T: Reflect>(
    value: T::V,
    inboxes: Seq<Seq<Seq<char>>>,
    index: int,
) -> (Seq<(Seq<char>, bool)>, int, bool) {
    let round = served::<T>(processed::<T>(value, inboxes.take(index)), inboxes[index]);
    (round.1, round.2, round.3)
}

/// The texts that the transport at `index` is owed when every client is
/// served in turn: of the log of each round, in the order of the rounds, the
/// entries that are due to it, which are all entries of the rounds of the
/// others and the entries marked for broadcast of its own.
pub open spec fn owed<T: Reflect>(value: T::V, inboxes: Seq<Seq<Seq<char>>>, index: int) -> Seq<
    Seq<char>,
>
    decreases inboxes.len(),
{
    if inboxes.len() == 0 {
        Seq::empty()
    } else {
        let before = inboxes.drop_last();
        owed::<T>(value, before, index) + due(
            served::<T>(processed::<T>(value, before), inboxes.last()).1,
            index == before.len(),
        )
    }
}

/// What serving every client in turn does to the transports: a transport
/// that is alive afterwards was alive before and was sent all that it was
/// owed, in order; each transport has lost the messages that were taken from
/// it, and one whose round failed is closed.
pub open spec fn served_all<T: Reflect, R: Remote>(
    state: T::V,
    before: Seq<R>,
    after: Seq<R>,
) -> bool {
    let waiting = inboxes(before);
    &&& after.len() == before.len()
    &&& forall|j: int|
        0 <= j < before.len() ==> {
            let round = round_of::<T>(state, waiting, j);
            &&& (#[trigger] after[j]).open() ==> before[j].open()
            &&& after[j].open() ==> after[j].outbox() == before[j].outbox() + owed::<T>(
                state,
                waiting,
                j,
            )
            &&& after[j].inbox() == before[j].inbox().skip(round.1)
            &&& round.2 ==> !after[j].open()
        }
}

/// What one tick of the server does, given the transports `joined` that
/// were let in and the transports `served` as they are after every client
/// was served: the new clients are let in, every client is served in turn,
/// and the clients that are not alive are dropped.
pub open spec fn ticked<T: Reflect + ToJson, R: Remote>(
    state: T::V,
    remotes: Seq<R>,
    arrivals: Seq<R>,
    joined: Seq<R>,
    served: Seq<R>,
    state_after: T::V,
    remotes_after: Seq<R>,
) -> bool {
    &&& admitted(arrivals, joined, json_text(T::encoded(state)))
    &&& state_after == processed::<T>(state, inboxes(remotes + joined))
    &&& served_all::<T, R>(state, remotes + joined, served)
    &&& remotes_after == alive_ones(served)
}

/// Every transport that is kept is alive.
pub proof fn lemma_alive_ones<R: Remote>(remotes: Seq<R>)
    ensures
        forall|j: int|
            0 <= j < alive_ones(remotes).len() ==> (#[trigger] alive_ones(remotes)[j]).open(),
        alive_ones(remotes).len() <= remotes.len(),
    decreases remotes.len(),
{
    if remotes.len() > 0 {
        lemma_alive_ones(remotes.drop_last());
    }
}

/// The transports of a list that are alive, in their order.
pub open spec fn alive_ones<R: Remote>(remotes: Seq<R>) -> Seq<R>
    decreases remotes.len(),
{
    if remotes.len() == 0 {
        Seq::empty()
    } else if remotes.last().open() {
        alive_ones(remotes.drop_last()).push(remotes.last())
    } else {
        alive_ones(remotes.drop_last())
    }
}

/// Takes the messages that wait at a transport one by one and runs each on
/// `value` under a context that gathers what the message records, until none
/// is left or one fails. Returns the log of the round and whether it ended
/// in a failure.
pub fn receive<T: Reflect, R: Remote>(value: &mut T, remote: &mut R) -> (round: (
    Vec<(String, bool)>,
    bool,
))
    ensures
        ({
            let all = served::<T>(old(value).deep_view(), old(remote).inbox());
            &&& final(value).deep_view() == all.0
            &&& round.0.deep_view() == all.1
            &&& round.1 == all.3
            &&& final(remote).inbox() == old(remote).inbox().skip(all.2)
            &&& final(remote).outbox() == old(remote).outbox()
            &&& final(remote).open() ==> old(remote).open()
        }),
{
    let mut reply = Reply::new(Vec::new());
    let ghost start = old(value).deep_view();
    let ghost inbox = old(remote).inbox();
    let ghost mut log: Seq<(Seq<char>, bool)> = Seq::empty();
    let ghost mut count: int = 0;
    loop
        invariant
            start == old(value).deep_view(),
            inbox == old(remote).inbox(),
            reply.observes(),
            reply.elements() == Seq::<Seq<char>>::empty(),
            reply.messages() == log,
            0 <= count <= inbox.len(),
            remote.inbox() == inbox.skip(count),
            remote.outbox() == old(remote).outbox(),
            remote.open() ==> old(remote).open(),
            ({
                let rest = served::<T>(value.deep_view(), remote.inbox());
                served::<T>(start, inbox) == (rest.0, log + rest.1, count + rest.2, rest.3)
            }),
        decreases remote.inbox().len(),
    {
        let ghost before = value.deep_view();
        match remote.recv() {
            None => {
                return (reply.into_inner(), false);
            },
            Some(message) => {
                let ghost recorded = run_echoes::<T>(before, message@);
                proof {
                    lemma_at_root(recorded);
                }
                let result = value.command_str(&mut reply, message.as_str());
                proof {
                    log = log + recorded;
                    count = count + 1;
                }
                if result.is_err() {
                    return (reply.into_inner(), true);
                }
            },
        }
    }
}

/// A server that holds one value and keeps the replica of every client in
/// step with it: what a command of one client has recorded on the value is
/// passed on to all clients.
#[verifier::reject_recursive_types(R)]
pub struct SharedServer<T: Reflect + ToJson, R: Remote> {
    value: T,
    listener: Receiver<R>,
    clients: Vec<R>,
}

/// A server reads as the value that it holds.
impl<T: Reflect + ToJson, R: Remote> core::ops::Deref for SharedServer<T, R> {
    type Target = T;

    fn deref(&self) -> (value: &T)
        ensures
            value.deep_view() == self.state(),
    {
        &self.value
    }
}

impl<T: Reflect + ToJson, R: Remote> SharedServer<T, R> {
    /// The view of the value that the server holds.
    pub closed spec fn state(&self) -> T::V {
        self.value.deep_view()
    }

    /// The transports of the connected clients, in the order they joined.
    pub closed spec fn remotes(&self) -> Seq<R> {
        self.clients@
    }

    /// Creates a server for `value` that has no clients yet and finds new
    /// ones on `listener`.
    pub fn new(value: T, listener: Receiver<R>) -> (server: Self)
        ensures
            server.state() == value.deep_view(),
            server.remotes() == Seq::<R>::empty(),
    {
        SharedServer { value, listener, clients: Vec::new() }
    }

    /// The number of connected clients.
    pub fn clients(&self) -> (count: usize)
        ensures
            count == self.remotes().len(),
    {
        self.clients.len()
    }

    /// Sends the entries of a log to every client: to the client at `origin`
    /// only those marked for broadcast, to the others all of them. A client
    /// that does not take a message is closed.
    pub fn broadcast(&mut self, entries: &Vec<(String, bool)>, origin: usize)
        ensures
            final(self).state() == old(self).state(),
            final(self).remotes().len() == old(self).remotes().len(),
            forall|j: int|
                0 <= j < old(self).remotes().len() ==> sent(
                    old(self).remotes()[j],
                    #[trigger] final(self).remotes()[j],
                    due(entries.deep_view(), j == origin),
                ),
    {
        let mut j: usize = 0;
        while j < self.clients.len()
            invariant
                j <= self.clients.len(),
                self.value == old(self).value,
                self.clients.len() == old(self).clients.len(),
                forall|k: int|
                    0 <= k < j ==> sent(
                        old(self).clients@[k],
                        #[trigger] self.clients@[k],
                        due(entries.deep_view(), k == origin),
                    ),
                forall|k: int|
                    j <= k < self.clients.len() ==> self.clients@[k] == old(self).clients@[k],
            decreases self.clients.len() - j,
        {
            deliver(&mut self.clients[j], entries, j == origin);
            j += 1;
        }
    }

    /// Lets a new client in: sends it the value as JSON text and keeps it if
    /// it took the text. Returns whether the client was kept, which is up to
    /// the transport; [`SharedServer::retain`] says what follows from what
    /// sending gave.
    pub fn join(&mut self, remote: R) -> (joined: bool)
        ensures
            final(self).state() == old(self).state(),
            if joined {
                &&& final(self).remotes().len() == old(self).remotes().len() + 1
                &&& final(self).remotes().drop_last() == old(self).remotes()
                &&& welcomed(
                    remote,
                    final(self).remotes().last(),
                    json_text(T::encoded(old(self).state())),
                )
            } else {
                final(self).remotes() == old(self).remotes()
            },
    {
        let mut remote = remote;
        let text = self.value.to_json().to_text();
        let sent = remote.send(text.as_str());
        self.retain(remote, sent)
    }

    /// Settles whether a new client stays, given what sending it the value
    /// gave: the client is kept, behind the others, if and only if it took
    /// the text.
    pub fn retain(&mut self, remote: R, sent: Result<(), Error>) -> (joined: bool)
        ensures
            joined == sent is Ok,
            final(self).state() == old(self).state(),
            final(self).remotes() == if sent is Ok {
                old(self).remotes().push(remote)
            } else {
                old(self).remotes()
            },
    {
        match sent {
            Ok(()) => {
                self.clients.push(remote);
                true
            },
            Err(_) => false,
        }
    }

    /// Lets in the new clients in the order they arrived.
    pub fn accept(&mut self, arrivals: Vec<R>)
        ensures
            final(self).state() == old(self).state(),
            final(self).remotes().len() >= old(self).remotes().len(),
            final(self).remotes().take(old(self).remotes().len() as int) == old(self).remotes(),
            admitted(
                arrivals@,
                final(self).remotes().skip(old(self).remotes().len() as int),
                json_text(T::encoded(old(self).state())),
            ),
    {
        let ghost text = json_text(T::encoded(self.state()));
        let ghost count = self.clients@.len() as int;
        for remote in iter: arrivals
            invariant
                iter.seq() == arrivals@,
                text == json_text(T::encoded(self.state())),
                count == old(self).clients@.len(),
                self.state() == old(self).state(),
                self.clients@.len() >= count,
                self.clients@.take(count) == old(self).clients@,
                admitted(arrivals@.take(iter.index() as int), self.clients@.skip(count), text),
        {
            let ghost before = self.clients@;
            let ghost seen = arrivals@.take(iter.index() as int);
            let ghost next = arrivals@.take(iter.index() + 1);
            proof {
                assert(next.drop_last() =~= seen);
            }
            if self.join(remote) {
                proof {
                    assert(self.clients@.skip(count).drop_last() =~= before.skip(count));
                }
            }
        }
        assert(arrivals@.take(arrivals@.len() as int) =~= arrivals@);
    }

    /// Serves one client: runs the messages that wait at it until one fails,
    /// sends every client what the messages have recorded and is due to it,
    /// and closes the client if a
    /// message failed.
    fn serve(&mut self, client: usize)
        requires
            client < old(self).remotes().len(),
        ensures
            ({
                let round = served::<T>(
                    old(self).state(),
                    old(self).remotes()[client as int].inbox(),
                );
                &&& final(self).state() == round.0
                &&& final(self).remotes().len() == old(self).remotes().len()
                &&& forall|j: int|
                    0 <= j < old(self).remotes().len() ==> {
                        let before = old(self).remotes()[j];
                        let after = #[trigger] final(self).remotes()[j];
                        &&& handed(before, after, due(round.1, j == client))
                        &&& j != client ==> after.inbox() == before.inbox()
                    }
                &&& final(self).remotes()[client as int].inbox()
                    == old(self).remotes()[client as int].inbox().skip(round.2)
                &&& round.3 ==> !final(self).remotes()[client as int].open()
            }),
    {
        let (entries, failed) = receive(&mut self.value, &mut self.clients[client]);
        self.broadcast(&entries, client);
        if failed {
            self.clients[client].close();
        }
    }

    /// Serves every client in turn, in the order they joined.
    pub fn process(&mut self)
        ensures
            final(self).state() == processed::<T>(
                old(self).state(),
                inboxes(old(self).remotes()),
            ),
            served_all::<T, R>(old(self).state(), old(self).remotes(), final(self).remotes()),
    {
        let ghost start = self.state();
        let ghost first = self.clients@;
        let ghost waiting = inboxes(self.clients@);
        let mut i: usize = 0;
        proof {
            assert forall|j: int| 0 <= j < first.len() implies (#[trigger] first[j]).outbox()
                == first[j].outbox() + owed::<T>(start, waiting.take(0), j) by {}
        }
        while i < self.clients.len()
            invariant
                i <= self.clients.len(),
                start == old(self).state(),
                first == old(self).clients@,
                waiting == inboxes(first),
                self.clients@.len() == first.len(),
                self.state() == processed::<T>(start, waiting.take(i as int)),
                forall|j: int|
                    0 <= j < first.len() ==> {
                        let after = #[trigger] self.clients@[j];
                        &&& after.open() ==> first[j].open()
                        &&& after.open() ==> after.outbox() == first[j].outbox() + owed::<T>(
                            start,
                            waiting.take(i as int),
                            j,
                        )
                    },
                forall|j: int|
                    0 <= j < i ==> {
                        let after = #[trigger] self.clients@[j];
                        let round = round_of::<T>(start, waiting, j);
                        &&& after.inbox() == first[j].inbox().skip(round.1)
                        &&& round.2 ==> !after.open()
                    },
                forall|j: int|
                    i <= j < first.len() ==> (#[trigger] self.clients@[j]).inbox()
                        == first[j].inbox(),
            decreases self.clients.len() - i,
        {
            let ghost done = processed::<T>(start, waiting.take(i as int));
            let ghost round = served::<T>(done, waiting[i as int]);
            proof {
                assert(waiting.take(i + 1).drop_last() =~= waiting.take(i as int));
            }
            self.serve(i);
            proof {
                assert forall|j: int| 0 <= j < first.len() implies {
                    let after = #[trigger] self.clients@[j];
                    &&& after.open() ==> first[j].open()
                    &&& after.open() ==> after.outbox() == first[j].outbox() + owed::<T>(
                        start,
                        waiting.take(i + 1),
                        j,
                    )
                } by {
                    let after = self.clients@[j];
                }
                assert forall|j: int| 0 <= j < i + 1 implies {
                    let after = #[trigger] self.clients@[j];
                    let round = round_of::<T>(start, waiting, j);
                    &&& after.inbox() == first[j].inbox().skip(round.1)
                    &&& round.2 ==> !after.open()
                } by {}
            }
            i += 1;
        }
        assert(waiting.take(i as int) =~= waiting);
    }

    /// One tick of the server for the transports that have arrived since the
    /// last one: lets them in, serves every client in turn, and drops the
    /// clients that are not alive.
    pub fn tick(&mut self, arrivals: Vec<R>)
        ensures
            exists|joined: Seq<R>, served: Seq<R>| #[trigger]
                ticked::<T, R>(
                    old(self).state(),
                    old(self).remotes(),
                    arrivals@,
                    joined,
                    served,
                    final(self).state(),
                    final(self).remotes(),
                ),
            forall|j: int|
                0 <= j < final(self).remotes().len() ==> (#[trigger] final(self).remotes()[j])
                    .open(),
    {
        let ghost count = self.clients@.len() as int;
        self.accept(arrivals);
        let ghost present = self.clients@;
        proof {
            assert(present =~= old(self).clients@ + present.skip(count));
        }
        self.process();
        let ghost served = self.clients@;
        self.reap();
        proof {
            lemma_alive_ones(served);
            assert(ticked::<T, R>(
                old(self).state(),
                old(self).remotes(),
                arrivals@,
                present.skip(count),
                served,
                self.state(),
                self.remotes(),
            ));
        }
    }

    /// One tick of the server: takes the transports that wait on the
    /// listener and runs [`SharedServer::tick`] for them. Which transports
    /// wait there is up to the acceptor.
    pub fn update(&mut self)
        ensures
            exists|arrivals: Seq<R>, joined: Seq<R>, served: Seq<R>| #[trigger]
                ticked::<T, R>(
                    old(self).state(),
                    old(self).remotes(),
                    arrivals,
                    joined,
                    served,
                    final(self).state(),
                    final(self).remotes(),
                ),
            forall|j: int|
                0 <= j < final(self).remotes().len() ==> (#[trigger] final(self).remotes()[j])
                    .open(),
    {
        let waiting = arrivals(&self.listener);
        self.tick(waiting);
    }

    /// Drops the clients whose connection is not alive.
    pub fn reap(&mut self)
        ensures
            final(self).state() == old(self).state(),
            final(self).remotes() == alive_ones(old(self).remotes()),
    {
        let ghost first = self.clients@;
        let mut i: usize = 0;
        let ghost mut seen: int = 0;
        while i < self.clients.len()
            invariant
                first == old(self).clients@,
                self.value == old(self).value,
                i <= self.clients.len(),
                0 <= seen <= first.len(),
                first.len() - seen == self.clients@.len() - i,
                self.clients@.take(i as int) == alive_ones(first.take(seen)),
                self.clients@.skip(i as int) == first.skip(seen),
            decreases self.clients.len() - i,
        {
            proof {
                assert(first.take(seen + 1).drop_last() =~= first.take(seen));
                assert(first[seen] == first.skip(seen)[0]);
            }
            if self.clients[i].alive() {
                proof {
                    assert(first.skip(seen + 1) =~= first.skip(seen).skip(1));
                }
                i += 1;
            } else {
                self.clients.remove(i);
                proof {
                    assert(first.skip(seen + 1) =~= first.skip(seen).skip(1));
                }
            }
            proof {
                seen = seen + 1;
            }
        }
        proof {
            assert(first.take(seen) =~= first);
        }
    }

    /// Runs a command on the value of the server, and if it succeeds sends
    /// its text to every client.
    pub fn command(&mut self, cmd: &str) -> (result: Result<(), Error>)
        ensures
            (final(self).state(), outcome(result)) == run::<T>(old(self).state(), cmd@),
            sent_to_all(
                old(self).remotes(),
                final(self).remotes(),
                if result is Ok {
                    seq![cmd@]
                } else {
                    Seq::empty()
                },
            ),
            result is Err ==> final(self).remotes() == old(self).remotes(),
    {
        let mut inert = ();
        match self.value.command_str(&mut inert, cmd) {
            Ok(()) => {
                let mut entries: Vec<(String, bool)> = Vec::new();
                entries.push((cmd.to_owned(), true));
                proof {
                    let log = entries.deep_view();
                    assert(due(log.drop_last(), false) =~= Seq::<Seq<char>>::empty());
                }
                let count = self.clients.len();
                self.broadcast(&entries, count);
                Ok(())
            },
            Err(error) => {
                proof {
                    lemma_sent_nothing(self.remotes());
                }
                Err(error)
            },
        }
    }

    /// Runs a command on the value of the server with a context that gathers
    /// what the command has recorded, and if the command succeeds sends what
    /// was gathered, not the command itself, to every client. After a command
    /// that failed nothing is sent.
    pub fn local_command(&mut self, cmd: &str) -> (result: Result<(), Error>)
        ensures
            (final(self).state(), outcome(result)) == run::<T>(old(self).state(), cmd@),
            sent_to_all(
                old(self).remotes(),
                final(self).remotes(),
                if result is Ok {
                    texts(run_echoes::<T>(old(self).state(), cmd@))
                } else {
                    Seq::empty()
                },
            ),
            result is Err ==> final(self).remotes() == old(self).remotes(),
    {
        let mut reply = Reply::new(Vec::new());
        match self.value.command_str(&mut reply, cmd) {
            Ok(()) => {
                let entries = reply.into_inner();
                proof {
                    let recorded = run_echoes::<T>(old(self).state(), cmd@);
                    assert forall|i: int| 0 <= i < recorded.len() implies Seq::<char>::empty()
                        + recorded[i].0 == recorded[i].0 by {}
                    assert(entries.deep_view() =~= recorded);
                    lemma_due_to_others(recorded);
                }
                let count = self.clients.len();
                self.broadcast(&entries, count);
                Ok(())
            },
            Err(error) => {
                proof {
                    lemma_sent_nothing(self.remotes());
                }
                Err(error)
            },
        }
    }
}

/// What running texts one after the other on a replica, under the inert
/// context, does: the replica afterwards, and whether every one of them was
/// accepted.
pub open spec fn replayed<T: Reflect>(value: T::V, texts: Seq<Seq<char>>) -> (T::V, bool)
    decreases texts.len(),
{
    if texts.len() == 0 {
        (value, true)
    } else {
        let (next, outcome) = run::<T>(value, texts[0]);
        let rest = replayed::<T>(next, texts.skip(1));
        (rest.0, outcome is Ok && rest.1)
    }
}

/// Whether what a value records is faithful to what it does: whatever the
/// command, running the texts that it has recorded on a replica that is what
/// the value was leaves the replica as the command left the value, and every
/// one of the texts is accepted.
pub open spec fn faithful<T: Reflect>() -> bool {
    forall|value: T::V, text: Seq<char>|
        replayed::<T>(value, texts(#[trigger] run_echoes::<T>(value, text))) == (
            run::<T>(value, text).0,
            true,
        )
}

/// Running texts and then more texts is running them all.
pub proof fn lemma_replayed_more<T: Reflect>(
    value: T::V,
    first: Seq<Seq<char>>,
    second: Seq<Seq<char>>,
)
    ensures
        ({
            let before = replayed::<T>(value, first);
            let after = replayed::<T>(before.0, second);
            replayed::<T>(value, first + second) == (after.0, before.1 && after.1)
        }),
    decreases first.len(),
{
    if first.len() > 0 {
        let next = run::<T>(value, first[0]).0;
        lemma_replayed_more::<T>(next, first.skip(1), second);
        assert((first + second).skip(1) =~= first.skip(1) + second);
    }
}

/// The texts of two logs, one behind the other.
pub proof fn lemma_texts_of_both(first: Seq<(Seq<char>, bool)>, second: Seq<(Seq<char>, bool)>)
    ensures
        texts(first + second) == texts(first) + texts(second),
{
}

/// Replaying the log of a round on a replica that is what the value was
/// leaves it as the round left the value, if what the value records is
/// faithful.
pub proof fn lemma_replay_round<T: Reflect>(value: T::V, inbox: Seq<Seq<char>>)
    requires
        faithful::<T>(),
    ensures
        replayed::<T>(value, texts(served::<T>(value, inbox).1)) == (
            served::<T>(value, inbox).0,
            true,
        ),
    decreases inbox.len(),
{
    if inbox.len() > 0 {
        let (next, outcome) = run::<T>(value, inbox[0]);
        let recorded = run_echoes::<T>(value, inbox[0]);
        if outcome is Ok {
            let rest = served::<T>(next, inbox.skip(1));
            lemma_replay_round::<T>(next, inbox.skip(1));
            lemma_texts_of_both(recorded, rest.1);
            lemma_replayed_more::<T>(value, texts(recorded), texts(rest.1));
        }
    }
}

/// A replica follows the server: a replica that holds what the server held
/// before a round over all clients, and runs the texts that a client which
/// sent nothing itself is owed in that round, accepts every one of them and
/// arrives at what the server holds afterwards. This holds where what the
/// value records is faithful to what it does.
pub proof fn lemma_replica_follows<T: Reflect>(
    value: T::V,
    inboxes: Seq<Seq<Seq<char>>>,
    index: int,
)
    requires
        faithful::<T>(),
        0 <= index < inboxes.len() ==> inboxes[index].len() == 0,
    ensures
        replayed::<T>(value, owed::<T>(value, inboxes, index)) == (
            processed::<T>(value, inboxes),
            true,
        ),
    decreases inboxes.len(),
{
    if inboxes.len() > 0 {
        let before = inboxes.drop_last();
        let state = processed::<T>(value, before);
        let round = served::<T>(state, inboxes.last());
        lemma_replica_follows::<T>(value, before, index);
        if index != before.len() {
            lemma_due_to_others(round.1);
            lemma_replay_round::<T>(state, inboxes.last());
            lemma_replayed_more::<T>(value, owed::<T>(value, before, index), texts(round.1));
        }
    }
}

} // verus!
