//! One value per client: each remote has a replica of its own on the server.

use vstd::prelude::*;
use crate::context::{lemma_at_root, Context};
use crate::error::{outcome, Error};
use crate::json::{json_text, ToJson};
use crate::reflect::{run, run_echoes, Reflect};
use crate::remote::{arrivals, deliver, due, handed, Remote};
use crate::reply::Reply;
use crate::shared_server::welcomed;
use std::sync::mpsc::Receiver;

verus! {

broadcast use vstd::seq::group_seq_axioms;

/// What serving all messages that wait at a client does: the value
/// afterwards, the log of what the messages have recorded on their way, and
/// whether one failed. A message that fails does not end the round: the ones
/// behind it are still run.
pub open spec fn served_through<T: Reflect>(value: T::V, inbox: Seq<Seq<char>>) -> (
    T::V,
    Seq<(Seq<char>, bool)>,
    bool,
)
    decreases inbox.len(),
{
    if inbox.len() == 0 {
        (value, Seq::empty(), false)
    } else {
        let (next, outcome) = run::<T>(value, inbox[0]);
        let recorded = run_echoes::<T>(value, inbox[0]);
        let rest = served_through::<T>(next, inbox.skip(1));
        (rest.0, recorded + rest.1, outcome is Err || rest.2)
    }
}

/// A client of a [`PrivateServer`]: its transport and the value that the
/// server keeps for it.
pub struct PrivateClient<T: Reflect + ToJson, R: Remote> {
    value: T,
    remote: R,
}

/// A client reads as the value that is kept for it.
impl<T: Reflect + ToJson, R: Remote> core::ops::Deref for PrivateClient<T, R> {
    type Target = T;

    fn deref(&self) -> (value: &T)
        ensures
            value.deep_view() == self.state(),
    {
        &self.value
    }
}

impl<T: Reflect + ToJson, R: Remote> PrivateClient<T, R> {
    /// The view of the value kept for the client.
    pub closed spec fn state(&self) -> T::V {
        self.value.deep_view()
    }

    /// The transport of the client.
    pub closed spec fn link(&self) -> R {
        self.remote
    }

    /// Runs a command on the value kept for the client. A command that
    /// succeeds is sent to the client; one that fails closes its transport.
    pub fn command(&mut self, command: &str) -> (result: Result<(), Error>)
        ensures
            final(self).state() == run::<T>(old(self).state(), command@).0,
            final(self).link().inbox() == old(self).link().inbox(),
            final(self).link().open() ==> old(self).link().open(),
            match run::<T>(old(self).state(), command@).1 {
                Ok(_) => final(self).link().outbox() == if result is Ok {
                    old(self).link().outbox().push(command@)
                } else {
                    old(self).link().outbox()
                },
                Err(error) => outcome(result) == Err::<(), _>(error) && !final(self).link().open()
                    && final(self).link().outbox() == old(self).link().outbox(),
            },
    {
        let mut inert = ();
        match self.value.command_str(&mut inert, command) {
            Ok(()) => self.remote.send(command),
            Err(error) => {
                self.remote.close();
                Err(error)
            },
        }
    }

    /// Closes the transport of the client.
    pub fn kick(&mut self)
        ensures
            final(self).state() == old(self).state(),
            !final(self).link().open(),
            final(self).link().inbox() == old(self).link().inbox(),
            final(self).link().outbox() == old(self).link().outbox(),
    {
        self.remote.close();
    }

    /// Serves the client: runs every message that waits at its transport on
    /// its value under a context that gathers what the messages record,
    /// sends back the entries that are marked for broadcast, and closes the
    /// transport if a message failed or could not be sent.
    pub fn serve(&mut self)
        ensures
            served_client(*old(self), *final(self)),
    {
        let mut reply = Reply::new(Vec::new());
        let mut failed = false;
        let ghost start = self.state();
        let ghost inbox = self.link().inbox();
        let ghost mut log: Seq<(Seq<char>, bool)> = Seq::empty();
        let ghost mut done: int = 0;
        loop
            invariant_except_break
                0 <= done <= inbox.len(),
                self.remote.inbox() == inbox.skip(done),
                ({
                    let rest = served_through::<T>(self.value.deep_view(), self.remote.inbox());
                    served_through::<T>(start, inbox) == (rest.0, log + rest.1, failed || rest.2)
                }),
            invariant
                start == old(self).state(),
                inbox == old(self).link().inbox(),
                reply.observes(),
                reply.elements() == Seq::<Seq<char>>::empty(),
                reply.messages() == log,
                self.remote.outbox() == old(self).remote.outbox(),
                self.remote.open() ==> old(self).remote.open(),
            ensures
                self.remote.inbox().len() == 0,
                served_through::<T>(start, inbox) == (self.value.deep_view(), log, failed),
            decreases self.remote.inbox().len(),
        {
            let ghost before = self.value.deep_view();
            match self.remote.recv() {
                None => {
                    break ;
                },
                Some(message) => {
                    let ghost recorded = run_echoes::<T>(before, message@);
                    proof {
                        lemma_at_root(recorded);
                    }
                    let result = self.value.command_str(&mut reply, message.as_str());
                    proof {
                        log = log + recorded;
                        done = done + 1;
                    }
                    if result.is_err() {
                        failed = true;
                    }
                },
            }
        }
        let entries = reply.into_inner();
        deliver(&mut self.remote, &entries, true);
        if failed {
            self.remote.close();
        }
    }
}

/// The clients of a list whose transport is alive, in their order.
pub open spec fn alive_clients<T: Reflect + ToJson, R: Remote>(
    clients: Seq<PrivateClient<T, R>>,
) -> Seq<PrivateClient<T, R>>
    decreases clients.len(),
{
    if clients.len() == 0 {
        Seq::empty()
    } else if clients.last().link().open() {
        alive_clients(clients.drop_last()).push(clients.last())
    } else {
        alive_clients(clients.drop_last())
    }
}

/// Every client that is kept is alive.
pub proof fn lemma_alive_clients<T: Reflect + ToJson, R: Remote>(clients: Seq<PrivateClient<T, R>>)
    ensures
        forall|j: int|
            0 <= j < alive_clients(clients).len() ==> (#[trigger] alive_clients(
                clients,
            )[j]).link().open(),
        alive_clients(clients).len() <= clients.len(),
    decreases clients.len(),
{
    if clients.len() > 0 {
        lemma_alive_clients(clients.drop_last());
    }
}

/// What serving a client leaves behind: its value is what the messages made
/// of it, nothing waits at its transport, and the transport has taken the
/// leading ones of the entries of the log that are marked for broadcast; a
/// transport that is alive afterwards was alive before, has taken all of
/// them, and no message failed.
pub open spec fn served_client<T: Reflect + ToJson, R: Remote>(
    before: PrivateClient<T, R>,
    after: PrivateClient<T, R>,
) -> bool {
    let round = served_through::<T>(before.state(), before.link().inbox());
    &&& after.state() == round.0
    &&& after.link().inbox().len() == 0
    &&& handed(before.link(), after.link(), due(round.1, true))
    &&& after.link().open() ==> !round.2
}

/// Whether `client` is `arrival` after joining a server whose values are made
/// by `factory`: its value is one that the factory made, and its transport
/// took the JSON text of that value.
pub open spec fn fresh<T: Reflect + ToJson, R: Remote, F: Fn() -> T>(
    factory: F,
    arrival: R,
    client: PrivateClient<T, R>,
) -> bool {
    exists|value: T| #[trigger]
        call_ensures(factory, (), value) && client.state() == value.deep_view() && welcomed(
            arrival,
            client.link(),
            json_text(T::encoded(value.deep_view())),
        )
}

/// Whether `joined` are the clients made of those among `arrivals` that took
/// the text of their value, in the order they arrived.
pub open spec fn admitted<T: Reflect + ToJson, R: Remote, F: Fn() -> T>(
    factory: F,
    arrivals: Seq<R>,
    joined: Seq<PrivateClient<T, R>>,
) -> bool
    decreases arrivals.len(),
{
    if arrivals.len() == 0 {
        joined.len() == 0
    } else {
        ||| admitted(factory, arrivals.drop_last(), joined)
        ||| (joined.len() > 0 && fresh(factory, arrivals.last(), joined.last()) && admitted(
            factory,
            arrivals.drop_last(),
            joined.drop_last(),
        ))
    }
}

/// What one tick of a private server does, given the clients `joined` that
/// were let in and the clients `served` as they are after each was served:
/// the new clients are let in, every client is served, and the clients that
/// are not alive are dropped.
pub open spec fn ticked<T: Reflect + ToJson, R: Remote, F: Fn() -> T>(
    factory: F,
    members: Seq<PrivateClient<T, R>>,
    arrivals: Seq<R>,
    joined: Seq<PrivateClient<T, R>>,
    served: Seq<PrivateClient<T, R>>,
    members_after: Seq<PrivateClient<T, R>>,
) -> bool {
    &&& admitted(factory, arrivals, joined)
    &&& served.len() == members.len() + joined.len()
    &&& forall|j: int|
        0 <= j < served.len() ==> served_client((members + joined)[j], #[trigger] served[j])
    &&& members_after == alive_clients(served)
}

/// A function that makes the value of a new client, and that can be called
/// at any time.
#[verifier::reject_recursive_types(T)]
#[verifier::reject_recursive_types(F)]
struct Factory<T, F: Fn() -> T> {
    make: F,
    made: core::marker::PhantomData<T>,
}

impl<T, F: Fn() -> T> Factory<T, F> {
    #[verifier::type_invariant]
    closed spec fn callable(&self) -> bool {
        call_requires(self.make, ())
    }

    fn new(make: F) -> (factory: Self)
        requires
            call_requires(make, ()),
        ensures
            factory.make == make,
    {
        Factory { make, made: core::marker::PhantomData }
    }

    fn call(&self) -> (value: T)
        ensures
            call_ensures(self.make, (), value),
    {
        proof {
            use_type_invariant(self);
        }
        (self.make)()
    }
}

/// A server that makes a value of its own for every client that joins, and
/// runs the commands of each client on the value of that client alone.
#[verifier::reject_recursive_types(T)]
#[verifier::reject_recursive_types(R)]
#[verifier::reject_recursive_types(F)]
pub struct PrivateServer<T: Reflect + ToJson, R: Remote, F: Fn() -> T> {
    factory: Factory<T, F>,
    listener: Receiver<R>,
    clients: Vec<PrivateClient<T, R>>,
}

impl<T: Reflect + ToJson, R: Remote, F: Fn() -> T> PrivateServer<T, R, F> {
    /// The connected clients, in the order they joined.
    pub closed spec fn members(&self) -> Seq<PrivateClient<T, R>> {
        self.clients@
    }

    /// The factory that makes the value of a new client.
    pub closed spec fn maker(&self) -> F {
        self.factory.make
    }

    /// Creates a server that has no clients yet, finds new ones on
    /// `listener`, and makes the value of each with `factory`, which must be
    /// a function that can be called whenever a client joins.
    pub fn new(factory: F, listener: Receiver<R>) -> (server: Self)
        requires
            call_requires(factory, ()),
        ensures
            server.maker() == factory,
            server.members() == Seq::<PrivateClient<T, R>>::empty(),
    {
        PrivateServer { factory: Factory::new(factory), listener, clients: Vec::new() }
    }

    /// The connected clients, to look at them or to run commands on them.
    pub fn clients(&mut self) -> (clients: &mut Vec<PrivateClient<T, R>>)
        ensures
            clients@ == old(self).members(),
            final(self).members() == final(clients)@,
            final(self).maker() == old(self).maker(),
    {
        &mut self.clients
    }

    /// Lets a new client in: makes a value for it, sends it the value as
    /// JSON text, and keeps it if it took the text. Returns whether the
    /// client was kept, which is up to the transport;
    /// [`PrivateServer::retain`] says what follows from what sending gave.
    pub fn join(&mut self, remote: R) -> (joined: bool)
        ensures
            final(self).maker() == old(self).maker(),
            if joined {
                &&& final(self).members().len() == old(self).members().len() + 1
                &&& final(self).members().drop_last() == old(self).members()
                &&& fresh(old(self).maker(), remote, final(self).members().last())
            } else {
                final(self).members() == old(self).members()
            },
    {
        let mut remote = remote;
        let value = self.factory.call();
        let text = value.to_json().to_text();
        let sent = remote.send(text.as_str());
        self.retain(value, remote, sent)
    }

    /// Settles whether a new client stays, given the value that was made
    /// for it and what sending it the value gave: the client is kept, behind
    /// the others and with that value, if and only if it took the text.
    pub fn retain(&mut self, value: T, remote: R, sent: Result<(), Error>) -> (joined: bool)
        ensures
            joined == sent is Ok,
            final(self).maker() == old(self).maker(),
            if sent is Ok {
                &&& final(self).members().len() == old(self).members().len() + 1
                &&& final(self).members().drop_last() == old(self).members()
                &&& final(self).members().last().state() == value.deep_view()
                &&& final(self).members().last().link() == remote
            } else {
                final(self).members() == old(self).members()
            },
    {
        match sent {
            Ok(()) => {
                self.clients.push(PrivateClient { value, remote });
                true
            },
            Err(_) => false,
        }
    }

    /// Lets in the new clients in the order they arrived.
    pub fn accept(&mut self, arrivals: Vec<R>)
        ensures
            final(self).maker() == old(self).maker(),
            final(self).members().len() >= old(self).members().len(),
            final(self).members().take(old(self).members().len() as int) == old(self).members(),
            admitted(
                old(self).maker(),
                arrivals@,
                final(self).members().skip(old(self).members().len() as int),
            ),
    {
        let ghost count = self.clients@.len() as int;
        for remote in iter: arrivals
            invariant
                iter.seq() == arrivals@,
                count == old(self).clients@.len(),
                self.factory == old(self).factory,
                self.clients@.len() >= count,
                self.clients@.take(count) == old(self).clients@,
                admitted(
                    self.factory.make,
                    arrivals@.take(iter.index() as int),
                    self.clients@.skip(count),
                ),
        {
            let ghost before = self.clients@;
            let ghost seen = arrivals@.take(iter.index() as int);
            let ghost next = arrivals@.take(iter.index() + 1);
            proof {
                assert(next.drop_last() =~= seen);
            }
            if self.join(remote) {
                proof {
                    assert(self.clients@.skip(count).drop_last() =~= before.skip(count));
                }
            }
        }
        assert(arrivals@.take(arrivals@.len() as int) =~= arrivals@);
    }

    /// Serves every client, in the order they joined.
    pub fn process(&mut self)
        ensures
            final(self).maker() == old(self).maker(),
            final(self).members().len() == old(self).members().len(),
            forall|j: int|
                0 <= j < old(self).members().len() ==> served_client(
                    old(self).members()[j],
                    #[trigger] final(self).members()[j],
                ),
    {
        let mut i: usize = 0;
        while i < self.clients.len()
            invariant
                i <= self.clients.len(),
                self.factory == old(self).factory,
                self.clients@.len() == old(self).clients@.len(),
                forall|j: int|
                    0 <= j < i ==> served_client(
                        old(self).clients@[j],
                        #[trigger] self.clients@[j],
                    ),
                forall|j: int|
                    i <= j < self.clients@.len() ==> self.clients@[j] == old(self).clients@[j],
            decreases self.clients.len() - i,
        {
            self.clients[i].serve();
            i += 1;
        }
    }

    /// Drops the clients whose connection is not alive.
    pub fn reap(&mut self)
        ensures
            final(self).maker() == old(self).maker(),
            final(self).members() == alive_clients(old(self).members()),
    {
        let ghost first = self.clients@;
        let mut i: usize = 0;
        let ghost mut seen: int = 0;
        while i < self.clients.len()
            invariant
                first == old(self).clients@,
                self.factory == old(self).factory,
                i <= self.clients.len(),
                0 <= seen <= first.len(),
                first.len() - seen == self.clients@.len() - i,
                self.clients@.take(i as int) == alive_clients(first.take(seen)),
                self.clients@.skip(i as int) == first.skip(seen),
            decreases self.clients.len() - i,
        {
            proof {
                assert(first.take(seen + 1).drop_last() =~= first.take(seen));
                assert(first[seen] == first.skip(seen)[0]);
            }
            if self.clients[i].remote.alive() {
                proof {
                    assert(first.skip(seen + 1) =~= first.skip(seen).skip(1));
                }
                i += 1;
            } else {
                self.clients.remove(i);
                proof {
                    assert(first.skip(seen + 1) =~= first.skip(seen).skip(1));
                }
            }
            proof {
                seen = seen + 1;
            }
        }
        proof {
            assert(first.take(seen) =~= first);
        }
    }

    /// One tick of the server for the transports that have arrived since the
    /// last one: lets them in, serves every client, and drops the clients
    /// that are not alive.
    pub fn tick(&mut self, arrivals: Vec<R>)
        ensures
            final(self).maker() == old(self).maker(),
            exists|joined: Seq<PrivateClient<T, R>>, served: Seq<PrivateClient<T, R>>| #[trigger]
                ticked(
                    old(self).maker(),
                    old(self).members(),
                    arrivals@,
                    joined,
                    served,
                    final(self).members(),
                ),
            forall|j: int|
                0 <= j < final(self).members().len() ==> (#[trigger] final(self).members()[j])
                    .link().open(),
    {
        let ghost count = self.clients@.len() as int;
        self.accept(arrivals);
        let ghost present = self.clients@;
        self.process();
        let ghost served = self.clients@;
        self.reap();
        proof {
            lemma_alive_clients(served);
            assert(ticked(
                old(self).maker(),
                old(self).members(),
                arrivals@,
                present.skip(count),
                served,
                self.members(),
            ));
        }
    }

    /// One tick of the server: takes the transports that wait on the
    /// listener and runs [`PrivateServer::tick`] for them. Which transports
    /// wait there is up to the acceptor.
    pub fn update(&mut self)
        ensures
            final(self).maker() == old(self).maker(),
            exists|
                arrivals: Seq<R>,
                joined: Seq<PrivateClient<T, R>>,
                served: Seq<PrivateClient<T, R>>,
            | #[trigger]
                ticked(
                    old(self).maker(),
                    old(self).members(),
                    arrivals,
                    joined,
                    served,
                    final(self).members(),
                ),
            forall|j: int|
                0 <= j < final(self).members().len() ==> (#[trigger] final(self).members()[j])
                    .link().open(),
    {
        let waiting = arrivals(&self.listener);
        self.tick(waiting);
    }
}

} // verus!
