//! A replica that follows a server.

use vstd::prelude::*;
use crate::error::{outcome, Error, Outcome};
use crate::json::{json_document, Json};
use crate::reflect::{run, Reflect};
use crate::remote::Remote;

verus! {

broadcast use vstd::seq::group_seq_axioms;

/// A replica of the value of a server, and the transport that keeps it in
/// step.
pub struct Client<T: Reflect, R: Remote> {
    value: T,
    remote: R,
}

/// A connection that waits for the value of the server to arrive.
pub struct Connect<T: Reflect, R: Remote> {
    remote: R,
    ph: core::marker::PhantomData<T>,
}

/// How far a connection has come.
pub enum Async<T: Reflect, R: Remote> {
    /// The value has arrived: the client is ready.
    Ready(Client<T, R>),
    /// Nothing has arrived yet: poll again.
    NotReady(Connect<T, R>),
}

/// What running the commands that wait at a client does to its replica: the
/// replica afterwards, the number of commands that were taken, and how the
/// round ended. Commands are run in order; the first one that fails ends the
/// round with its error, and what it changed before it failed stays.
pub open spec fn followed<T: Reflect>(value: T::V, inbox: Seq<Seq<char>>) -> (T::V, int, Outcome)
    decreases inbox.len(),
{
    if inbox.len() == 0 {
        (value, 0, Ok(()))
    } else {
        let (next, outcome) = run::<T>(value, inbox[0]);
        if outcome is Ok {
            let rest = followed::<T>(next, inbox.skip(1));
            (rest.0, rest.1 + 1, rest.2)
        } else {
            (next, 1, outcome)
        }
    }
}

/// The value that the first message of a server is read as: the message is
/// read as one JSON document, and the document as a value.
pub open spec fn initial<T: Reflect>(message: Seq<char>) -> Option<T::V> {
    match json_document(message) {
        Some(json) => T::decoded(json),
        None => None,
    }
}

impl<T: Reflect, R: Remote> Connect<T, R> {
    /// The transport of the connection.
    pub closed spec fn link(&self) -> R {
        self.remote
    }

    /// Looks whether the value of the server has arrived.
    ///
    /// The first message that waits is taken and read as the value; a message
    /// that cannot be read fails the connection. While nothing waits the
    /// connection is not ready as long as the transport says it is alive, and
    /// has dropped once it does not; a transport that was closed before
    /// cannot be alive. What follows from what the transport answered is
    /// settled by [`Connect::resolve`].
    pub fn poll(self) -> (result: Result<Async<T, R>, Error>)
        ensures
            if self.link().inbox().len() > 0 {
                match initial::<T>(self.link().inbox()[0]) {
                    Some(value) => result matches Ok(Async::Ready(client))
                        && client.state() == value
                        && client.link().inbox() == self.link().inbox().skip(1)
                        && client.link().outbox() == self.link().outbox(),
                    None => result matches Err(error) && error@ is Json,
                }
            } else {
                match result {
                    Ok(Async::NotReady(connect)) => self.link().open() && connect.link().open()
                        && connect.link().inbox().len() == 0 && connect.link().outbox()
                        == self.link().outbox(),
                    Ok(Async::Ready(_)) => false,
                    Err(error) => error@ is ConnectionDropped,
                }
            },
            self.link().inbox().len() == 0 && !self.link().open() ==> result is Err,
    {
        let mut remote = self.remote;
        let received = remote.recv();
        let alive = remote.alive();
        Self::resolve(remote, received, alive)
    }

    /// Settles how far a connection has come, given what its transport
    /// answered: the message that was received, if one was, and whether the
    /// transport said it is alive. A message is read as the value and makes
    /// the client ready, or fails the connection if it cannot be read; without
    /// a message the connection is not ready if the transport is alive, and
    /// has dropped if and only if it is not.
    pub fn resolve(remote: R, received: Option<String>, alive: bool) -> (result: Result<
        Async<T, R>,
        Error,
    >)
        ensures
            match received {
                Some(message) => match initial::<T>(message@) {
                    Some(value) => result matches Ok(Async::Ready(client))
                        && client.state() == value && client.link() == remote,
                    None => result matches Err(error) && error@ is Json,
                },
                None => if alive {
                    result matches Ok(Async::NotReady(connect)) && connect.link() == remote
                } else {
                    result matches Err(error) && error@ is ConnectionDropped
                },
            },
    {
        match received {
            Some(message) => match Json::parse(message.as_str()) {
                Ok(json) => match T::from_json(&json) {
                    Ok(value) => Ok(Async::Ready(Client { value, remote })),
                    Err(error) => Err(error),
                },
                Err(error) => Err(error),
            },
            None => {
                if alive {
                    Ok(Async::NotReady(Connect { remote, ph: core::marker::PhantomData }))
                } else {
                    Err(Error::ConnectionDropped)
                }
            },
        }
    }
}

/// A client reads as its replica.
impl<T: Reflect, R: Remote> core::ops::Deref for Client<T, R> {
    type Target = T;

    fn deref(&self) -> (value: &T)
        ensures
            value.deep_view() == self.state(),
    {
        &self.value
    }
}

impl<T: Reflect, R: Remote> Client<T, R> {
    /// The view of the replica.
    pub closed spec fn state(&self) -> T::V {
        self.value.deep_view()
    }

    /// The transport of the client.
    pub closed spec fn link(&self) -> R {
        self.remote
    }

    /// Starts a connection over `remote`. The client is ready once the value
    /// of the server has arrived, see [`Connect::poll`].
    pub fn new(remote: R) -> (connect: Connect<T, R>)
        ensures
            connect.link() == remote,
    {
        Connect { remote, ph: core::marker::PhantomData }
    }

    /// The replica, for changing it in place. What is changed here is not
    /// sent to the server.
    pub fn value_mut(&mut self) -> (value: &mut T)
        ensures
            value.deep_view() == old(self).state(),
            final(self).state() == final(value).deep_view(),
            final(self).link() == old(self).link(),
    {
        &mut self.value
    }

    /// Returns whether the connection to the server is still alive.
    pub fn alive(&self) -> (alive: bool)
        ensures
            alive == self.link().open(),
    {
        self.remote.alive()
    }

    /// Runs the commands that have arrived from the server on the replica, in
    /// the order they arrived. The first command that fails is returned as an
    /// error, and the commands behind it stay where they are.
    pub fn update(&mut self) -> (result: Result<(), Error>)
        ensures
            ({
                let round = followed::<T>(old(self).state(), old(self).link().inbox());
                &&& final(self).state() == round.0
                &&& final(self).link().inbox() == old(self).link().inbox().skip(round.1)
                &&& outcome(result) == round.2
                &&& final(self).link().outbox() == old(self).link().outbox()
            }),
    {
        let ghost start = self.state();
        let ghost inbox = self.link().inbox();
        let ghost mut count: int = 0;
        loop
            invariant
                start == old(self).state(),
                inbox == old(self).link().inbox(),
                0 <= count <= inbox.len(),
                self.remote.inbox() == inbox.skip(count),
                self.remote.outbox() == old(self).remote.outbox(),
                ({
                    let rest = followed::<T>(self.value.deep_view(), self.remote.inbox());
                    followed::<T>(start, inbox) == (rest.0, count + rest.1, rest.2)
                }),
            decreases self.remote.inbox().len(),
        {
            match self.remote.recv() {
                None => {
                    return Ok(());
                },
                Some(message) => {
                    let mut inert = ();
                    match self.value.command_str(&mut inert, message.as_str()) {
                        Ok(()) => {
                            proof {
                                count = count + 1;
                            }
                        },
                        Err(error) => {
                            return Err(error);
                        },
                    }
                },
            }
        }
    }

    /// Sends a command to the server. The replica is not changed: it follows
    /// when the server sends the command back.
    pub fn command(&mut self, cmd: &str) -> (result: Result<(), Error>)
        ensures
            final(self).state() == old(self).state(),
            final(self).link().inbox() == old(self).link().inbox(),
            final(self).link().open() ==> old(self).link().open(),
            final(self).link().outbox() == if result is Ok {
                old(self).link().outbox().push(cmd@)
            } else {
                old(self).link().outbox()
            },
    {
        self.remote.send(cmd)
    }
}

} // verus!
