use mirror::{
    dispatch, local_command, remote, Async, Connect, Bindings, Entries, Names, Place, Record, Values, Callable, Client, Command, CommandView, Context, Error, FromJson, Json, JsonView, Numeric,
    Outcome, PrivateServer, Reflect, Remote, Schema, SharedServer, ToJson,
};
use std::cell::{Cell, RefCell};
use std::collections::VecDeque;
use std::rc::Rc;
use std::sync::mpsc::channel;
use vstd::seq::Seq;
use vstd::view::DeepView;

/// An in-memory transport whose two ends the test keeps a handle on.
#[derive(Clone)]
struct Pipe {
    incoming: Rc<RefCell<VecDeque<String>>>,
    outgoing: Rc<RefCell<Vec<String>>>,
    alive: Rc<Cell<bool>>,
    refuses: Rc<Cell<bool>>,
}

impl Pipe {
    fn new() -> Self {
        Pipe {
            incoming: Rc::new(RefCell::new(VecDeque::new())),
            outgoing: Rc::new(RefCell::new(Vec::new())),
            alive: Rc::new(Cell::new(true)),
            refuses: Rc::new(Cell::new(false)),
        }
    }

    fn arrive(&self, message: &str) {
        self.incoming.borrow_mut().push_back(message.to_string());
    }

    fn sent(&self) -> Vec<String> {
        self.outgoing.borrow().clone()
    }
}

impl Remote for Pipe {
    fn inbox(&self) -> Seq<Seq<char>> {
        panic!("specification only")
    }

    fn outbox(&self) -> Seq<Seq<char>> {
        panic!("specification only")
    }

    fn open(&self) -> bool {
        panic!("specification only")
    }

    fn close(&mut self) {
        self.alive.set(false);
    }

    fn alive(&self) -> bool {
        self.alive.get()
    }

    fn send(&mut self, message: &str) -> Result<(), Error> {
        if self.refuses.get() {
            Err(Error::ConnectionDropped)
        } else {
            self.outgoing.borrow_mut().push(message.to_string());
            Ok(())
        }
    }

    fn recv(&mut self) -> Option<String> {
        self.incoming.borrow_mut().pop_front()
    }
}

/// A record with one number.
#[derive(Debug, PartialEq)]
struct Counter {
    counter: u64,
}

impl DeepView for Counter {
    type V = u64;

    fn deep_view(&self) -> u64 {
        panic!("specification only")
    }
}

impl FromJson for Counter {
    fn decoded(_json: JsonView) -> Option<u64> {
        panic!("specification only")
    }

    fn from_json(json: &Json) -> Result<Self, Error> {
        match json.member("counter") {
            Some(value) => Ok(Counter { counter: u64::from_json(value)? }),
            None => Err(Json::unexpected("a member counter")),
        }
    }
}

impl ToJson for Counter {
    fn encoded(_value: u64) -> JsonView {
        panic!("specification only")
    }

    fn to_json(&self) -> Json {
        Json::Object(vec![("counter".to_string(), self.counter.to_json())])
    }
}

impl Record for Counter {
    fn field_names() -> Names {
        panic!("specification only")
    }

    fn bindings() -> Bindings {
        panic!("specification only")
    }

    fn in_field(_value: u64, _index: Place, _command: CommandView) -> (u64, Outcome, Entries) {
        panic!("specification only")
    }

    fn invoked(_value: u64, _index: Place, _arguments: Values) -> (u64, Outcome, Entries) {
        panic!("specification only")
    }

    fn schema() -> Schema {
        Schema::new(vec!["counter".to_string()], vec![Callable::new("bump".to_string(), 0)])
    }

    fn field_command<C: Context>(
        &mut self,
        _index: usize,
        context: &mut C,
        command: &Command,
    ) -> Result<(), Error> {
        self.counter.command(context, command)
    }

    fn invoke<C: Context>(
        &mut self,
        _index: usize,
        context: &mut C,
        _arguments: &Vec<Json>,
    ) -> Result<(), Error> {
        let next = self.counter + 1;
        mirror::command(context, self, format!("counter/set:{}", next).as_str())?;
        local_command(context, self, format!("counter/set:{}", next + 1).as_str())
    }
}

impl Reflect for Counter {
    fn apply(_value: u64, _command: CommandView) -> (u64, Outcome) {
        panic!("specification only")
    }

    fn echoes(_value: u64, _command: CommandView) -> Entries {
        panic!("specification only")
    }

    fn lemma_assign_twice(_value: u64, _json: JsonView) {}

    fn command<C: Context>(&mut self, context: &mut C, command: &Command) -> Result<(), Error> {
        dispatch(self, context, command)
    }
}

/// The inner record of the first scenario: a list, and a callable that notes
/// what it was called with.
struct Foo {
    bar: Vec<usize>,
    seen: Vec<(usize, String)>,
}

impl Foo {
    fn schema() -> Schema {
        Schema::new(vec!["bar".to_string()], vec![Callable::new("set_bar".to_string(), 2)])
    }

    fn set_bar<C: Context>(&mut self, _context: &mut C, bar: usize, bar2: String) {
        self.seen.push((bar, bar2));
    }
}

impl DeepView for Foo {
    type V = ();

    fn deep_view(&self) {
        panic!("specification only")
    }
}

impl FromJson for Foo {
    fn decoded(_json: JsonView) -> Option<()> {
        panic!("specification only")
    }

    fn from_json(json: &Json) -> Result<Self, Error> {
        match json.member("bar") {
            Some(value) => Ok(Foo { bar: Vec::from_json(value)?, seen: Vec::new() }),
            None => Err(Json::unexpected("a member bar")),
        }
    }
}

impl Record for Foo {
    fn field_names() -> Names {
        panic!("specification only")
    }

    fn bindings() -> Bindings {
        panic!("specification only")
    }

    fn in_field(_value: (), _index: Place, _command: CommandView) -> ((), Outcome, Entries) {
        panic!("specification only")
    }

    fn invoked(_value: (), _index: Place, _arguments: Values) -> ((), Outcome, Entries) {
        panic!("specification only")
    }

    fn schema() -> Schema {
        Foo::schema()
    }

    fn field_command<C: Context>(
        &mut self,
        _index: usize,
        context: &mut C,
        command: &Command,
    ) -> Result<(), Error> {
        self.bar.command(context, command)
    }

    fn invoke<C: Context>(
        &mut self,
        _index: usize,
        context: &mut C,
        arguments: &Vec<Json>,
    ) -> Result<(), Error> {
        let bar = usize::from_json(&arguments[0])?;
        let bar2 = String::from_json(&arguments[1])?;
        self.set_bar(context, bar, bar2);
        Ok(())
    }
}

impl Reflect for Foo {
    fn apply(_value: (), _command: CommandView) -> ((), Outcome) {
        panic!("specification only")
    }

    fn echoes(_value: (), _command: CommandView) -> Entries {
        panic!("specification only")
    }

    fn lemma_assign_twice(_value: (), _json: JsonView) {}

    fn command<C: Context>(&mut self, context: &mut C, command: &Command) -> Result<(), Error> {
        dispatch(self, context, command)
    }
}

/// The outer record of the first scenario.
struct FooBar {
    foo: Foo,
}

impl DeepView for FooBar {
    type V = ();

    fn deep_view(&self) {
        panic!("specification only")
    }
}

impl FromJson for FooBar {
    fn decoded(_json: JsonView) -> Option<()> {
        panic!("specification only")
    }

    fn from_json(json: &Json) -> Result<Self, Error> {
        match json.member("foo") {
            Some(value) => Ok(FooBar { foo: Foo::from_json(value)? }),
            None => Err(Json::unexpected("a member foo")),
        }
    }
}

impl Record for FooBar {
    fn field_names() -> Names {
        panic!("specification only")
    }

    fn bindings() -> Bindings {
        panic!("specification only")
    }

    fn in_field(_value: (), _index: Place, _command: CommandView) -> ((), Outcome, Entries) {
        panic!("specification only")
    }

    fn invoked(_value: (), _index: Place, _arguments: Values) -> ((), Outcome, Entries) {
        panic!("specification only")
    }

    fn schema() -> Schema {
        Schema::new(vec!["foo".to_string()], Vec::new())
    }

    fn field_command<C: Context>(
        &mut self,
        _index: usize,
        context: &mut C,
        command: &Command,
    ) -> Result<(), Error> {
        self.foo.command(context, command)
    }

    fn invoke<C: Context>(
        &mut self,
        _index: usize,
        _context: &mut C,
        _arguments: &Vec<Json>,
    ) -> Result<(), Error> {
        Err(Error::InvalidCommand)
    }
}

impl Reflect for FooBar {
    fn apply(_value: (), _command: CommandView) -> ((), Outcome) {
        panic!("specification only")
    }

    fn echoes(_value: (), _command: CommandView) -> Entries {
        panic!("specification only")
    }

    fn lemma_assign_twice(_value: (), _json: JsonView) {}

    fn command<C: Context>(&mut self, context: &mut C, command: &Command) -> Result<(), Error> {
        dispatch(self, context, command)
    }
}

#[test]
fn it_works() {
    let mut test = FooBar { foo: Foo { bar: vec![0, 1, 2], seen: Vec::new() } };
    test.command_str(&mut (), "foo/bar/set:[128, 129, 130]").unwrap();
    test.command_str(&mut (), "foo/bar/1/set:5").unwrap();
    test.command_str(&mut (), "foo/call:set_bar:16 \"test\"").unwrap();
    assert_eq!(test.foo.bar[1], 5);

    let mut test = String::from("test");
    test.command_str(&mut (), "set:\"foo bar\"").unwrap();
    assert_eq!(test, String::from("foo bar"));
}

#[test]
fn record_with_list_and_callable() {
    let mut test = FooBar { foo: Foo { bar: vec![0, 1, 2], seen: Vec::new() } };
    test.command_str(&mut (), "foo/bar/set:[128, 129, 130]").unwrap();
    assert_eq!(test.foo.bar, vec![128, 129, 130]);
    test.command_str(&mut (), "foo/bar/1/set:5").unwrap();
    assert_eq!(test.foo.bar, vec![128, 5, 130]);
    test.command_str(&mut (), "foo/call:set_bar:16 \"test\"").unwrap();
    assert_eq!(test.foo.seen, vec![(16, "test".to_string())]);
    assert_eq!(test.foo.bar, vec![128, 5, 130]);
}

#[test]
fn record_refuses_what_it_has_not_declared() {
    let mut test = FooBar { foo: Foo { bar: vec![0, 1, 2], seen: Vec::new() } };
    assert!(matches!(test.command_str(&mut (), "baz/set:1"), Err(Error::PathError)));
    assert!(matches!(test.command_str(&mut (), "foo/call:nope:1"), Err(Error::InvalidCommand)));
    assert!(matches!(
        test.command_str(&mut (), "foo/call:set_bar:16"),
        Err(Error::WrongArgumentCount)
    ));
    assert!(matches!(test.command_str(&mut (), "foo/call:set_bar:16 17"), Err(Error::Json(_))));
    assert!(matches!(test.command_str(&mut (), "foo/pop:"), Err(Error::IncompatibleCommand)));
    assert!(matches!(test.command_str(&mut (), "nonsense"), Err(Error::InvalidCommand)));
    assert_eq!(test.foo.bar, vec![0, 1, 2]);
}

#[test]
fn shared_server_echoes_to_every_client() {
    let (sender, listener) = channel();
    let mut server = SharedServer::new(Counter { counter: 0 }, listener);
    let a = Pipe::new();
    let b = Pipe::new();
    sender.send(a.clone()).unwrap();
    sender.send(b.clone()).unwrap();
    server.update();
    assert_eq!(server.clients(), 2);
    assert_eq!(a.sent(), vec!["{\"counter\":0}".to_string()]);
    assert_eq!(b.sent(), vec!["{\"counter\":0}".to_string()]);

    a.arrive("counter/set:7");
    server.update();
    assert_eq!(server.counter, 7);
    assert_eq!(a.sent(), vec!["{\"counter\":0}".to_string(), "counter/set:7".to_string()]);
    assert_eq!(b.sent(), vec!["{\"counter\":0}".to_string(), "counter/set:7".to_string()]);
}

#[test]
fn shared_server_closes_a_client_after_a_bad_command() {
    let (sender, listener) = channel();
    let mut server = SharedServer::new(Counter { counter: 0 }, listener);
    let a = Pipe::new();
    let b = Pipe::new();
    sender.send(a.clone()).unwrap();
    sender.send(b.clone()).unwrap();
    a.arrive("counter/set:1");
    a.arrive("counter/push:2");
    a.arrive("counter/set:3");
    b.arrive("counter/set:4");
    server.update();
    assert_eq!(server.counter, 4);
    assert_eq!(server.clients(), 1);
    assert!(!a.alive.get());
    assert_eq!(a.incoming.borrow().len(), 1);
    assert_eq!(
        b.sent(),
        vec![
            "{\"counter\":0}".to_string(),
            "counter/set:1".to_string(),
            "counter/set:4".to_string()
        ]
    );
}

#[test]
fn shared_server_forwards_its_own_commands() {
    let (sender, listener) = channel();
    let mut server = SharedServer::new(Counter { counter: 0 }, listener);
    let a = Pipe::new();
    let b = Pipe::new();
    b.refuses.set(true);
    sender.send(a.clone()).unwrap();
    sender.send(b.clone()).unwrap();
    server.update();
    assert_eq!(server.clients(), 1);
    server.command("counter/set:9").unwrap();
    assert_eq!(server.counter, 9);
    assert_eq!(a.sent(), vec!["{\"counter\":0}".to_string(), "counter/set:9".to_string()]);
    assert!(matches!(server.command("counter/pop:"), Err(Error::IncompatibleCommand)));
    assert_eq!(a.sent().len(), 2);
    server.local_command("counter/set:10").unwrap();
    assert_eq!(server.counter, 10);
    assert_eq!(a.sent()[2..].to_vec(), vec!["counter/set:10".to_string()]);
    assert!(matches!(server.local_command("counter/pop:"), Err(Error::IncompatibleCommand)));
    assert_eq!(a.sent().len(), 3);
    a.refuses.set(true);
    server.command("counter/set:11").unwrap();
    assert!(!a.alive.get());
    server.update();
    assert_eq!(server.clients(), 0);
}

#[test]
fn private_server_keeps_replicas_apart() {
    let (sender, listener) = channel();
    let mut server = PrivateServer::new(|| Counter { counter: 0 }, listener);
    let a = Pipe::new();
    let b = Pipe::new();
    sender.send(a.clone()).unwrap();
    sender.send(b.clone()).unwrap();
    a.arrive("counter/set:1");
    b.arrive("counter/set:2");
    server.update();
    let clients = server.clients();
    assert_eq!(clients.len(), 2);
    assert_eq!(clients[0].counter, 1);
    assert_eq!(clients[1].counter, 2);
    assert_eq!(a.sent(), vec!["{\"counter\":0}".to_string(), "counter/set:1".to_string()]);
    assert_eq!(b.sent(), vec!["{\"counter\":0}".to_string(), "counter/set:2".to_string()]);

    clients[0].command("counter/set:5").unwrap();
    assert_eq!(clients[0].counter, 5);
    assert_eq!(a.sent().len(), 3);
    assert!(matches!(clients[1].command("counter/pop:"), Err(Error::IncompatibleCommand)));
    assert!(!b.alive.get());
    clients[0].kick();
    server.update();
    assert_eq!(server.clients().len(), 0);
}

#[test]
fn private_server_goes_on_after_a_bad_command() {
    let (sender, listener) = channel();
    let mut server = PrivateServer::new(|| Counter { counter: 0 }, listener);
    let a = Pipe::new();
    sender.send(a.clone()).unwrap();
    a.arrive("counter/set:1");
    a.arrive("counter/pop:");
    a.arrive("counter/set:3");
    server.update();
    assert!(!a.alive.get());
    assert_eq!(a.incoming.borrow().len(), 0);
    assert_eq!(
        a.sent(),
        vec![
            "{\"counter\":0}".to_string(),
            "counter/set:1".to_string(),
            "counter/set:3".to_string()
        ]
    );
    assert_eq!(server.clients().len(), 0);
}

#[test]
fn client_follows_the_server() {
    let pipe = Pipe::new();
    let connect = Client::<Counter, Pipe>::new(pipe.clone());
    let connect = match connect.poll() {
        Ok(Async::NotReady(connect)) => connect,
        _ => panic!("nothing has arrived yet"),
    };
    pipe.arrive("{\"counter\": 3}");
    let mut client = match connect.poll() {
        Ok(Async::Ready(client)) => client,
        _ => panic!("the value has arrived"),
    };
    assert_eq!(client.counter, 3);
    assert!(client.alive());
    client.command("counter/set:4").unwrap();
    assert_eq!(client.counter, 3);
    assert_eq!(pipe.sent(), vec!["counter/set:4".to_string()]);
    pipe.arrive("counter/set:4");
    pipe.arrive("counter/set:5");
    client.update().unwrap();
    assert_eq!(client.counter, 5);
    pipe.arrive("counter/set:6");
    pipe.arrive("nonsense");
    pipe.arrive("counter/set:7");
    assert!(matches!(client.update(), Err(Error::InvalidCommand)));
    assert_eq!(client.counter, 6);
    assert_eq!(pipe.incoming.borrow().len(), 1);
}

#[test]
fn connection_drops_without_a_value() {
    let pipe = Pipe::new();
    pipe.alive.set(false);
    let connect = Client::<Counter, Pipe>::new(pipe.clone());
    assert!(matches!(connect.poll(), Err(Error::ConnectionDropped)));

    let pipe = Pipe::new();
    pipe.arrive("[1, 2");
    let connect = Client::<Counter, Pipe>::new(pipe.clone());
    assert!(matches!(connect.poll(), Err(Error::Json(_))));

    let pipe = Pipe::new();
    pipe.arrive("{\"count\": 1}");
    let connect = Client::<Counter, Pipe>::new(pipe.clone());
    assert!(matches!(connect.poll(), Err(Error::Json(_))));
}

#[test]
fn numbers_keep_their_kind() {
    assert_eq!(Json::parse("-5").unwrap(), Json::Number(Numeric::NegInt(-5)));
    assert_eq!(Json::parse("5").unwrap(), Json::Number(Numeric::PosInt(5)));
    assert!(matches!(Json::parse("5.5").unwrap(), Json::Number(Numeric::Float(_))));
    assert_eq!(Json::parse("5.5").unwrap().to_text(), "5.5");
    assert_eq!(Counter { counter: 12 }.to_json().to_text(), "{\"counter\":12}");
}

#[test]
fn a_new_client_stays_if_it_took_the_value() {
    let (_sender, listener) = channel::<Pipe>();
    let mut server = SharedServer::new(Counter { counter: 0 }, listener);
    assert!(!server.retain(Pipe::new(), Err(Error::ConnectionDropped)));
    assert_eq!(server.clients(), 0);
    assert!(server.retain(Pipe::new(), Ok(())));
    assert_eq!(server.clients(), 1);
    let refusing = Pipe::new();
    refusing.refuses.set(true);
    assert!(!server.join(refusing.clone()));
    assert!(refusing.sent().is_empty());
    let taking = Pipe::new();
    assert!(server.join(taking.clone()));
    assert_eq!(taking.sent(), vec!["{\"counter\":0}".to_string()]);
    assert_eq!(server.clients(), 2);

    let (_sender, listener) = channel::<Pipe>();
    let mut server = PrivateServer::new(|| Counter { counter: 3 }, listener);
    assert!(!server.retain(Counter { counter: 4 }, Pipe::new(), Err(Error::ConnectionDropped)));
    assert_eq!(server.clients().len(), 0);
    assert!(server.retain(Counter { counter: 4 }, Pipe::new(), Ok(())));
    assert_eq!(server.clients()[0].counter, 4);
    let taking = Pipe::new();
    assert!(server.join(taking.clone()));
    assert_eq!(taking.sent(), vec!["{\"counter\":3}".to_string()]);
    assert_eq!(server.clients()[1].counter, 3);
    let refusing = Pipe::new();
    refusing.refuses.set(true);
    assert!(!server.join(refusing));
    assert_eq!(server.clients().len(), 2);
}

#[test]
fn peers_are_sent_what_a_callable_has_recorded() {
    let (sender, listener) = channel();
    let mut server = SharedServer::new(Counter { counter: 0 }, listener);
    let a = Pipe::new();
    let b = Pipe::new();
    let c = Pipe::new();
    sender.send(a.clone()).unwrap();
    sender.send(b.clone()).unwrap();
    sender.send(c.clone()).unwrap();
    server.update();
    a.arrive("call:bump:");
    server.update();
    assert_eq!(server.counter, 2);
    assert_eq!(server.clients(), 3);
    assert_eq!(a.sent()[1..].to_vec(), vec!["counter/set:1".to_string()]);
    assert_eq!(
        b.sent()[1..].to_vec(),
        vec!["counter/set:1".to_string(), "counter/set:2".to_string()]
    );
    assert_eq!(
        c.sent()[1..].to_vec(),
        vec!["counter/set:1".to_string(), "counter/set:2".to_string()]
    );
}

#[test]
fn a_whole_record_that_is_replaced_is_sent_on() {
    let (sender, listener) = channel();
    let mut server = SharedServer::new(Counter { counter: 0 }, listener);
    let a = Pipe::new();
    let b = Pipe::new();
    sender.send(a.clone()).unwrap();
    sender.send(b.clone()).unwrap();
    a.arrive("set:{\"counter\": 5}");
    a.arrive("set:[1");
    server.update();
    assert_eq!(server.counter, 5);
    assert_eq!(server.clients(), 1);
    assert_eq!(
        b.sent(),
        vec!["{\"counter\":0}".to_string(), "set:{\"counter\":5}".to_string()]
    );
}

#[test]
fn a_private_client_is_sent_the_broadcast_entries_only() {
    let (sender, listener) = channel();
    let mut server = PrivateServer::new(|| Counter { counter: 0 }, listener);
    let a = Pipe::new();
    sender.send(a.clone()).unwrap();
    a.arrive("call:bump:");
    a.arrive("counter/set:9");
    server.update();
    assert_eq!(server.clients()[0].counter, 9);
    assert_eq!(
        a.sent()[1..].to_vec(),
        vec!["counter/set:1".to_string(), "counter/set:9".to_string()]
    );
}

#[test]
fn what_follows_from_what_a_transport_answers() {
    let ready =
        Connect::<Counter, Pipe>::resolve(Pipe::new(), Some("{\"counter\": 2}".to_string()), false);
    assert!(matches!(ready, Ok(Async::Ready(client)) if client.counter == 2));
    let unread = Connect::<Counter, Pipe>::resolve(Pipe::new(), Some("{".to_string()), true);
    assert!(matches!(unread, Err(Error::Json(_))));
    let waiting = Connect::<Counter, Pipe>::resolve(Pipe::new(), None, true);
    assert!(matches!(waiting, Ok(Async::NotReady(_))));
    let dropped = Connect::<Counter, Pipe>::resolve(Pipe::new(), None, false);
    assert!(matches!(dropped, Err(Error::ConnectionDropped)));

    let mut pipe = Pipe::new();
    assert!(remote::pass(&mut pipe, Ok(())));
    assert!(pipe.alive.get());
    assert!(!remote::pass(&mut pipe, Err(Error::ConnectionDropped)));
    assert!(!pipe.alive.get());

    let mut pipe = Pipe::new();
    let log = vec![
        ("one".to_string(), true),
        ("two".to_string(), false),
        ("three".to_string(), true),
    ];
    remote::deliver(&mut pipe, &log, true);
    assert_eq!(pipe.sent(), vec!["one".to_string(), "three".to_string()]);
    remote::deliver(&mut pipe, &log, false);
    assert_eq!(pipe.sent().len(), 5);
    remote::deliver(&mut pipe, &vec![("two".to_string(), false)], true);
    assert_eq!(pipe.sent().len(), 5);
    assert!(pipe.alive.get());
    pipe.refuses.set(true);
    remote::deliver(&mut pipe, &log, true);
    assert_eq!(pipe.sent().len(), 5);
    assert!(!pipe.alive.get());
}
