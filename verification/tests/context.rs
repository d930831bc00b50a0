use mirror::{
    command, dispatch, local_command, Bindings, Entries, Names, Place, Record, Values, Callable, Command, CommandView, Context, Error, FromJson, Json,
    JsonView, Outcome, Reflect, Remote, Reply, Route, Schema, SharedServer, ToJson,
};
use std::cell::RefCell;
use std::rc::Rc;
use std::sync::mpsc::channel;
use vstd::seq::Seq;
use vstd::view::DeepView;

/// A record with a callable that changes the record through the context.
#[derive(Debug, PartialEq)]
struct Player {
    name: String,
    score: u64,
}

impl Player {
    fn schema() -> Schema {
        Schema::new(
            vec!["name".to_string(), "score".to_string()],
            vec![
                Callable::new("win".to_string(), 1),
                Callable::new("rename".to_string(), 1),
            ],
        )
    }

    fn win<C: Context>(&mut self, context: &mut C, points: u64) -> Result<(), Error> {
        if points == 0 {
            return Err(Error::Command("nothing won".to_string()));
        }
        let total = self.score + points;
        command(context, self, format!("score/set:{}", total).as_str())
    }

    fn rename<C: Context>(&mut self, context: &mut C, name: String) -> Result<(), Error> {
        local_command(context, self, format!("name/set:{}", Json::String(name).to_text()).as_str())
    }
}

impl DeepView for Player {
    type V = ();

    fn deep_view(&self) {
        panic!("specification only")
    }
}

impl FromJson for Player {
    fn decoded(_json: JsonView) -> Option<()> {
        panic!("specification only")
    }

    fn from_json(json: &Json) -> Result<Self, Error> {
        match (json.member("name"), json.member("score")) {
            (Some(name), Some(score)) => {
                Ok(Player { name: String::from_json(name)?, score: u64::from_json(score)? })
            }
            _ => Err(Json::unexpected("a player")),
        }
    }
}

impl ToJson for Player {
    fn encoded(_value: ()) -> JsonView {
        panic!("specification only")
    }

    fn to_json(&self) -> Json {
        Json::Object(vec![
            ("name".to_string(), self.name.to_json()),
            ("score".to_string(), self.score.to_json()),
        ])
    }
}

impl Record for Player {
    fn field_names() -> Names {
        panic!("specification only")
    }

    fn bindings() -> Bindings {
        panic!("specification only")
    }

    fn in_field(_value: (), _index: Place, _command: CommandView) -> ((), Outcome, Entries) {
        panic!("specification only")
    }

    fn invoked(_value: (), _index: Place, _arguments: Values) -> ((), Outcome, Entries) {
        panic!("specification only")
    }

    fn schema() -> Schema {
        Player::schema()
    }

    fn field_command<C: Context>(
        &mut self,
        index: usize,
        context: &mut C,
        command: &Command,
    ) -> Result<(), Error> {
        if index == 0 {
            self.name.command(context, command)
        } else {
            self.score.command(context, command)
        }
    }

    fn invoke<C: Context>(
        &mut self,
        index: usize,
        context: &mut C,
        arguments: &Vec<Json>,
    ) -> Result<(), Error> {
        if index == 0 {
            self.win(context, u64::from_json(&arguments[0])?)
        } else {
            self.rename(context, String::from_json(&arguments[0])?)
        }
    }
}

impl Reflect for Player {
    fn apply(_value: (), _command: CommandView) -> ((), Outcome) {
        panic!("specification only")
    }

    fn echoes(_value: (), _command: CommandView) -> Entries {
        panic!("specification only")
    }

    fn lemma_assign_twice(_value: (), _json: JsonView) {}

    fn command<C: Context>(&mut self, context: &mut C, command: &Command) -> Result<(), Error> {
        dispatch(self, context, command)
    }
}

/// A transport that keeps what it was sent.
#[derive(Clone)]
struct Sink {
    sent: Rc<RefCell<Vec<String>>>,
}

impl Remote for Sink {
    fn inbox(&self) -> Seq<Seq<char>> {
        panic!("specification only")
    }

    fn outbox(&self) -> Seq<Seq<char>> {
        panic!("specification only")
    }

    fn open(&self) -> bool {
        panic!("specification only")
    }

    fn close(&mut self) {}

    fn alive(&self) -> bool {
        true
    }

    fn send(&mut self, message: &str) -> Result<(), Error> {
        self.sent.borrow_mut().push(message.to_string());
        Ok(())
    }

    fn recv(&mut self) -> Option<String> {
        None
    }
}

#[test]
fn reply_gathers_what_is_recorded() {
    let mut reply = Reply::new(vec![("before".to_string(), true)]);
    let mut list: Vec<u8> = vec![1];
    command(&mut reply, &mut list, "push:2").unwrap();
    assert_eq!(list, vec![1, 2]);
    reply.descend("a");
    reply.descend("0");
    local_command(&mut reply, &mut list, "pop:").unwrap();
    reply.ascend();
    assert!(matches!(command(&mut reply, &mut list, "nonsense"), Err(Error::InvalidCommand)));
    assert!(matches!(command(&mut reply, &mut list, "7/set:1"), Err(Error::PathError)));
    command(&mut reply, &mut list, "0/set:9").unwrap();
    reply.ascend();
    reply.record("pop:", false);
    assert_eq!(list, vec![9]);
    assert_eq!(
        reply.into_inner(),
        vec![
            ("before".to_string(), true),
            ("push:2".to_string(), true),
            ("a/0/pop:".to_string(), false),
            ("a/0/set:9".to_string(), true),
            ("pop:".to_string(), false),
        ]
    );
}

#[test]
fn the_inert_context_gathers_nothing() {
    let mut inert = ();
    let mut list: Vec<u8> = vec![1];
    inert.descend("a");
    command(&mut inert, &mut list, "push:2").unwrap();
    local_command(&mut inert, &mut list, "push:3").unwrap();
    inert.ascend();
    inert.record("pop:", true);
    assert_eq!(list, vec![1, 2, 3]);
}

#[test]
fn a_traversal_leaves_the_path_of_the_context_as_it_was() {
    let mut reply = Reply::new(Vec::new());
    let mut players = vec![
        Player { name: "ann".to_string(), score: 1 },
        Player { name: "bob".to_string(), score: 2 },
    ];
    players.command_str(&mut reply, "1/score/set:5").unwrap();
    assert!(matches!(players.command_str(&mut reply, "1/score/x/set:5"), Err(_)));
    assert!(matches!(players.command_str(&mut reply, "3/score/set:5"), Err(Error::PathError)));
    command(&mut reply, &mut players, "0/score/set:7").unwrap();
    assert_eq!(players[0].score, 7);
    assert_eq!(players[1].score, 5);
    assert_eq!(
        reply.into_inner(),
        vec![("1/score/set:5".to_string(), true), ("0/score/set:7".to_string(), true)]
    );
}

#[test]
fn a_callable_records_through_the_context() {
    let mut reply = Reply::new(Vec::new());
    let mut players = vec![
        Player { name: "ann".to_string(), score: 1 },
        Player { name: "bob".to_string(), score: 2 },
    ];
    players.command_str(&mut reply, "1/call:win:5").unwrap();
    players.command_str(&mut reply, "0/call:rename:\"eve\"").unwrap();
    assert_eq!(players[1].score, 7);
    assert_eq!(players[0].name, "eve");
    assert!(matches!(
        players.command_str(&mut reply, "1/call:win:0"),
        Err(Error::Command(message)) if message == "nothing won"
    ));
    assert!(matches!(
        players.command_str(&mut reply, "1/call:win:1 2"),
        Err(Error::WrongArgumentCount)
    ));
    assert!(matches!(players.command_str(&mut reply, "1/call:lose:1"), Err(Error::InvalidCommand)));
    assert_eq!(
        reply.into_inner(),
        vec![
            ("1/score/set:7".to_string(), true),
            ("0/name/set:\"eve\"".to_string(), false),
        ]
    );
}

#[test]
fn a_server_sends_what_its_own_command_has_recorded() {
    let (sender, listener) = channel();
    let mut server = SharedServer::new(
        vec![Player { name: "ann".to_string(), score: 1 }],
        listener,
    );
    let sink = Sink { sent: Rc::new(RefCell::new(Vec::new())) };
    sender.send(sink.clone()).unwrap();
    server.update();
    assert_eq!(sink.sent.borrow().clone(), vec!["[{\"name\":\"ann\",\"score\":1}]".to_string()]);
    server.local_command("0/call:win:2").unwrap();
    assert_eq!(server[0].score, 3);
    assert!(matches!(server.local_command("0/call:win:0"), Err(Error::Command(_))));
    assert_eq!(
        sink.sent.borrow().clone(),
        vec!["[{\"name\":\"ann\",\"score\":1}]".to_string(), "0/score/set:3".to_string()]
    );
    server.broadcast(
        &vec![("first".to_string(), true), ("second".to_string(), false)],
        0,
    );
    server.broadcast(&vec![("third".to_string(), false)], 1);
    assert_eq!(
        sink.sent.borrow()[2..].to_vec(),
        vec!["first".to_string(), "third".to_string()]
    );
}

#[test]
fn declarations_of_callables() {
    let pair = |key: &str, value: &str| (key.to_string(), value.to_string());
    let callable = Callable::declare(&vec![pair("name", "set_bar"), pair("args", "2")]).unwrap();
    assert_eq!(callable.name, "set_bar");
    assert_eq!(callable.args, 2);
    let callable = Callable::declare(&vec![pair("name", "reset")]).unwrap();
    assert_eq!(callable.name, "reset");
    assert_eq!(callable.args, 0);
    let callable = Callable::declare(&vec![
        pair("args", "1"),
        pair("name", "a"),
        pair("name", "b"),
        pair("args", "3"),
    ])
    .unwrap();
    assert_eq!(callable.name, "b");
    assert_eq!(callable.args, 3);
    assert!(matches!(Callable::declare(&vec![pair("args", "2")]), Err(Error::InvalidCommand)));
    assert!(matches!(Callable::declare(&vec![]), Err(Error::InvalidCommand)));
    assert!(matches!(
        Callable::declare(&vec![pair("name", "a"), pair("arity", "2")]),
        Err(Error::InvalidCommand)
    ));
    assert!(matches!(
        Callable::declare(&vec![pair("name", "a"), pair("args", "two")]),
        Err(Error::ParseIntError(_))
    ));
    assert!(matches!(
        Callable::declare(&vec![pair("args", "-1"), pair("name", "a")]),
        Err(Error::ParseIntError(_))
    ));
}

#[test]
fn routes_of_a_record() {
    let schema = Player::schema();
    assert_eq!(schema.field("name"), Some(0));
    assert_eq!(schema.field("score"), Some(1));
    assert_eq!(schema.field("Score"), None);
    assert_eq!(schema.callable("rename"), Some(1));
    assert_eq!(schema.callable("name"), None);
    let command = Command::parse("score/set:1").unwrap();
    assert!(matches!(schema.route(&command), Ok(Route::Field { index: 1, .. })));
    let command = Command::parse("set:{}").unwrap();
    assert!(matches!(schema.route(&command), Ok(Route::Assign { .. })));
    let command = Command::parse("call:win:1").unwrap();
    assert!(matches!(schema.route(&command), Ok(Route::Call { index: 0, .. })));
    let command = Command::parse("call:win:").unwrap();
    assert!(matches!(schema.route(&command), Err(Error::WrongArgumentCount)));
    let command = Command::parse("call:score:").unwrap();
    assert!(matches!(schema.route(&command), Err(Error::InvalidCommand)));
    let command = Command::parse("age/set:1").unwrap();
    assert!(matches!(schema.route(&command), Err(Error::PathError)));
    let command = Command::parse("push:1").unwrap();
    assert!(matches!(schema.route(&command), Err(Error::IncompatibleCommand)));
}

#[test]
fn reflectors_record_the_commands_they_carry_out() {
    let mut reply = Reply::new(Vec::new());
    let mut lists: Vec<Option<Vec<u8>>> = vec![None, Some(vec![1])];
    lists.command_str(&mut reply, "1/val/push: 2").unwrap();
    lists.command_str(&mut reply, "1/val/0/set:9").unwrap();
    lists.command_str(&mut reply, "1/val/pop:").unwrap();
    lists.command_str(&mut reply, "0/set:[ 7, 8 ]").unwrap();
    lists.command_str(&mut reply, "0/val/remove:0").unwrap();
    lists.command_str(&mut reply, "1/remove:null").unwrap();
    assert!(lists.command_str(&mut reply, "1/val/pop:").is_err());
    assert!(lists.command_str(&mut reply, "0/val/push:\"x\"").is_err());
    assert!(lists.command_str(&mut reply, "0/val/insert:1 2").is_err());
    lists.command_str(&mut reply, "push:null").unwrap();
    assert_eq!(lists, vec![Some(vec![8]), None, None]);
    let log = reply.into_inner();
    assert!(log.iter().all(|entry| entry.1));
    let texts: Vec<&str> = log.iter().map(|entry| entry.0.as_str()).collect();
    assert_eq!(
        texts,
        vec![
            "1/val/push:2",
            "1/val/0/set:9",
            "1/val/pop:",
            "0/set:[7,8]",
            "0/val/remove:0",
            "1/remove:null",
            "push:null",
        ]
    );
    let mut replica: Vec<Option<Vec<u8>>> = vec![None, Some(vec![1])];
    for text in texts {
        replica.command_str(&mut (), text).unwrap();
    }
    assert_eq!(replica, lists);
}
