use mirror::{Command, Error, Json, Numeric};

fn number(n: u64) -> Json {
    Json::Number(Numeric::PosInt(n))
}

fn text(s: &str) -> Json {
    Json::String(s.to_string())
}

fn path(element: &str, command: Command) -> Command {
    Command::Path { element: element.to_string(), command: Box::new(command) }
}

#[test]
fn parse_call_with_three_arguments() {
    let command = Command::parse("call:foo:1 2 3").unwrap();
    assert_eq!(
        command,
        Command::Call { key: "foo".to_string(), arguments: vec![number(1), number(2), number(3)] }
    );
}

#[test]
fn parse_call_without_arguments() {
    let command = Command::parse("call:foo:").unwrap();
    assert_eq!(command, Command::Call { key: "foo".to_string(), arguments: vec![] });
}

#[test]
fn parse_set_without_value_is_wrong_argument_count() {
    assert!(matches!(Command::parse("set:"), Err(Error::WrongArgumentCount)));
}

#[test]
fn parse_replace_a_sub_tree() {
    assert_eq!(
        Command::parse("foo/bar/set:[128, 129, 130]").unwrap(),
        path(
            "foo",
            path(
                "bar",
                Command::Assign { value: Json::Array(vec![number(128), number(129), number(130)]) }
            )
        )
    );
}

#[test]
fn parse_replace_a_list_element() {
    assert_eq!(
        Command::parse("foo/bar/1/set:5").unwrap(),
        path("foo", path("bar", path("1", Command::Assign { value: number(5) })))
    );
}

#[test]
fn parse_call_with_two_arguments() {
    assert_eq!(
        Command::parse("foo/call:set_bar:16 \"test\"").unwrap(),
        path(
            "foo",
            Command::Call { key: "set_bar".to_string(), arguments: vec![number(16), text("test")] }
        )
    );
}

#[test]
fn parse_push_and_pop() {
    assert_eq!(
        Command::parse("items/push:{\"x\":1}").unwrap(),
        path(
            "items",
            Command::Push { value: Json::Object(vec![("x".to_string(), number(1))]) }
        )
    );
    assert_eq!(Command::parse("items/pop:").unwrap(), path("items", Command::Pop));
    assert_eq!(Command::parse("pop:whatever follows").unwrap(), Command::Pop);
}

#[test]
fn parse_map_insert_and_remove() {
    assert_eq!(
        Command::parse("index/insert:\"alice\" {\"age\":30}").unwrap(),
        path(
            "index",
            Command::Insert {
                key: text("alice"),
                value: Json::Object(vec![("age".to_string(), number(30))])
            }
        )
    );
    assert_eq!(
        Command::parse("index/remove:\"alice\"").unwrap(),
        path("index", Command::Remove { key: text("alice") })
    );
}

#[test]
fn parse_keeps_the_first_value_of_a_single_argument() {
    assert_eq!(Command::parse("set:1 2").unwrap(), Command::Assign { value: number(1) });
    assert_eq!(Command::parse("set:  7  ").unwrap(), Command::Assign { value: number(7) });
    assert_eq!(Command::parse("push:null").unwrap(), Command::Push { value: Json::Null });
    assert_eq!(Command::parse("remove:true").unwrap(), Command::Remove { key: Json::Bool(true) });
}

#[test]
fn parse_keywords_come_before_paths() {
    assert_eq!(
        Command::parse("set:\"a/b\"").unwrap(),
        Command::Assign { value: text("a/b") }
    );
    assert_eq!(
        Command::parse("call:a/b:1").unwrap(),
        Command::Call { key: "a/b".to_string(), arguments: vec![number(1)] }
    );
    assert_eq!(Command::parse("/pop:").unwrap(), path("", Command::Pop));
    assert_eq!(Command::parse("set/pop:").unwrap(), path("set", Command::Pop));
}

#[test]
fn parse_errors() {
    assert!(matches!(Command::parse(""), Err(Error::InvalidCommand)));
    assert!(matches!(Command::parse("pop"), Err(Error::InvalidCommand)));
    assert!(matches!(Command::parse("set"), Err(Error::InvalidCommand)));
    assert!(matches!(Command::parse("call:foo"), Err(Error::InvalidCommand)));
    assert!(matches!(Command::parse("a/b/nothing"), Err(Error::InvalidCommand)));
    assert!(matches!(Command::parse("push:"), Err(Error::WrongArgumentCount)));
    assert!(matches!(Command::parse("remove:   "), Err(Error::WrongArgumentCount)));
    assert!(matches!(Command::parse("insert:1"), Err(Error::WrongArgumentCount)));
    assert!(matches!(Command::parse("a/insert:"), Err(Error::WrongArgumentCount)));
    assert!(matches!(Command::parse("set:[1, 2"), Err(Error::WrongArgumentCount)));
    assert!(matches!(Command::parse("push:\"abc"), Err(Error::WrongArgumentCount)));
    assert!(matches!(Command::parse("remove:{\"a\":"), Err(Error::WrongArgumentCount)));
    assert!(matches!(Command::parse("insert:1 [2"), Err(Error::WrongArgumentCount)));
    assert!(matches!(Command::parse("insert:[1"), Err(Error::WrongArgumentCount)));
    assert!(matches!(Command::parse("call:f:1 [2, "), Err(Error::WrongArgumentCount)));
    assert!(matches!(Command::parse("set:[1, 2}"), Err(Error::Json(_))));
    assert!(matches!(Command::parse("set:nope"), Err(Error::Json(_))));
    assert!(matches!(Command::parse("set:1x"), Err(Error::Json(_))));
    assert!(matches!(Command::parse("insert:1 }"), Err(Error::Json(_))));
    assert!(matches!(Command::parse("call:f:1 2 ]"), Err(Error::Json(_))));
}

#[test]
fn stream_items_one_by_one() {
    assert_eq!(Json::parse_nth("1 \"two\" [3]", 0).unwrap().unwrap(), number(1));
    assert_eq!(Json::parse_nth("1 \"two\" [3]", 1).unwrap().unwrap(), text("two"));
    assert_eq!(
        Json::parse_nth("1 \"two\" [3]", 2).unwrap().unwrap(),
        Json::Array(vec![number(3)])
    );
    assert!(Json::parse_nth("1 \"two\" [3]", 3).is_none());
    assert!(matches!(Json::parse_nth("1 x 3", 1), Some(Err(Error::Json(_)))));
    assert!(matches!(Json::parse_nth("1 [2", 1), Some(Err(Error::WrongArgumentCount))));
    assert!(Json::parse_nth("1 [2", 2).is_none());
    assert!(Json::parse_nth("1 x 3", 2).is_none());
    assert!(Json::parse_nth("", 0).is_none());
}

#[test]
fn documents() {
    assert_eq!(Json::parse(" [1, {\"a\": null}] ").unwrap(), Json::Array(vec![
        number(1),
        Json::Object(vec![("a".to_string(), Json::Null)]),
    ]));
    assert!(matches!(Json::parse("1 2"), Err(Error::Json(_))));
    assert!(matches!(Json::parse(""), Err(Error::Json(_))));
    assert_eq!(Json::parse("-3").unwrap(), Json::Number(Numeric::NegInt(-3)));
    assert_eq!(
        Json::parse("18446744073709551615").unwrap(),
        Json::Number(Numeric::PosInt(u64::MAX))
    );
}

#[test]
fn members_of_an_object() {
    let object = Json::parse("{\"b\": 2, \"a\": 1}").unwrap();
    assert_eq!(object.member("a"), Some(&number(1)));
    assert_eq!(object.member("b"), Some(&number(2)));
    assert_eq!(object.member("c"), None);
    assert_eq!(number(1).member("a"), None);
}

#[test]
fn text_of_values() {
    assert_eq!(Json::Null.to_text(), "null");
    assert_eq!(Json::Bool(false).to_text(), "false");
    assert_eq!(number(12).to_text(), "12");
    assert_eq!(Json::Number(Numeric::NegInt(-12)).to_text(), "-12");
    assert_eq!(text("a \"b\"").to_text(), "\"a \\\"b\\\"\"");
    assert_eq!(Json::Array(vec![number(1), Json::Null]).to_text(), "[1,null]");
    assert_eq!(
        Json::Object(vec![("k".to_string(), Json::Array(vec![]))]).to_text(),
        "{\"k\":[]}"
    );
}

#[test]
fn emit_writes_what_parse_reads() {
    for text in [
        "foo/bar/set:[128,129,130]",
        "foo/bar/1/set:5",
        "foo/call:set_bar:16 \"test\"",
        "items/push:{\"x\":1}",
        "items/pop:",
        "index/insert:\"alice\" {\"age\":30}",
        "index/remove:\"alice\"",
        "call:foo:",
        "call:foo:1 2 3",
        "a/b/c/d/remove:null",
    ] {
        let command = Command::parse(text).unwrap();
        assert_eq!(command.emit(), text);
        assert_eq!(Command::parse(command.emit().as_str()).unwrap(), command);
    }
}

#[test]
fn emit_drops_the_whitespace_between_json_tokens() {
    let command = Command::parse("foo/bar/set:[128, 129, 130]").unwrap();
    assert_eq!(command.emit(), "foo/bar/set:[128,129,130]");
    let command = Command::parse("index/insert:  \"alice\"   { \"age\" : 30 }").unwrap();
    assert_eq!(command.emit(), "index/insert:\"alice\" {\"age\":30}");
    let command = Command::parse("pop:ignored").unwrap();
    assert_eq!(command.emit(), "pop:");
}

#[test]
fn commands_that_come_back() {
    for text in [
        "foo/bar/set:[128, 129, 130]",
        "foo/call:set_bar:16 \"test\"",
        "items/push:{\"x\":1}",
        "items/pop:",
        "index/insert:\"alice\" {\"age\":30}",
        "index/remove:\"alice\"",
        "call:foo:",
    ] {
        assert!(Command::parse(text).unwrap().reads_back());
    }
    let slash = path("a/b", Command::Pop);
    assert!(!slash.reads_back());
    let keyword = path("set:1", Command::Pop);
    assert!(!keyword.reads_back());
    let colon = Command::Call { key: "a:b".to_string(), arguments: vec![] };
    assert!(!colon.reads_back());
    let fraction = Command::parse("set:1.5").unwrap();
    assert!(!fraction.reads_back());
    let unsorted = Command::Assign {
        value: Json::Object(vec![("b".to_string(), number(1)), ("a".to_string(), number(2))]),
    };
    assert!(!unsorted.reads_back());
}

#[test]
fn same_values_and_commands() {
    let a = Json::parse("[1, {\"k\": [true, null, \"x\", -2]}]").unwrap();
    let b = Json::parse("[1,{\"k\":[true,null,\"x\",-2]}]").unwrap();
    assert!(a.same(&b));
    assert!(!a.same(&Json::parse("[1, {\"k\": [true, null, \"x\", -3]}]").unwrap()));
    assert!(!a.same(&Json::parse("[1, {\"j\": [true, null, \"x\", -2]}]").unwrap()));
    assert!(!a.same(&Json::parse("[1]").unwrap()));
    assert!(!Json::Null.same(&Json::Bool(false)));
    assert!(!Json::parse("1.5").unwrap().same(&Json::parse("1.5").unwrap()));
    assert!(!number(1).same(&Json::Number(Numeric::NegInt(1))));
    let c = Command::parse("a/b/insert:1 [2]").unwrap();
    assert!(c.same(&Command::parse("a/b/insert: 1  [ 2 ]").unwrap()));
    assert!(!c.same(&Command::parse("a/c/insert:1 [2]").unwrap()));
    assert!(!c.same(&Command::parse("a/b/insert:1 [3]").unwrap()));
    assert!(!c.same(&Command::parse("a/insert:1 [2]").unwrap()));
    assert!(!c.same(&Command::parse("a/b/remove:1").unwrap()));
    assert!(Command::parse("call:f:1 2").unwrap().same(&Command::parse("call:f:1 2").unwrap()));
    assert!(!Command::parse("call:f:1 2").unwrap().same(&Command::parse("call:f:1").unwrap()));
    assert!(!Command::parse("call:f:1 2").unwrap().same(&Command::parse("call:g:1 2").unwrap()));
}
