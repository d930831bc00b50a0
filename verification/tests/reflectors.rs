use mirror::{Command, Dictionary, Error, FromJson, Hidden, Json, Numeric, Reflect, ToJson};
use std::collections::{HashMap, VecDeque};

fn number(n: u64) -> Json {
    Json::Number(Numeric::PosInt(n))
}

#[test]
fn set_replaces_a_string() {
    let mut test = String::from("test");
    test.command_str(&mut (), "set:\"foo bar\"").unwrap();
    assert_eq!(test, String::from("foo bar"));
}

#[test]
fn primitives_take_set_only() {
    let mut flag = false;
    flag.command_str(&mut (), "set:true").unwrap();
    assert!(flag);
    assert!(matches!(flag.command_str(&mut (), "set:1"), Err(Error::Json(_))));
    assert!(matches!(flag.command_str(&mut (), "push:true"), Err(Error::IncompatibleCommand)));
    assert!(matches!(flag.command_str(&mut (), "pop:"), Err(Error::IncompatibleCommand)));
    assert!(matches!(flag.command_str(&mut (), "insert:1 2"), Err(Error::IncompatibleCommand)));
    assert!(matches!(flag.command_str(&mut (), "remove:1"), Err(Error::IncompatibleCommand)));
    assert!(matches!(flag.command_str(&mut (), "call:f:"), Err(Error::IncompatibleCommand)));
    assert!(matches!(flag.command_str(&mut (), "a/set:true"), Err(Error::IncompatibleCommand)));
    assert!(flag);
}

#[test]
fn integers_are_read_within_their_range() {
    assert_eq!(u8::from_json(&number(255)).unwrap(), 255);
    assert!(matches!(u8::from_json(&number(256)), Err(Error::Json(_))));
    assert_eq!(i8::from_json(&Json::Number(Numeric::NegInt(-128))).unwrap(), -128);
    assert!(matches!(i8::from_json(&Json::Number(Numeric::NegInt(-129))), Err(Error::Json(_))));
    assert!(matches!(i8::from_json(&number(128)), Err(Error::Json(_))));
    assert_eq!(u64::from_json(&number(u64::MAX)).unwrap(), u64::MAX);
    assert!(matches!(i64::from_json(&number(u64::MAX)), Err(Error::Json(_))));
    assert_eq!(i64::from_json(&number(i64::MAX as u64)).unwrap(), i64::MAX);
    assert_eq!(i64::from_json(&Json::Number(Numeric::NegInt(i64::MIN))).unwrap(), i64::MIN);
    assert!(matches!(u64::from_json(&Json::Number(Numeric::NegInt(-1))), Err(Error::Json(_))));
    assert_eq!(u16::from_json(&Json::Number(Numeric::NegInt(7))).unwrap(), 7);
    assert!(matches!(u32::from_json(&Json::parse("1.5").unwrap()), Err(Error::Json(_))));
    assert!(matches!(u32::from_json(&Json::parse("1.0").unwrap()), Err(Error::Json(_))));
    assert!(matches!(usize::from_json(&Json::Null), Err(Error::Json(_))));
    assert!(matches!(isize::from_json(&Json::String("1".to_string())), Err(Error::Json(_))));
    let mut n: i32 = 0;
    n.command_str(&mut (), "set:-17").unwrap();
    assert_eq!(n, -17);
    assert!(matches!(n.command_str(&mut (), "set:2147483648"), Err(Error::Json(_))));
    assert_eq!(n, -17);
}

#[test]
fn integers_are_written_as_numbers() {
    assert_eq!(7u8.to_json(), number(7));
    assert_eq!(u64::MAX.to_json(), number(u64::MAX));
    assert_eq!((-7i16).to_json(), Json::Number(Numeric::NegInt(-7)));
    assert_eq!(7i64.to_json(), number(7));
    assert_eq!(i64::MIN.to_json().to_text(), "-9223372036854775808");
    assert_eq!(true.to_json(), Json::Bool(true));
    assert_eq!("a".to_string().to_json(), Json::String("a".to_string()));
}

#[test]
fn tuples_are_arrays() {
    let mut pair: (u8, String) = (0, String::new());
    pair.command_str(&mut (), "set:[3, \"x\"]").unwrap();
    assert_eq!(pair, (3, "x".to_string()));
    assert!(matches!(pair.command_str(&mut (), "set:[3]"), Err(Error::Json(_))));
    assert!(matches!(pair.command_str(&mut (), "set:[3, \"x\", 1]"), Err(Error::Json(_))));
    assert!(matches!(pair.command_str(&mut (), "set:[\"x\", 3]"), Err(Error::Json(_))));
    assert!(matches!(pair.command_str(&mut (), "0/set:1"), Err(Error::IncompatibleCommand)));
    assert_eq!(pair.to_json().to_text(), "[3,\"x\"]");
    let mut triple: (bool, i8, u64) = (false, 0, 0);
    triple.command_str(&mut (), "set:[true, -1, 2]").unwrap();
    assert_eq!(triple, (true, -1, 2));
    assert_eq!(triple.to_json().to_text(), "[true,-1,2]");
    assert!(matches!(triple.command_str(&mut (), "set:[true, -1]"), Err(Error::Json(_))));
}

#[test]
fn list_commands() {
    let mut list: Vec<u64> = vec![0, 1, 2];
    list.command_str(&mut (), "set:[128, 129, 130]").unwrap();
    assert_eq!(list, vec![128, 129, 130]);
    list.command_str(&mut (), "1/set:5").unwrap();
    assert_eq!(list, vec![128, 5, 130]);
    list.command_str(&mut (), "+2/set:6").unwrap();
    assert_eq!(list, vec![128, 5, 6]);
    list.command_str(&mut (), "push:7").unwrap();
    list.command_str(&mut (), "remove:0").unwrap();
    assert_eq!(list, vec![5, 6, 7]);
    list.command_str(&mut (), "pop:").unwrap();
    assert_eq!(list, vec![5, 6]);
    assert_eq!(list.to_json().to_text(), "[5,6]");
}

#[test]
fn list_refusals() {
    let mut list: Vec<u64> = vec![5, 6];
    assert!(matches!(list.command_str(&mut (), "2/set:5"), Err(Error::PathError)));
    assert!(matches!(list.command_str(&mut (), "x/set:5"), Err(Error::ParseIntError(_))));
    assert!(matches!(list.command_str(&mut (), "-1/set:5"), Err(Error::ParseIntError(_))));
    assert!(matches!(list.command_str(&mut (), " 1/set:5"), Err(Error::ParseIntError(_))));
    assert!(matches!(list.command_str(&mut (), "/set:5"), Err(Error::ParseIntError(_))));
    assert!(matches!(
        list.command_str(&mut (), "99999999999999999999999/set:5"),
        Err(Error::ParseIntError(_))
    ));
    assert!(matches!(list.command_str(&mut (), "0/set:-5"), Err(Error::Json(_))));
    assert!(matches!(list.command_str(&mut (), "0/set:{"), Err(Error::WrongArgumentCount)));
    assert!(matches!(list.command_str(&mut (), "0/set:}"), Err(Error::Json(_))));
    assert!(matches!(list.command_str(&mut (), "set:[1, \"a\"]"), Err(Error::Json(_))));
    assert!(matches!(list.command_str(&mut (), "set:1"), Err(Error::Json(_))));
    assert!(matches!(list.command_str(&mut (), "push:\"a\""), Err(Error::Json(_))));
    assert!(matches!(list.command_str(&mut (), "remove:\"a\""), Err(Error::Json(_))));
    assert!(matches!(list.command_str(&mut (), "remove:2"), Err(Error::PathError)));
    assert!(matches!(list.command_str(&mut (), "insert:0 1"), Err(Error::IncompatibleCommand)));
    assert!(matches!(list.command_str(&mut (), "call:f:"), Err(Error::IncompatibleCommand)));
    assert!(matches!(list.command_str(&mut (), "0/pop:"), Err(Error::IncompatibleCommand)));
    assert_eq!(list, vec![5, 6]);
    let mut empty: Vec<u64> = Vec::new();
    empty.command_str(&mut (), "pop:").unwrap();
    assert!(empty.is_empty());
}

#[test]
fn nested_lists() {
    let mut grid: Vec<Vec<u8>> = vec![vec![1, 2], vec![3]];
    grid.command_str(&mut (), "1/push:4").unwrap();
    grid.command_str(&mut (), "0/1/set:9").unwrap();
    grid.command_str(&mut (), "push:[]").unwrap();
    assert_eq!(grid, vec![vec![1, 9], vec![3, 4], vec![]]);
    assert!(matches!(grid.command_str(&mut (), "0/2/set:9"), Err(Error::PathError)));
    assert_eq!(grid.to_json().to_text(), "[[1,9],[3,4],[]]");
}

#[test]
fn queue_commands() {
    let mut queue: VecDeque<u64> = VecDeque::new();
    queue.command_str(&mut (), "set:[1, 2, 3]").unwrap();
    assert_eq!(queue, VecDeque::from(vec![1, 2, 3]));
    queue.command_str(&mut (), "0/set:9").unwrap();
    queue.command_str(&mut (), "push:4").unwrap();
    queue.command_str(&mut (), "remove:1").unwrap();
    assert_eq!(queue, VecDeque::from(vec![9, 3, 4]));
    queue.command_str(&mut (), "remove:7").unwrap();
    assert_eq!(queue, VecDeque::from(vec![9, 3, 4]));
    queue.command_str(&mut (), "pop:").unwrap();
    assert_eq!(queue, VecDeque::from(vec![9, 3]));
    assert!(matches!(queue.command_str(&mut (), "2/set:1"), Err(Error::PathError)));
    assert!(matches!(queue.command_str(&mut (), "a/set:1"), Err(Error::ParseIntError(_))));
    assert!(matches!(queue.command_str(&mut (), "insert:1 2"), Err(Error::IncompatibleCommand)));
    assert_eq!(queue.to_json().to_text(), "[9,3]");
}

#[test]
fn array_commands() {
    let mut array: [u8; 3] = [0, 0, 0];
    array.command_str(&mut (), "set:[1, 2, 3]").unwrap();
    assert_eq!(array, [1, 2, 3]);
    array.command_str(&mut (), "2/set:9").unwrap();
    assert_eq!(array, [1, 2, 9]);
    assert!(matches!(array.command_str(&mut (), "3/set:9"), Err(Error::PathError)));
    assert!(matches!(array.command_str(&mut (), "set:[1, 2]"), Err(Error::Json(_))));
    assert!(matches!(array.command_str(&mut (), "set:[1, 2, 3, 4]"), Err(Error::Json(_))));
    assert!(matches!(array.command_str(&mut (), "set:[1, 2, 300]"), Err(Error::Json(_))));
    assert!(matches!(array.command_str(&mut (), "push:1"), Err(Error::IncompatibleCommand)));
    assert!(matches!(array.command_str(&mut (), "pop:"), Err(Error::IncompatibleCommand)));
    assert!(matches!(array.command_str(&mut (), "remove:0"), Err(Error::IncompatibleCommand)));
    assert_eq!(array, [1, 2, 9]);
    assert_eq!(array.to_json().to_text(), "[1,2,9]");
}

#[test]
fn optional_field() {
    let mut opt: Option<i32> = None;
    assert!(matches!(opt.command_str(&mut (), "val/set:5"), Err(Error::PathError)));
    opt.command_str(&mut (), "set:5").unwrap();
    assert_eq!(opt, Some(5));
    opt.command_str(&mut (), "val/set:6").unwrap();
    assert_eq!(opt, Some(6));
    assert!(matches!(opt.command_str(&mut (), "value/set:7"), Err(Error::PathError)));
    assert!(matches!(opt.command_str(&mut (), "set:null"), Err(Error::Json(_))));
    assert!(matches!(opt.command_str(&mut (), "push:1"), Err(Error::IncompatibleCommand)));
    assert_eq!(opt, Some(6));
    assert_eq!(opt.to_json().to_text(), "6");
    opt.command_str(&mut (), "remove:null").unwrap();
    assert_eq!(opt, None);
    assert_eq!(opt.to_json().to_text(), "null");
    assert_eq!(Option::<i32>::from_json(&Json::Null).unwrap(), None);
    assert_eq!(Option::<i32>::from_json(&number(3)).unwrap(), Some(3));
}

#[test]
fn map_commands() {
    let mut map: HashMap<u32, String> = HashMap::new();
    map.command_str(&mut (), "insert:1 \"one\"").unwrap();
    map.command_str(&mut (), "insert:2 \"two\"").unwrap();
    map.command_str(&mut (), "1/set:\"uno\"").unwrap();
    assert_eq!(map.get(&1), Some(&"uno".to_string()));
    assert_eq!(map.get(&2), Some(&"two".to_string()));
    map.command_str(&mut (), "remove:2").unwrap();
    map.command_str(&mut (), "remove:2").unwrap();
    assert_eq!(map.len(), 1);
    assert!(matches!(map.command_str(&mut (), "2/set:\"dos\""), Err(Error::PathError)));
    assert!(matches!(map.command_str(&mut (), "x/set:\"dos\""), Err(Error::Json(_))));
    assert!(matches!(map.command_str(&mut (), "\"1\"/set:\"dos\""), Err(Error::Json(_))));
    assert!(matches!(map.command_str(&mut (), "1/set:1"), Err(Error::Json(_))));
    assert!(matches!(map.command_str(&mut (), "insert:\"a\" \"b\""), Err(Error::Json(_))));
    assert!(matches!(map.command_str(&mut (), "insert:3 4"), Err(Error::Json(_))));
    assert!(matches!(map.command_str(&mut (), "remove:\"a\""), Err(Error::Json(_))));
    assert!(matches!(map.command_str(&mut (), "push:1"), Err(Error::IncompatibleCommand)));
    assert!(matches!(map.command_str(&mut (), "pop:"), Err(Error::IncompatibleCommand)));
    assert_eq!(map.get(&1), Some(&"uno".to_string()));
    map.command_str(&mut (), "set:{\"7\": \"seven\", \"8\": \"eight\"}").unwrap();
    assert_eq!(map.len(), 2);
    assert_eq!(map.get(&7), Some(&"seven".to_string()));
    assert_eq!(map.get(&8), Some(&"eight".to_string()));
    assert!(matches!(map.command_str(&mut (), "set:{\"a\": \"b\"}"), Err(Error::Json(_))));
    assert!(matches!(map.command_str(&mut (), "set:[1]"), Err(Error::Json(_))));
    assert_eq!(map.len(), 2);
}

#[test]
fn hidden_values_are_invisible() {
    let mut hidden = Hidden::new(5u8);
    assert_eq!(hidden.as_ref(), Some(&5));
    *hidden.as_mut().unwrap() = 6;
    assert_eq!(hidden.as_ref(), Some(&6));
    assert_eq!(hidden.to_json(), Json::Null);
    assert!(matches!(hidden.command_str(&mut (), "set:7"), Err(Error::IncompatibleCommand)));
    assert!(matches!(hidden.command_str(&mut (), "val/set:7"), Err(Error::IncompatibleCommand)));
    assert!(matches!(hidden.command_str(&mut (), "pop:"), Err(Error::IncompatibleCommand)));
    assert_eq!(hidden.as_ref(), Some(&6));
    let mut back = Hidden::<u8>::from_json(&hidden.to_json()).unwrap();
    assert_eq!(back.as_ref(), None);
    assert!(back.as_mut().is_none());
    let read = Hidden::<u8>::from_json(&number(9)).unwrap();
    assert_eq!(read.as_ref(), None);
}

#[test]
fn set_twice_is_set_once() {
    let mut once: Vec<u64> = vec![1];
    let mut twice: Vec<u64> = vec![1];
    once.command_str(&mut (), "set:[4, 5]").unwrap();
    twice.command_str(&mut (), "set:[4, 5]").unwrap();
    twice.command_str(&mut (), "set:[4, 5]").unwrap();
    assert_eq!(once, twice);
    let mut once: Option<u8> = None;
    let mut twice: Option<u8> = Some(1);
    once.command_str(&mut (), "set:9").unwrap();
    twice.command_str(&mut (), "set:9").unwrap();
    twice.command_str(&mut (), "set:9").unwrap();
    assert_eq!(once, twice);
}

#[test]
fn push_then_pop_gives_the_list_back() {
    let mut list: Vec<String> = vec!["a".to_string(), "b".to_string()];
    list.command_str(&mut (), "push:\"c\"").unwrap();
    assert_eq!(list.len(), 3);
    list.command_str(&mut (), "pop:").unwrap();
    assert_eq!(list, vec!["a".to_string(), "b".to_string()]);
    let mut queue: VecDeque<u8> = VecDeque::new();
    queue.command_str(&mut (), "push:1").unwrap();
    queue.command_str(&mut (), "pop:").unwrap();
    assert!(queue.is_empty());
}

#[test]
fn a_path_is_the_command_on_the_child() {
    let mut whole: Vec<Option<Vec<u8>>> = vec![None, Some(vec![1, 2, 3])];
    let mut child: Vec<u8> = vec![1, 2, 3];
    whole.command_str(&mut (), "1/val/remove:1").unwrap();
    child.command_str(&mut (), "remove:1").unwrap();
    assert_eq!(whole[1].as_ref().unwrap(), &child);
    assert!(matches!(whole.command_str(&mut (), "1/val/5/set:1"), Err(Error::PathError)));
    assert!(matches!(child.command_str(&mut (), "5/set:1"), Err(Error::PathError)));
    assert_eq!(whole[1].as_ref().unwrap(), &child);
    let command = Command::parse("1/val/push:4").unwrap();
    whole.command(&mut (), &command).unwrap();
    assert_eq!(whole, vec![None, Some(vec![1, 3, 4])]);
}

#[test]
fn dictionary_commands() {
    let mut index: Dictionary<Dictionary<u32>> = Dictionary::new();
    index.command_str(&mut (), "insert:\"alice\" {\"age\":30}").unwrap();
    index.command_str(&mut (), "insert:\"bob\" {\"age\":40, \"size\":2}").unwrap();
    assert_eq!(index.len(), 2);
    assert_eq!(index.get("alice").unwrap().get("age"), Some(&30));
    index.command_str(&mut (), "\"alice\"/\"age\"/set:31").unwrap();
    index.command_str(&mut (), "\"bob\"/remove:\"age\"").unwrap();
    assert_eq!(index.get("alice").unwrap().get("age"), Some(&31));
    assert_eq!(index.get("bob").unwrap().get("age"), None);
    assert_eq!(index.get("bob").unwrap().get("size"), Some(&2));
    assert_eq!(index.to_json().to_text(), "{\"alice\":{\"age\":31},\"bob\":{\"size\":2}}");
    index.command_str(&mut (), "insert:\"alice\" {}").unwrap();
    assert_eq!(index.len(), 2);
    assert_eq!(index.get("alice").unwrap().len(), 0);
    index.command_str(&mut (), "remove:\"alice\"").unwrap();
    index.command_str(&mut (), "remove:\"alice\"").unwrap();
    assert_eq!(index.len(), 1);
    assert!(index.get("alice").is_none());
    assert!(matches!(index.command_str(&mut (), "\"alice\"/set:{}"), Err(Error::PathError)));
    assert!(matches!(index.command_str(&mut (), "alice/set:{}"), Err(Error::Json(_))));
    assert!(matches!(index.command_str(&mut (), "1/set:{}"), Err(Error::Json(_))));
    assert!(matches!(index.command_str(&mut (), "insert:1 {}"), Err(Error::Json(_))));
    assert!(matches!(index.command_str(&mut (), "insert:\"a\" 1"), Err(Error::Json(_))));
    assert!(matches!(index.command_str(&mut (), "remove:1"), Err(Error::Json(_))));
    assert!(matches!(index.command_str(&mut (), "set:[]"), Err(Error::Json(_))));
    assert!(matches!(index.command_str(&mut (), "set:{\"a\": 1}"), Err(Error::Json(_))));
    assert!(matches!(index.command_str(&mut (), "push:1"), Err(Error::IncompatibleCommand)));
    assert!(matches!(index.command_str(&mut (), "pop:"), Err(Error::IncompatibleCommand)));
    assert_eq!(index.len(), 1);
    index.command_str(&mut (), "set:{\"x\": {\"one\": 1}, \"y\": {}}").unwrap();
    assert_eq!(index.len(), 2);
    assert_eq!(index.get("x").unwrap().get("one"), Some(&1));
    let mut plain: Dictionary<u8> = Dictionary::new();
    plain.insert("b".to_string(), 1);
    plain.insert("a".to_string(), 2);
    plain.insert("b".to_string(), 3);
    assert_eq!(plain.to_json(), Json::Object(vec![
        ("b".to_string(), number(3)),
        ("a".to_string(), number(2)),
    ]));
    assert_eq!(plain.remove("b"), Some(3));
    assert_eq!(plain.remove("b"), None);
    assert_eq!(plain.len(), 1);
}

#[test]
fn larger_tuples_are_arrays() {
    let mut five: (u8, bool, String, i16, u64) = (0, false, String::new(), 0, 0);
    five.command_str(&mut (), "set:[1, true, \"x\", -2, 3]").unwrap();
    assert_eq!(five, (1, true, "x".to_string(), -2, 3));
    assert!(matches!(five.command_str(&mut (), "set:[1, true, \"x\", -2]"), Err(Error::Json(_))));
    assert!(matches!(
        five.command_str(&mut (), "set:[1, true, \"x\", -2, \"3\"]"),
        Err(Error::Json(_))
    ));
    assert_eq!(five.to_json().to_text(), "[1,true,\"x\",-2,3]");
    let mut twelve: (u8, u8, u8, u8, u8, u8, u8, u8, u8, u8, u8, u8) =
        (0, 0, 0, 0, 0, 0, 0, 0, 0, 0, 0, 0);
    twelve.command_str(&mut (), "set:[1,2,3,4,5,6,7,8,9,10,11,12]").unwrap();
    assert_eq!(twelve, (1, 2, 3, 4, 5, 6, 7, 8, 9, 10, 11, 12));
    assert_eq!(twelve.to_json().to_text(), "[1,2,3,4,5,6,7,8,9,10,11,12]");
    assert!(matches!(
        twelve.command_str(&mut (), "set:[1,2,3,4,5,6,7,8,9,10,11,12,13]"),
        Err(Error::Json(_))
    ));
    assert!(matches!(twelve.command_str(&mut (), "0/set:1"), Err(Error::IncompatibleCommand)));
}
