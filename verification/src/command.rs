//! The command language: its tree, its parser and its writer.

use vstd::prelude::*;
use vstd::string::*;
use crate::error::{Error, ErrorKind};
use crate::json::{
    all_whole, json_stream_item, json_text, lemma_all_whole, lemma_views, lemma_views_push,
    same_items, views, whole, Json, JsonView, StreamItem,
};

verus! {

broadcast use vstd::seq::group_seq_axioms;

/// A single command that a reflective value can carry out.
///
/// A command is wrapped in zero or more `Path` levels that lead to the child
/// it is meant for; every other variant is terminal.
#[derive(Debug, PartialEq)]
#[allow(inconsistent_fields)]
pub enum Command {
    /// Go to the child that `element` denotes and carry out `command` there.
    /// Written `element/command`.
    Path { element: String, command: Box<Command> },
    /// Replace the whole value by what `value` decodes to. Written
    /// `set:value`.
    Assign { value: Json },
    /// Append what `value` decodes to to a list. Written `push:value`.
    Push { value: Json },
    /// Drop the last element of a list. Written `pop:`.
    Pop,
    /// Bind `key` to `value` in a container. Written `insert:key value`.
    Insert { key: Json, value: Json },
    /// Take `key` out of a container. Written `remove:key`.
    Remove { key: Json },
    /// Invoke the callable named `key` with `arguments`. Written
    /// `call:key:argument argument ...`.
    Call { key: String, arguments: Vec<Json> },
}

/// The mathematical counterpart of [`Command`].
#[allow(inconsistent_fields)]
pub enum CommandView {
    Path { element: Seq<char>, command: Box<CommandView> },
    Assign { value: JsonView },
    Push { value: JsonView },
    Pop,
    Insert { key: JsonView, value: JsonView },
    Remove { key: JsonView },
    Call { key: Seq<char>, arguments: Seq<JsonView> },
}

impl View for Command {
    type V = CommandView;

    open spec fn view(&self) -> CommandView
        decreases self,
    {
        match self {
            Command::Path { element, command } => CommandView::Path {
                element: element@,
                command: Box::new((**command).view()),
            },
            Command::Assign { value } => CommandView::Assign { value: value@ },
            Command::Push { value } => CommandView::Push { value: value@ },
            Command::Pop => CommandView::Pop,
            Command::Insert { key, value } => CommandView::Insert { key: key@, value: value@ },
            Command::Remove { key } => CommandView::Remove { key: key@ },
            Command::Call { key, arguments } => CommandView::Call {
                key: key@,
                arguments: views(arguments@),
            },
        }
    }
}

/// The keyword of each terminal command, colon included.
pub open spec fn keyword_set() -> Seq<char> {
    seq!['s', 'e', 't', ':']
}

pub open spec fn keyword_push() -> Seq<char> {
    seq!['p', 'u', 's', 'h', ':']
}

pub open spec fn keyword_pop() -> Seq<char> {
    seq!['p', 'o', 'p', ':']
}

pub open spec fn keyword_insert() -> Seq<char> {
    seq!['i', 'n', 's', 'e', 'r', 't', ':']
}

pub open spec fn keyword_remove() -> Seq<char> {
    seq!['r', 'e', 'm', 'o', 'v', 'e', ':']
}

pub open spec fn keyword_call() -> Seq<char> {
    seq!['c', 'a', 'l', 'l', ':']
}

/// Whether `text` begins with `prefix`.
pub open spec fn starts_with(text: Seq<char>, prefix: Seq<char>) -> bool {
    prefix.len() <= text.len() && text.subrange(0, prefix.len() as int) == prefix
}

/// Whether `text` begins with the keyword of a terminal command.
pub open spec fn is_terminal(text: Seq<char>) -> bool {
    ||| starts_with(text, keyword_set())
    ||| starts_with(text, keyword_push())
    ||| starts_with(text, keyword_pop())
    ||| starts_with(text, keyword_insert())
    ||| starts_with(text, keyword_remove())
    ||| starts_with(text, keyword_call())
}

/// Whether `at` is the place of the first `symbol` in `text`.
pub open spec fn is_first(text: Seq<char>, symbol: char, at: int) -> bool {
    &&& 0 <= at < text.len()
    &&& text[at] == symbol
    &&& forall|j: int| 0 <= j < at ==> text[j] != symbol
}

/// The place of the first `symbol` in `text`, if it occurs.
pub open spec fn first(text: Seq<char>, symbol: char) -> Option<int> {
    if exists|at: int| is_first(text, symbol, at) {
        Some(choose|at: int| is_first(text, symbol, at))
    } else {
        None
    }
}

/// The first occurrence is unique, so finding one determines [`first`].
pub proof fn lemma_first_found(text: Seq<char>, symbol: char, at: int)
    requires
        is_first(text, symbol, at),
    ensures
        first(text, symbol) == Some(at),
{
}

/// A symbol that does not occur has no first place.
pub proof fn lemma_first_absent(text: Seq<char>, symbol: char)
    requires
        forall|j: int| 0 <= j < text.len() ==> text[j] != symbol,
    ensures
        first(text, symbol) is None,
{
}

/// The `index`-th argument of a terminal command whose arguments are `text`:
/// missing where the text has ended before it or within it, an error where
/// it is malformed. A text holds no more arguments than characters.
pub open spec fn argument(text: Seq<char>, index: nat) -> Result<JsonView, ErrorKind> {
    if index >= text.len() {
        Err(ErrorKind::WrongArgumentCount)
    } else {
        match json_stream_item(text, index) {
            StreamItem::End => Err(ErrorKind::WrongArgumentCount),
            StreamItem::Value(value) => Ok(value),
            StreamItem::Truncated => Err(ErrorKind::WrongArgumentCount),
            StreamItem::Malformed => Err(ErrorKind::Json),
        }
    }
}

/// All arguments of `text` from the `from`-th on, or the error of the first
/// one that cannot be read: the text ends within it, or it is malformed.
pub open spec fn arguments(text: Seq<char>, from: nat) -> Result<Seq<JsonView>, ErrorKind>
    decreases text.len() - from,
{
    if from >= text.len() {
        Ok(Seq::empty())
    } else {
        match json_stream_item(text, from) {
            StreamItem::End => Ok(Seq::empty()),
            StreamItem::Truncated => Err(ErrorKind::WrongArgumentCount),
            StreamItem::Malformed => Err(ErrorKind::Json),
            StreamItem::Value(value) => match arguments(text, from + 1) {
                Ok(rest) => Ok(seq![value] + rest),
                Err(error) => Err(error),
            },
        }
    }
}

/// What a text means as a command.
///
/// The keywords of the terminal commands are tried first, in the order `set:`,
/// `push:`, `pop:`, `insert:`, `remove:`, `call:`. A text that begins with
/// none of them and holds a `/` is a path: what stands before the first `/`
/// is the element, what follows is parsed in turn. Anything else is not a
/// command.
pub open spec fn parse_spec(text: Seq<char>) -> Result<CommandView, ErrorKind>
    decreases text.len(),
{
    if starts_with(text, keyword_set()) {
        match argument(text.skip(4), 0) {
            Ok(value) => Ok(CommandView::Assign { value }),
            Err(error) => Err(error),
        }
    } else if starts_with(text, keyword_push()) {
        match argument(text.skip(5), 0) {
            Ok(value) => Ok(CommandView::Push { value }),
            Err(error) => Err(error),
        }
    } else if starts_with(text, keyword_pop()) {
        Ok(CommandView::Pop)
    } else if starts_with(text, keyword_insert()) {
        match argument(text.skip(7), 0) {
            Ok(key) => match argument(text.skip(7), 1) {
                Ok(value) => Ok(CommandView::Insert { key, value }),
                Err(error) => Err(error),
            },
            Err(error) => Err(error),
        }
    } else if starts_with(text, keyword_remove()) {
        match argument(text.skip(7), 0) {
            Ok(key) => Ok(CommandView::Remove { key }),
            Err(error) => Err(error),
        }
    } else if starts_with(text, keyword_call()) {
        let rest = text.skip(5);
        match first(rest, ':') {
            Some(colon) => match arguments(rest.skip(colon + 1), 0) {
                Ok(arguments) => Ok(CommandView::Call { key: rest.take(colon), arguments }),
                Err(error) => Err(error),
            },
            None => Err(ErrorKind::InvalidCommand),
        }
    } else {
        match first(text, '/') {
            Some(slash) => match parse_spec(text.skip(slash + 1)) {
                Ok(command) => Ok(
                    CommandView::Path { element: text.take(slash), command: Box::new(command) },
                ),
                Err(error) => Err(error),
            },
            None => Err(ErrorKind::InvalidCommand),
        }
    }
}

/// What a parse result stands for.
pub open spec fn parsed(result: Result<Command, Error>) -> Result<CommandView, ErrorKind> {
    match result {
        Ok(command) => Ok(command@),
        Err(error) => Err(error@),
    }
}

/// Whether `text` begins with `prefix`.
fn has_prefix(text: &str, prefix: &str) -> (found: bool)
    ensures
        found == starts_with(text@, prefix@),
{
    let length = text.unicode_len();
    let width = prefix.unicode_len();
    if width > length {
        return false;
    }
    let head = text.substring_char(0, width);
    let mut i: usize = 0;
    while i < width
        invariant
            i <= width <= text@.len(),
            width == prefix@.len(),
            head@ == text@.subrange(0, width as int),
            forall|j: int| 0 <= j < i ==> head@[j] == prefix@[j],
        decreases width - i,
    {
        if head.get_char(i) != prefix.get_char(i) {
            return false;
        }
        i += 1;
    }
    assert(head@ =~= prefix@);
    true
}

/// Whether two texts are the same.
pub fn same_text(left: &str, right: &str) -> (same: bool)
    ensures
        same == (left@ == right@),
{
    let same = has_prefix(left, right) && left.unicode_len() == right.unicode_len();
    assert(same ==> left@ =~= right@);
    assert(left@ == right@ ==> left@.subrange(0, right@.len() as int) =~= right@);
    same
}

/// The text from its `from`-th character on.
fn tail(text: &str, from: usize) -> (rest: &str)
    requires
        from <= text@.len(),
    ensures
        rest@ == text@.skip(from as int),
{
    let length = text.unicode_len();
    text.substring_char(from, length)
}

/// The place of the first `symbol` in `text`.
fn find(text: &str, symbol: char) -> (place: Option<usize>)
    ensures
        match place {
            Some(at) => first(text@, symbol) == Some(at as int) && at < text@.len() <= usize::MAX,
            None => first(text@, symbol) is None,
        },
{
    let length = text.unicode_len();
    let mut at: usize = 0;
    for c in iter: text.chars()
        invariant
            length == text@.len(),
            iter.seq() == text@,
            at == iter.index(),
            forall|j: int| 0 <= j < at ==> text@[j] != symbol,
    {
        if c == symbol {
            proof {
                lemma_first_found(text@, symbol, at as int);
            }
            return Some(at);
        }
        at += 1;
    }
    proof {
        lemma_first_absent(text@, symbol);
    }
    None
}

/// Reads the `index`-th argument of a terminal command.
fn read_argument(text: &str, index: usize) -> (result: Result<Json, Error>)
    ensures
        match result {
            Ok(value) => argument(text@, index as nat) == Ok::<JsonView, ErrorKind>(value@),
            Err(error) => argument(text@, index as nat) == Err::<JsonView, ErrorKind>(error@),
        },
{
    match Json::parse_nth(text, index) {
        None => Err(Error::WrongArgumentCount),
        Some(Ok(value)) => Ok(value),
        Some(Err(error)) => Err(error),
    }
}

/// Reads all arguments of a call.
fn read_arguments(text: &str) -> (result: Result<Vec<Json>, Error>)
    ensures
        match result {
            Ok(values) => arguments(text@, 0) == Ok::<Seq<JsonView>, ErrorKind>(views(values@)),
            Err(error) => arguments(text@, 0) == Err::<Seq<JsonView>, ErrorKind>(error@),
        },
{
    let length = text.unicode_len();
    let mut values: Vec<Json> = Vec::new();
    let mut index: usize = 0;
    loop
        invariant
            index <= length == text@.len(),
            arguments(text@, 0) == match arguments(text@, index as nat) {
                Ok(rest) => Ok::<Seq<JsonView>, ErrorKind>(views(values@) + rest),
                Err(error) => Err(error),
            },
        decreases length - index,
    {
        match Json::parse_nth(text, index) {
            None => {
                return Ok(values);
            },
            Some(Err(error)) => {
                return Err(error);
            },
            Some(Ok(value)) => {
                proof {
                    let before = views(values@);
                    let after = views(values@.push(value));
                    lemma_views_push(values@, value);
                    match arguments(text@, (index + 1) as nat) {
                        Ok(rest) => {
                            assert(after + rest =~= before + (seq![value@] + rest));
                        },
                        Err(_) => {},
                    }
                }
                values.push(value);
                index += 1;
            },
        }
    }
}

impl Command {
    /// Parses a command from its text.
    ///
    /// The result is exactly what [`parse_spec`] says of the text: the
    /// command it denotes, or the error it is refused with.
    pub fn parse(command: &str) -> (result: Result<Command, Error>)
        ensures
            parsed(result) == parse_spec(command@),
        decreases command@.len(),
    {
        proof {
            reveal_strlit("set:");
            reveal_strlit("push:");
            reveal_strlit("pop:");
            reveal_strlit("insert:");
            reveal_strlit("remove:");
            reveal_strlit("call:");
            assert("set:"@ =~= keyword_set());
            assert("push:"@ =~= keyword_push());
            assert("pop:"@ =~= keyword_pop());
            assert("insert:"@ =~= keyword_insert());
            assert("remove:"@ =~= keyword_remove());
            assert("call:"@ =~= keyword_call());
        }
        if has_prefix(command, "set:") {
            match read_argument(tail(command, 4), 0) {
                Ok(value) => Ok(Command::Assign { value }),
                Err(error) => Err(error),
            }
        } else if has_prefix(command, "push:") {
            match read_argument(tail(command, 5), 0) {
                Ok(value) => Ok(Command::Push { value }),
                Err(error) => Err(error),
            }
        } else if has_prefix(command, "pop:") {
            Ok(Command::Pop)
        } else if has_prefix(command, "insert:") {
            let rest = tail(command, 7);
            match read_argument(rest, 0) {
                Ok(key) => match read_argument(rest, 1) {
                    Ok(value) => Ok(Command::Insert { key, value }),
                    Err(error) => Err(error),
                },
                Err(error) => Err(error),
            }
        } else if has_prefix(command, "remove:") {
            match read_argument(tail(command, 7), 0) {
                Ok(key) => Ok(Command::Remove { key }),
                Err(error) => Err(error),
            }
        } else if has_prefix(command, "call:") {
            let rest = tail(command, 5);
            match find(rest, ':') {
                Some(colon) => {
                    let key = rest.substring_char(0, colon).to_owned();
                    match read_arguments(tail(rest, colon + 1)) {
                        Ok(arguments) => Ok(Command::Call { key, arguments }),
                        Err(error) => Err(error),
                    }
                },
                None => Err(Error::InvalidCommand),
            }
        } else {
            match find(command, '/') {
                Some(slash) => {
                    let element = command.substring_char(0, slash).to_owned();
                    match Command::parse(tail(command, slash + 1)) {
                        Ok(inner) => Ok(Command::Path { element, command: Box::new(inner) }),
                        Err(error) => Err(error),
                    }
                },
                None => Err(Error::InvalidCommand),
            }
        }
    }
}

/// The texts of the arguments of a call, with a space between each two.
pub open spec fn spaced(arguments: Seq<JsonView>) -> Seq<char>
    decreases arguments.len(),
{
    if arguments.len() == 0 {
        Seq::empty()
    } else if arguments.len() == 1 {
        json_text(arguments[0])
    } else {
        spaced(arguments.drop_last()) + seq![' '] + json_text(arguments.last())
    }
}

/// The text that a command is written as: the elements of its path, each
/// followed by a `/`, and then the keyword of the terminal command and its
/// arguments in compact JSON.
pub open spec fn emit_spec(command: CommandView) -> Seq<char>
    decreases command,
{
    match command {
        CommandView::Path { element, command } => element + seq!['/'] + emit_spec(*command),
        CommandView::Assign { value } => keyword_set() + json_text(value),
        CommandView::Push { value } => keyword_push() + json_text(value),
        CommandView::Pop => keyword_pop(),
        CommandView::Insert { key, value } => keyword_insert() + json_text(key) + seq![' ']
            + json_text(value),
        CommandView::Remove { key } => keyword_remove() + json_text(key),
        CommandView::Call { key, arguments } => keyword_call() + key + seq![':'] + spaced(
            arguments,
        ),
    }
}

/// The terminal command at the end of the path of a command.
pub open spec fn terminal(command: CommandView) -> CommandView
    decreases command,
{
    match command {
        CommandView::Path { element, command } => terminal(*command),
        _ => command,
    }
}

/// Every command ends in a terminal command: at the end of its path stands a
/// command that is no path.
pub proof fn lemma_terminal_is_no_path(command: CommandView)
    ensures
        !(terminal(command) is Path),
    decreases command,
{
    match command {
        CommandView::Path { element, command: inner } => {
            lemma_terminal_is_no_path(*inner);
        },
        _ => {},
    }
}

/// The text of the path of a command: each element followed by a `/`.
pub open spec fn path_text(command: CommandView) -> Seq<char>
    decreases command,
{
    match command {
        CommandView::Path { element, command } => element + seq!['/'] + path_text(*command),
        _ => Seq::empty(),
    }
}

/// Whether the elements of the path of a command can be told from the text:
/// none holds a `/`, and none begins with the keyword of a terminal command.
pub open spec fn plain_path(command: CommandView) -> bool
    decreases command,
{
    match command {
        CommandView::Path { element, command } => !element.contains('/') && !is_terminal(element)
            && plain_path(*command),
        _ => true,
    }
}

impl Command {
    /// Writes the command as text.
    pub fn emit(&self) -> (text: String)
        ensures
            text@ == emit_spec(self@),
        decreases self,
    {
        proof {
            reveal_strlit("set:");
            reveal_strlit("push:");
            reveal_strlit("pop:");
            reveal_strlit("insert:");
            reveal_strlit("remove:");
            reveal_strlit("call:");
            reveal_strlit("/");
            reveal_strlit(" ");
            reveal_strlit(":");
        }
        match self {
            Command::Path { element, command } => {
                let mut text = element.clone();
                text.append("/");
                text.append(command.emit().as_str());
                text
            },
            Command::Assign { value } => {
                let mut text = "set:".to_owned();
                text.append(value.to_text().as_str());
                text
            },
            Command::Push { value } => {
                let mut text = "push:".to_owned();
                text.append(value.to_text().as_str());
                text
            },
            Command::Pop => "pop:".to_owned(),
            Command::Insert { key, value } => {
                let mut text = "insert:".to_owned();
                text.append(key.to_text().as_str());
                text.append(" ");
                text.append(value.to_text().as_str());
                text
            },
            Command::Remove { key } => {
                let mut text = "remove:".to_owned();
                text.append(key.to_text().as_str());
                text
            },
            Command::Call { key, arguments } => {
                let mut text = "call:".to_owned();
                text.append(key.as_str());
                text.append(":");
                let ghost head = text@;
                let ghost all = views(arguments@);
                proof {
                    lemma_views(arguments@);
                }
                let mut i: usize = 0;
                while i < arguments.len()
                    invariant
                        i <= arguments.len(),
                        " "@ == seq![' '],
                        all == views(arguments@),
                        all.len() == arguments@.len(),
                        forall|j: int| 0 <= j < all.len() ==> (#[trigger] all[j]) == arguments@[j]@,
                        text@ == head + spaced(all.take(i as int)),
                    decreases arguments.len() - i,
                {
                    proof {
                        assert(all.take(i + 1).drop_last() =~= all.take(i as int));
                    }
                    if i > 0 {
                        text.append(" ");
                    }
                    text.append(arguments[i].to_text().as_str());
                    i += 1;
                }
                assert(all.take(i as int) =~= all);
                text
            },
        }
    }
}

/// Whether `keyword` is the keyword of a terminal command.
pub open spec fn is_keyword(keyword: Seq<char>) -> bool {
    ||| keyword == keyword_set()
    ||| keyword == keyword_push()
    ||| keyword == keyword_pop()
    ||| keyword == keyword_insert()
    ||| keyword == keyword_remove()
    ||| keyword == keyword_call()
}

/// No keyword holds a `/`.
pub proof fn lemma_keyword_has_no_slash(keyword: Seq<char>, at: int)
    requires
        is_keyword(keyword),
        0 <= at < keyword.len(),
    ensures
        keyword[at] != '/',
{
}

/// A text that begins with a keyword begins with it whatever follows, and a
/// text that ends in front of a `/` is what begins with the keyword if the
/// text with the `/` behind it does.
proof fn lemma_prefix_before_slash(element: Seq<char>, rest: Seq<char>, keyword: Seq<char>)
    requires
        is_keyword(keyword),
    ensures
        starts_with(element + seq!['/'] + rest, keyword) == starts_with(element, keyword),
{
    let text = element + seq!['/'] + rest;
    if starts_with(text, keyword) {
        if keyword.len() > element.len() {
            lemma_keyword_has_no_slash(keyword, element.len() as int);
        }
        assert(element.subrange(0, keyword.len() as int) =~= text.subrange(
            0,
            keyword.len() as int,
        ));
    }
    if starts_with(element, keyword) {
        assert(text.subrange(0, keyword.len() as int) =~= element.subrange(
            0,
            keyword.len() as int,
        ));
    }
}

/// A path is parsed element by element: where `element` holds no `/` and does
/// not begin with a keyword, the text `element/rest` is the command of `rest`
/// behind the element, and fails as `rest` does.
pub proof fn lemma_parse_path(element: Seq<char>, rest: Seq<char>)
    requires
        !element.contains('/'),
        !is_terminal(element),
    ensures
        parse_spec(element + seq!['/'] + rest) == match parse_spec(rest) {
            Ok(command) => Ok::<CommandView, ErrorKind>(
                CommandView::Path { element, command: Box::new(command) },
            ),
            Err(error) => Err(error),
        },
{
    let text = element + seq!['/'] + rest;
    lemma_prefix_before_slash(element, rest, keyword_set());
    lemma_prefix_before_slash(element, rest, keyword_push());
    lemma_prefix_before_slash(element, rest, keyword_pop());
    lemma_prefix_before_slash(element, rest, keyword_insert());
    lemma_prefix_before_slash(element, rest, keyword_remove());
    lemma_prefix_before_slash(element, rest, keyword_call());
    assert forall|j: int| 0 <= j < element.len() implies text[j] != '/' by {}
    lemma_first_found(text, '/', element.len() as int);
    assert(text.skip(element.len() as int + 1) =~= rest);
    assert(text.take(element.len() as int) =~= element);
}

/// What is parsed can be told from the text: the elements of the path of a
/// parsed command hold no `/` and do not begin with a keyword.
pub proof fn lemma_parsed_path_is_plain(text: Seq<char>)
    requires
        parse_spec(text) is Ok,
    ensures
        plain_path(parse_spec(text)->Ok_0),
    decreases text.len(),
{
    if !is_terminal(text) {
        let slash = first(text, '/')->Some_0;
        let element = text.take(slash);
        lemma_parsed_path_is_plain(text.skip(slash + 1));
        assert(text =~= element + seq!['/'] + text.skip(slash + 1));
        lemma_prefix_before_slash(element, text.skip(slash + 1), keyword_set());
        lemma_prefix_before_slash(element, text.skip(slash + 1), keyword_push());
        lemma_prefix_before_slash(element, text.skip(slash + 1), keyword_pop());
        lemma_prefix_before_slash(element, text.skip(slash + 1), keyword_insert());
        lemma_prefix_before_slash(element, text.skip(slash + 1), keyword_remove());
        lemma_prefix_before_slash(element, text.skip(slash + 1), keyword_call());
    }
}

/// A text that begins with a keyword is parsed as a terminal command, if it
/// is a command at all.
pub proof fn lemma_parsed_terminal(text: Seq<char>)
    requires
        is_terminal(text),
        parse_spec(text) is Ok,
    ensures
        !(parse_spec(text)->Ok_0 is Path),
{
}

/// A command that does not begin with a keyword is a path: the text in front
/// of its first `/` is the element, and the text behind it is a command.
pub proof fn lemma_parsed_path(text: Seq<char>)
    requires
        !is_terminal(text),
        parse_spec(text) is Ok,
    ensures
        first(text, '/') is Some,
        is_first(text, '/', first(text, '/')->Some_0),
        parse_spec(text.skip(first(text, '/')->Some_0 + 1)) is Ok,
        parse_spec(text)->Ok_0 == (CommandView::Path {
            element: text.take(first(text, '/')->Some_0),
            command: Box::new(parse_spec(text.skip(first(text, '/')->Some_0 + 1))->Ok_0),
        }),
{
}

/// Writing what was parsed gives the text back as far as the path goes: the
/// written text and the parsed text begin with the same path, behind which
/// the one holds the terminal command as it is written and the other a text
/// that is parsed as that terminal command.
pub proof fn lemma_emit_of_parsed(text: Seq<char>)
    requires
        parse_spec(text) is Ok,
    ensures
        ({
            let command = parse_spec(text)->Ok_0;
            let path = path_text(command);
            &&& path.len() <= text.len()
            &&& text.take(path.len() as int) == path
            &&& is_terminal(text.skip(path.len() as int))
            &&& parse_spec(text.skip(path.len() as int)) == Ok::<CommandView, ErrorKind>(
                terminal(command),
            )
            &&& emit_spec(command) == path + emit_spec(terminal(command))
        }),
    decreases text.len(),
{
    if is_terminal(text) {
        lemma_parsed_terminal(text);
        assert(text.skip(0) =~= text);
    } else {
        lemma_parsed_path(text);
        let slash = first(text, '/')->Some_0;
        let rest = text.skip(slash + 1);
        lemma_emit_of_parsed(rest);
        lemma_join_path(text, slash, path_text(parse_spec(rest)->Ok_0).len() as int);
    }
}

/// Taking an element, the `/` behind it, and some of what follows is taking
/// as much from the front.
proof fn lemma_join_path(text: Seq<char>, slash: int, more: int)
    requires
        0 <= slash < text.len(),
        text[slash] == '/',
        0 <= more <= text.len() - slash - 1,
    ensures
        text.take(slash + 1 + more) == text.take(slash) + seq!['/'] + text.skip(slash + 1).take(
            more,
        ),
        text.skip(slash + 1 + more) == text.skip(slash + 1).skip(more),
{
}

/// Parsing what was written gives the command back, if parsing gives its
/// terminal command back: for a command whose path can be told from the text,
/// reading the written text adds the path to what reading the written
/// terminal command gives. Whether the terminal command is read back as it
/// was is up to the JSON codec, which has to read what it wrote.
pub proof fn lemma_parse_of_emitted(command: CommandView)
    requires
        plain_path(command),
        parse_spec(emit_spec(terminal(command))) == Ok::<CommandView, ErrorKind>(terminal(command)),
    ensures
        parse_spec(emit_spec(command)) == Ok::<CommandView, ErrorKind>(command),
    decreases command,
{
    match command {
        CommandView::Path { element, command: inner } => {
            lemma_parse_of_emitted(*inner);
            lemma_parse_path(element, emit_spec(*inner));
        },
        _ => {},
    }
}

/// Parsing, writing and parsing again gives what parsing gave, if the JSON
/// codec reads the written terminal command as it was.
pub proof fn lemma_parse_emit_parse(text: Seq<char>)
    requires
        parse_spec(text) is Ok,
        parse_spec(emit_spec(terminal(parse_spec(text)->Ok_0))) == Ok::<CommandView, ErrorKind>(
            terminal(parse_spec(text)->Ok_0),
        ),
    ensures
        parse_spec(emit_spec(parse_spec(text)->Ok_0)) == parse_spec(text),
{
    lemma_parsed_path_is_plain(text);
    lemma_parse_of_emitted(parse_spec(text)->Ok_0);
}

/// Whether the JSON codec reads the arguments of a terminal command as they
/// were when it is given the text that it wrote for them: one value for
/// `set:`, `push:` and `remove:`, two values with a space between them for
/// `insert:`, and all arguments with a space between each two for `call:`.
/// The name of a callable must hold no `:`.
pub open spec fn codec_reads_back(command: CommandView) -> bool {
    match command {
        CommandView::Path { .. } => false,
        CommandView::Assign { value } => argument(json_text(value), 0) == Ok::<
            JsonView,
            ErrorKind,
        >(value),
        CommandView::Push { value } => argument(json_text(value), 0) == Ok::<JsonView, ErrorKind>(
            value,
        ),
        CommandView::Pop => true,
        CommandView::Insert { key, value } => {
            let text = json_text(key) + seq![' '] + json_text(value);
            &&& argument(text, 0) == Ok::<JsonView, ErrorKind>(key)
            &&& argument(text, 1) == Ok::<JsonView, ErrorKind>(value)
        },
        CommandView::Remove { key } => argument(json_text(key), 0) == Ok::<JsonView, ErrorKind>(
            key,
        ),
        CommandView::Call { key, arguments: values } => !key.contains(':') && arguments(
            spaced(values),
            0,
        ) == Ok::<Seq<JsonView>, ErrorKind>(values),
    }
}

/// A terminal command is parsed back from the text it is written as, if the
/// JSON codec reads its arguments back.
pub proof fn lemma_terminal_parses_back(command: CommandView)
    requires
        codec_reads_back(command),
    ensures
        parse_spec(emit_spec(command)) == Ok::<CommandView, ErrorKind>(command),
{
    let text = emit_spec(command);
    match command {
        CommandView::Path { .. } => {},
        CommandView::Assign { value } => {
            assert(text.subrange(0, 4) =~= keyword_set());
            assert(text.skip(4) =~= json_text(value));
        },
        CommandView::Push { value } => {
            assert(text.subrange(0, 5) =~= keyword_push());
            assert(text.skip(5) =~= json_text(value));
        },
        CommandView::Pop => {
            assert(text.subrange(0, 4) =~= keyword_pop());
        },
        CommandView::Insert { key, value } => {
            assert(text.subrange(0, 7) =~= keyword_insert());
            assert(text.skip(7) =~= json_text(key) + seq![' '] + json_text(value));
        },
        CommandView::Remove { key } => {
            assert(text.subrange(0, 7) =~= keyword_remove());
            assert(text.skip(7) =~= json_text(key));
        },
        CommandView::Call { key, arguments: values } => {
            assert(text.subrange(0, 5) =~= keyword_call());
            let rest = text.skip(5);
            assert forall|j: int| 0 <= j < key.len() implies rest[j] != ':' by {}
            lemma_first_found(rest, ':', key.len() as int);
            assert(rest.take(key.len() as int) =~= key);
            assert(rest.skip(key.len() as int + 1) =~= spaced(values));
        },
    }
}

/// Parsing what was written gives the command back, if the JSON codec reads
/// the arguments of its terminal command back: the round trip of a command
/// whose path can be told from the text rests on the codec alone.
pub proof fn lemma_round_trip(command: CommandView)
    requires
        plain_path(command),
        codec_reads_back(terminal(command)),
    ensures
        parse_spec(emit_spec(command)) == Ok::<CommandView, ErrorKind>(command),
{
    lemma_terminal_parses_back(terminal(command));
    lemma_parse_of_emitted(command);
}

/// Whether a command holds integers only where its arguments hold numbers.
pub open spec fn whole_command(command: CommandView) -> bool
    decreases command,
{
    match command {
        CommandView::Path { element, command } => whole_command(*command),
        CommandView::Assign { value } => whole(value),
        CommandView::Push { value } => whole(value),
        CommandView::Pop => true,
        CommandView::Insert { key, value } => whole(key) && whole(value),
        CommandView::Remove { key } => whole(key),
        CommandView::Call { key, arguments } => all_whole(arguments),
    }
}

impl Command {
    /// Whether two commands are the same: the same path, the same terminal
    /// command, the same arguments. Numbers that are not integers are not
    /// compared: a command that holds one is the same as no command.
    pub fn same(&self, other: &Command) -> (same: bool)
        ensures
            same == (self@ == other@ && whole_command(self@)),
        decreases self,
    {
        match (self, other) {
            (
                Command::Path { element: a, command: inner },
                Command::Path { element: b, command: other_inner },
            ) => {
                let same = same_text(a.as_str(), b.as_str()) && inner.same(other_inner);
                same
            },
            (Command::Assign { value: a }, Command::Assign { value: b }) => {
                let same = a.same(b);
                same
            },
            (Command::Push { value: a }, Command::Push { value: b }) => {
                let same = a.same(b);
                same
            },
            (Command::Pop, Command::Pop) => {
                true
            },
            (
                Command::Insert { key: a, value: c },
                Command::Insert { key: b, value: d },
            ) => {
                let same = a.same(b) && c.same(d);
                same
            },
            (Command::Remove { key: a }, Command::Remove { key: b }) => {
                let same = a.same(b);
                same
            },
            (
                Command::Call { key: a, arguments: c },
                Command::Call { key: b, arguments: d },
            ) => {
                proof {
                    lemma_views(c@);
                    lemma_views(d@);
                    lemma_all_whole(views(c@));
                }
                if !same_text(a.as_str(), b.as_str()) || c.len() != d.len() {
                    return false;
                }
                let same = same_items(c, d, 0);
                proof {
                    if same {
                        assert(views(c@) =~= views(d@));
                    } else {
                        let j = choose|j: int|
                            0 <= j < c@.len() && !(c@[j]@ == d@[j]@ && whole(c@[j]@));
                        assert(views(d@)[j] == d@[j]@);
                    }
                }
                same
            },
            _ => {
                false
            },
        }
    }

    /// Whether the command comes back when it is written and the text is
    /// parsed: the test of the round trip for this command. A command that
    /// holds a number that is not an integer is not compared and counts as
    /// not coming back.
    pub fn reads_back(&self) -> (back: bool)
        ensures
            back == (parse_spec(emit_spec(self@)) == Ok::<CommandView, ErrorKind>(self@)
                && whole_command(self@)),
    {
        let text = self.emit();
        match Command::parse(text.as_str()) {
            Ok(parsed) => parsed.same(self),
            Err(_) => false,
        }
    }
}

} // verus!
