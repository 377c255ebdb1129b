//! The command language of the interactive client: one command per line,
//! split into words the way a Unix shell splits them.

use vstd::prelude::*;
use crate::crdt::annotation::{AnnotationView, SpatialAnnotation};
use crate::crdt::environment::{is_listing, stored_state, SpatialEnvironment};
use crate::crdt::ids::AnnotationId;
use crate::crdt::point::{point_parse_spec, Point};
use crate::text::{chars_of, parse_u128, parse_u128_spec, trim, trim_bounds};

verus! {

/// A command of the client.
#[derive(Debug)]
pub enum Command {
    /// Leave the client.
    Exit,
    /// Show the stored annotations.
    List,
    /// Store an annotation under the identifier `id`.
    Add { id: u128, text: String, coord: Point },
}

/// The model of a `Command`, with the text as characters.
pub enum CommandModel {
    Exit,
    List,
    Add { id: u128, text: Seq<char>, coord: Point },
}

impl View for Command {
    type V = CommandModel;

    open spec fn view(&self) -> CommandModel {
        match self {
            Command::Exit => CommandModel::Exit,
            Command::List => CommandModel::List,
            Command::Add { id, text, coord } => CommandModel::Add { id: *id, text: text@, coord: *coord },
        }
    }
}

/// Why a line is not a command.
#[derive(Debug, Clone, Copy, PartialEq, Eq, Structural)]
pub enum CommandError {
    EmptyInput,
    UnknownCommand,
    IncorrectArgumentCount,
    UnmatchedQuote,
    NotU128,
    NotString,
    NotPointFormated,
}

impl CommandError {
    /// The message that tells the user what went wrong.
    pub fn message(&self) -> (r: &'static str)
        ensures
            r@ == command_error_message(*self),
    {
        let r = match self {
            CommandError::EmptyInput => "Empty input",
            CommandError::UnknownCommand => "Unknown command",
            CommandError::IncorrectArgumentCount => "Incorrect argument count",
            CommandError::UnmatchedQuote => "Unmatched quote",
            CommandError::NotU128 => "Argument should be a u128",
            CommandError::NotString => "Argument should be a String",
            CommandError::NotPointFormated => "Argument should be a (x, y)",
        };
        r
    }
}

/// The message of each parse error.
pub open spec fn command_error_message(e: CommandError) -> Seq<char> {
    match e {
        CommandError::EmptyInput => "Empty input"@,
        CommandError::UnknownCommand => "Unknown command"@,
        CommandError::IncorrectArgumentCount => "Incorrect argument count"@,
        CommandError::UnmatchedQuote => "Unmatched quote"@,
        CommandError::NotU128 => "Argument should be a u128"@,
        CommandError::NotString => "Argument should be a String"@,
        CommandError::NotPointFormated => "Argument should be a (x, y)"@,
    }
}

pub open spec fn word_exit() -> Seq<char> {
    seq!['e', 'x', 'i', 't']
}

pub open spec fn word_list() -> Seq<char> {
    seq!['l', 'i', 's', 't']
}

pub open spec fn word_add() -> Seq<char> {
    seq!['a', 'd', 'd']
}

pub open spec fn word_edit() -> Seq<char> {
    seq!['e', 'd', 'i', 't']
}

pub open spec fn word_move() -> Seq<char> {
    seq!['m', 'o', 'v', 'e']
}

pub open spec fn word_delete() -> Seq<char> {
    seq!['d', 'e', 'l', 'e', 't', 'e']
}

pub open spec fn word_sync() -> Seq<char> {
    seq!['s', 'y', 'n', 'c']
}

/// The words name a command that the client has no implementation of yet
/// (`edit`, `move`, `delete` with their arguments, or `sync`).
pub open spec fn is_unfinished(t: Seq<Seq<char>>) -> bool {
    &&& t.len() > 0
    &&& {
        ||| (t[0] == word_edit() && t.len() >= 3)
        ||| (t[0] == word_move() && t.len() >= 4)
        ||| (t[0] == word_delete() && t.len() >= 2)
        ||| t[0] == word_sync()
    }
}

/// The command that the words `t` spell, for words that name no unfinished
/// command.
pub open spec fn command_spec(t: Seq<Seq<char>>) -> Result<CommandModel, CommandError> {
    if t.len() == 0 {
        Err(CommandError::EmptyInput)
    } else if t[0] == word_exit() {
        Ok(CommandModel::Exit)
    } else if t[0] == word_list() {
        Ok(CommandModel::List)
    } else if t[0] == word_add() {
        if t.len() < 4 {
            Err(CommandError::IncorrectArgumentCount)
        } else {
            match parse_u128_spec(t[1]) {
                None => Err(CommandError::NotU128),
                Some(id) => match point_parse_spec(t[2]) {
                    Err(_) => Err(CommandError::NotPointFormated),
                    Ok(coord) => Ok(CommandModel::Add { id, text: t[3], coord }),
                },
            }
        }
    } else if t[0] == word_edit() || t[0] == word_move() || t[0] == word_delete() {
        Err(CommandError::IncorrectArgumentCount)
    } else {
        Err(CommandError::UnknownCommand)
    }
}

/// The model of a parse result.
pub open spec fn result_model(r: Result<Command, CommandError>) -> Result<CommandModel, CommandError> {
    match r {
        Ok(c) => Ok(c@),
        Err(e) => Err(e),
    }
}

/// Whether the text `s` is the word `w`.
fn is_word(s: &String, w: &str) -> (r: bool)
    ensures
        r == (s@ == w@),
{
    let a = chars_of(s.as_str());
    let b = chars_of(w);
    if a.len() != b.len() {
        return false;
    }
    for i in 0..a.len()
        invariant
            a@ == s@,
            b@ == w@,
            a@.len() == b@.len(),
            forall|j: int| 0 <= j < i ==> a@[j] == b@[j],
    {
        if a[i] != b[i] {
            return false;
        }
    }
    assert(a@ =~= b@);
    true
}

/// The command that the words `tokens` spell.
pub fn parse_tokens(tokens: &Vec<String>) -> (r: Result<Command, CommandError>)
    requires
        !is_unfinished(tokens.deep_view()),
    ensures
        result_model(r) == command_spec(tokens.deep_view()),
{
    let ghost t = tokens.deep_view();
    proof {
        reveal_strlit("exit");
        reveal_strlit("list");
        reveal_strlit("add");
        reveal_strlit("edit");
        reveal_strlit("move");
        reveal_strlit("delete");
        assert("exit"@ =~= word_exit());
        assert("list"@ =~= word_list());
        assert("add"@ =~= word_add());
        assert("edit"@ =~= word_edit());
        assert("move"@ =~= word_move());
        assert("delete"@ =~= word_delete());
    }
    if tokens.len() == 0 {
        return Err(CommandError::EmptyInput);
    }
    assert(t[0] == tokens@[0]@);
    let cmd = &tokens[0];
    if is_word(cmd, "exit") {
        Ok(Command::Exit)
    } else if is_word(cmd, "list") {
        Ok(Command::List)
    } else if is_word(cmd, "add") {
        if tokens.len() < 4 {
            return Err(CommandError::IncorrectArgumentCount);
        }
        assert(t[1] == tokens@[1]@ && t[2] == tokens@[2]@ && t[3] == tokens@[3]@);
        let id_chars = chars_of(tokens[1].as_str());
        let id = match parse_u128(&id_chars, 0, id_chars.len()) {
            Some(id) => id,
            None => {
                assert(id_chars@.subrange(0, id_chars@.len() as int) =~= t[1]);
                return Err(CommandError::NotU128);
            },
        };
        assert(id_chars@.subrange(0, id_chars@.len() as int) =~= t[1]);
        let coord = match Point::parse(tokens[2].as_str()) {
            Ok(p) => p,
            Err(_) => return Err(CommandError::NotPointFormated),
        };
        let text = tokens[3].clone();
        Ok(Command::Add { id, text, coord })
    } else if is_word(cmd, "edit") || is_word(cmd, "move") || is_word(cmd, "delete") {
        Err(CommandError::IncorrectArgumentCount)
    } else {
        Err(CommandError::UnknownCommand)
    }
}


/// The words that `shell_words::split` makes of a line, or `None` where the
/// line holds an unmatched quote.
pub uninterp spec fn shell_split(line: Seq<char>) -> Option<Seq<Seq<char>>>;

#[verifier::external_type_specification]
#[verifier::external_body]
pub struct ExShellWordsParseError(shell_words::ParseError);

/// Calls `shell_words::split`, which splits a line into words as a Unix shell
/// does (quotes, backslashes, comments) and fails on an unmatched quote. The
/// words are stated as `shell_split` of the line; nothing more is claimed.
#[verifier::external_body]
fn split_words(line: &str) -> (r: Result<Vec<String>, shell_words::ParseError>)
    ensures
        r is Ok <==> shell_split(line@) is Some,
        r matches Ok(words) ==> shell_split(line@) == Some(words.deep_view()),
{
    shell_words::split(line)
}

/// What the client makes of the line `line`: the trimmed line split into
/// words, then the command those words spell; `None` where they name an
/// unfinished command.
pub open spec fn parse_outcome(line: Seq<char>) -> Option<Result<CommandModel, CommandError>> {
    match shell_split(trim(line)) {
        None => Some(Err(CommandError::UnmatchedQuote)),
        Some(t) => if is_unfinished(t) {
            None
        } else {
            Some(command_spec(t))
        },
    }
}

/// Whether the words name an unfinished command.
pub fn unfinished(tokens: &Vec<String>) -> (r: bool)
    ensures
        r == is_unfinished(tokens.deep_view()),
{
    let ghost t = tokens.deep_view();
    proof {
        reveal_strlit("edit");
        reveal_strlit("move");
        reveal_strlit("delete");
        reveal_strlit("sync");
        assert("edit"@ =~= word_edit());
        assert("move"@ =~= word_move());
        assert("delete"@ =~= word_delete());
        assert("sync"@ =~= word_sync());
    }
    if tokens.len() == 0 {
        return false;
    }
    assert(t[0] == tokens@[0]@);
    let cmd = &tokens[0];
    (is_word(cmd, "edit") && tokens.len() >= 3) || (is_word(cmd, "move") && tokens.len() >= 4)
        || (is_word(cmd, "delete") && tokens.len() >= 2) || is_word(cmd, "sync")
}

/// Reads a command from a line of input. Returns `None` where the line names
/// a command that the client does not implement yet.
pub fn parse_command(line: &str) -> (r: Option<Result<Command, CommandError>>)
    ensures
        match r {
            None => parse_outcome(line@) is None,
            Some(x) => parse_outcome(line@) == Some(result_model(x)),
        },
{
    let chars = chars_of(line);
    let (a, b) = trim_bounds(&chars, 0, chars.len());
    assert(chars@.subrange(0, chars@.len() as int) =~= line@);
    let trimmed = line.substring_char(a, b);
    match split_words(trimmed) {
        Err(_) => Some(Err(CommandError::UnmatchedQuote)),
        Ok(tokens) => {
            if unfinished(&tokens) {
                None
            } else {
                Some(parse_tokens(&tokens))
            }
        },
    }
}

/// What the client does after a command.
#[derive(Debug)]
pub enum Outcome {
    /// Leave the client.
    Quit,
    /// Show these annotations.
    Listing(Vec<SpatialAnnotation>),
    /// The annotation was stored under this identifier.
    Created(AnnotationId),
}

/// Carries out `cmd` on the replica `env`.
pub fn handle_command(env: &mut SpatialEnvironment, cmd: Command) -> (r: Outcome)
    requires
        old(env).wf(),
    ensures
        final(env).wf(),
        final(env).owner() == old(env).owner(),
        cmd@ is Exit ==> r is Quit && final(env)@ == old(env)@,
        cmd@ is List ==> {
            &&& final(env)@ == old(env)@
            &&& r matches Outcome::Listing(v) && is_listing(old(env)@, v@)
        },
        cmd@ matches CommandModel::Add { id, text, coord } ==> {
            let aid = AnnotationId(id);
            &&& r == Outcome::Created(aid)
            &&& final(env)@ == old(env)@.insert(
                id,
                stored_state(
                    aid,
                    AnnotationView { id: Some(aid), coord: Some(coord), text: Some(text) },
                    old(env).owner(),
                    final(env)@[id].coord.time,
                ),
            )
            &&& final(env)@[id].coord.time.nanos < 1_000_000_000
        },
{
    match cmd {
        Command::Exit => Outcome::Quit,
        Command::List => Outcome::Listing(env.list_annotation()),
        Command::Add { id, text, coord } => {
            let aid = env.create_annotation(
                SpatialAnnotation::new(Some(AnnotationId::new(id)), coord, text),
            );
            Outcome::Created(aid)
        },
    }
}

} // verus!
