//! Commands: turning an input line into a typed command, and deciding what
//! each command does.
use vstd::prelude::*;
use vstd::string::StringExecFns;

use crate::index::ExecutableIndex;
use crate::text::{
    join_spaced, join_with, lemma_split_on_nonempty, parse_i32, parse_i32_str, split_on,
    split_str, trim, trim_str, views,
};

verus! {

/// The tokens of an input line: the trimmed line split at each single
/// space, or none at all where the line is blank.
pub open spec fn tokens(line: Seq<char>) -> Seq<Seq<char>> {
    let t = trim(line);
    if t.len() == 0 {
        Seq::empty()
    } else {
        split_on(t, ' ')
    }
}

/// Whether `name` is one of the builtin commands.
pub open spec fn is_builtin(name: Seq<char>) -> bool {
    name == "exit"@ || name == "echo"@ || name == "type"@
}

/// A command, as its parts' character sequences.
pub enum CommandView {
    Empty,
    Exit(i32),
    Echo(Seq<char>),
    TypeQuery(Seq<char>),
    Invocation(Seq<char>, Seq<Seq<char>>),
}

/// A parse error, as its command name's character sequence.
pub enum ParseErrorView {
    UnknownCommand(Seq<char>),
    MalformedArgument(Seq<char>),
}

/// What one input line means, given the executable index.
pub open spec fn parse_spec(line: Seq<char>, index: ExecutableIndex) -> Result<
    CommandView,
    ParseErrorView,
> {
    let ts = tokens(line);
    if ts.len() == 0 {
        Ok(CommandView::Empty)
    } else if ts[0] == "exit"@ {
        if ts.len() == 1 {
            Ok(CommandView::Exit(0))
        } else {
            match parse_i32(ts[1]) {
                Some(code) => if ts.len() == 2 {
                    Ok(CommandView::Exit(code))
                } else {
                    Err(ParseErrorView::MalformedArgument("exit"@))
                },
                None => Err(ParseErrorView::MalformedArgument("exit"@)),
            }
        }
    } else if ts[0] == "echo"@ {
        Ok(CommandView::Echo(join_with(ts.skip(1), ' ')))
    } else if ts[0] == "type"@ {
        Ok(CommandView::TypeQuery(join_with(ts.skip(1), ' ')))
    } else {
        match index.resolve(ts[0]) {
            Some(dir) => Ok(CommandView::Invocation(dir + "/"@ + ts[0], ts.skip(1))),
            None => Err(ParseErrorView::UnknownCommand(ts[0])),
        }
    }
}

/// A command parsed from one input line.
#[derive(Clone, Debug, PartialEq, Eq)]
pub enum Command {
    /// The line was blank.
    Empty,
    /// End the process with this exit status.
    Exit(i32),
    /// Print this text.
    Echo(String),
    /// Tell what this name resolves to.
    TypeQuery(String),
    /// Run the program at `path` with `args`.
    Invocation { path: String, args: Vec<String> },
}

impl View for Command {
    type V = CommandView;

    open spec fn view(&self) -> CommandView {
        match self {
            Command::Empty => CommandView::Empty,
            Command::Exit(code) => CommandView::Exit(*code),
            Command::Echo(text) => CommandView::Echo(text@),
            Command::TypeQuery(name) => CommandView::TypeQuery(name@),
            Command::Invocation { path, args } => CommandView::Invocation(path@, views(args@)),
        }
    }
}

/// Why an input line could not be parsed.
#[derive(Clone, Debug, PartialEq, Eq)]
pub enum ParseError {
    /// The command name is neither a builtin nor in the executable index.
    UnknownCommand(String),
    /// A builtin was given arguments it cannot take.
    MalformedArgument(String),
}

impl View for ParseError {
    type V = ParseErrorView;

    open spec fn view(&self) -> ParseErrorView {
        match self {
            ParseError::UnknownCommand(name) => ParseErrorView::UnknownCommand(name@),
            ParseError::MalformedArgument(name) => ParseErrorView::MalformedArgument(name@),
        }
    }
}

/// The line that reports a parse error.
pub open spec fn error_message(e: ParseErrorView) -> Seq<char> {
    match e {
        ParseErrorView::UnknownCommand(name) => name + ": command not found"@,
        ParseErrorView::MalformedArgument(name) => "Error during parse of command "@ + name,
    }
}

impl ParseError {
    /// The line that reports this error.
    pub fn message(&self) -> (r: String)
        ensures
            r@ == error_message(self@),
    {
        match self {
            ParseError::UnknownCommand(name) => name.clone().concat(": command not found"),
            ParseError::MalformedArgument(name) => String::from_str(
                "Error during parse of command ",
            ).concat(name.as_str()),
        }
    }
}

/// Parses one input line against the executable index.
pub fn parse_command(input: &str, index: &ExecutableIndex) -> (r: Result<Command, ParseError>)
    ensures
        match r {
            Ok(c) => parse_spec(input@, *index) == Ok::<CommandView, ParseErrorView>(c@),
            Err(e) => parse_spec(input@, *index) == Err::<CommandView, ParseErrorView>(e@),
        },
{
    let t = trim_str(input);
    if t.unicode_len() == 0 {
        return Ok(Command::Empty);
    }
    let mut parts = split_str(t.as_str(), ' ');
    proof {
        lemma_split_on_nonempty(t@, ' ');
    }
    let ghost ts = views(parts@);
    assert(ts == tokens(input@));
    let name = parts.remove(0);
    assert(views(parts@) =~= ts.skip(1));
    assert(views(parts@).skip(0) =~= ts.skip(1));
    assert(name@ == ts[0]);
    if name == String::from_str("exit") {
        if parts.len() == 0 {
            Ok(Command::Exit(0))
        } else {
            match parse_i32_str(parts[0].as_str()) {
                Some(code) => if parts.len() == 1 {
                    Ok(Command::Exit(code))
                } else {
                    Err(ParseError::MalformedArgument(name))
                },
                None => Err(ParseError::MalformedArgument(name)),
            }
        }
    } else if name == String::from_str("echo") {
        Ok(Command::Echo(join_spaced(&parts, 0)))
    } else if name == String::from_str("type") {
        Ok(Command::TypeQuery(join_spaced(&parts, 0)))
    } else {
        match index.lookup(&name) {
            Some(dir) => {
                let path = dir.concat("/").concat(name.as_str());
                Ok(Command::Invocation { path, args: parts })
            },
            None => Err(ParseError::UnknownCommand(name)),
        }
    }
}

/// What the interpreter does for one line, as character sequences.
pub enum ActionView {
    Print(Seq<char>),
    Terminate(i32),
    Spawn(Seq<char>, Seq<Seq<char>>),
}

/// What the interpreter does for one line.
#[derive(Clone, Debug, PartialEq, Eq)]
pub enum Action {
    /// Print this text as one line, then read the next line.
    Print(String),
    /// End the process with this exit status.
    Terminate(i32),
    /// Run the program at `path` with `args`, pass on its captured output,
    /// then read the next line.
    Spawn { path: String, args: Vec<String> },
}

impl View for Action {
    type V = ActionView;

    open spec fn view(&self) -> ActionView {
        match self {
            Action::Print(text) => ActionView::Print(text@),
            Action::Terminate(code) => ActionView::Terminate(*code),
            Action::Spawn { path, args } => ActionView::Spawn(path@, views(args@)),
        }
    }
}

/// The answer to a type query for `name`.
pub open spec fn type_report(name: Seq<char>, index: ExecutableIndex) -> Seq<char> {
    if is_builtin(name) {
        name + " is a shell builtin"@
    } else {
        match index.resolve(name) {
            Some(dir) => name + " is "@ + dir + "/"@ + name,
            None => name + " not found"@,
        }
    }
}

/// What the interpreter does for a command.
pub open spec fn action_spec(c: CommandView, index: ExecutableIndex) -> ActionView {
    match c {
        CommandView::Empty => ActionView::Print(Seq::empty()),
        CommandView::Exit(code) => ActionView::Terminate(code),
        CommandView::Echo(text) => ActionView::Print(text),
        CommandView::TypeQuery(name) => ActionView::Print(type_report(name, index)),
        CommandView::Invocation(path, args) => ActionView::Spawn(path, args),
    }
}

/// What the interpreter does for an input line: a parse error is reported
/// as one printed line.
pub open spec fn step_spec(line: Seq<char>, index: ExecutableIndex) -> ActionView {
    match parse_spec(line, index) {
        Ok(c) => action_spec(c, index),
        Err(e) => ActionView::Print(error_message(e)),
    }
}

/// Decides what a command does.
pub fn dispatch(command: Command, index: &ExecutableIndex) -> (r: Action)
    ensures
        r@ == action_spec(command@, *index),
{
    match command {
        Command::Empty => Action::Print(String::new()),
        Command::Exit(code) => Action::Terminate(code),
        Command::Echo(text) => Action::Print(text),
        Command::TypeQuery(name) => {
            if name == String::from_str("exit") || name == String::from_str("echo") || name
                == String::from_str("type") {
                Action::Print(name.concat(" is a shell builtin"))
            } else {
                match index.lookup(&name) {
                    Some(dir) => {
                        let line = name.clone().concat(" is ").concat(dir.as_str()).concat(
                            "/",
                        ).concat(name.as_str());
                        Action::Print(line)
                    },
                    None => Action::Print(name.concat(" not found")),
                }
            }
        },
        Command::Invocation { path, args } => Action::Spawn { path, args },
    }
}

/// Parses one input line and decides what it does.
pub fn step(line: &str, index: &ExecutableIndex) -> (r: Action)
    ensures
        r@ == step_spec(line@, *index),
{
    match parse_command(line, index) {
        Ok(command) => dispatch(command, index),
        Err(e) => Action::Print(e.message()),
    }
}

} // verus!
