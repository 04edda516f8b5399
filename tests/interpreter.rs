use minishell::command::{dispatch, parse_command, step, Action, Command, ParseError};
use minishell::index::{split_search_path, ExecutableIndex};

fn strings(items: &[&str]) -> Vec<String> {
    items.iter().map(|s| s.to_string()).collect()
}

fn usr_bin_index() -> ExecutableIndex {
    ExecutableIndex::build(&vec![("/usr/bin".to_string(), strings(&["foo"]))])
}

fn print(text: &str) -> Action {
    Action::Print(text.to_string())
}

#[test]
fn blank_lines_print_an_empty_line() {
    let index = usr_bin_index();
    assert_eq!(step("", &index), print(""));
    assert_eq!(step("\n", &index), print(""));
    assert_eq!(step("   \t  \r\n", &index), print(""));
    assert_eq!(step("\u{3000}\u{a0}", &index), print(""));
    assert_eq!(parse_command("  \n", &index), Ok(Command::Empty));
}

#[test]
fn exit_with_a_code_terminates_with_it() {
    let index = usr_bin_index();
    assert_eq!(step("exit 3\n", &index), Action::Terminate(3));
    assert_eq!(step("exit -7", &index), Action::Terminate(-7));
    assert_eq!(step("exit +12", &index), Action::Terminate(12));
    assert_eq!(step("exit 2147483647", &index), Action::Terminate(2147483647));
    assert_eq!(step("exit -2147483648", &index), Action::Terminate(-2147483648));
}

#[test]
fn exit_alone_terminates_with_zero() {
    let index = usr_bin_index();
    assert_eq!(step("exit", &index), Action::Terminate(0));
    assert_eq!(step("  exit  \n", &index), Action::Terminate(0));
}

#[test]
fn exit_with_extra_token_is_a_parse_error() {
    let index = usr_bin_index();
    assert_eq!(
        parse_command("exit 1 extra", &index),
        Err(ParseError::MalformedArgument("exit".to_string()))
    );
    assert_eq!(step("exit 1 extra", &index), print("Error during parse of command exit"));
}

#[test]
fn exit_with_non_integer_is_a_parse_error() {
    let index = usr_bin_index();
    assert_eq!(
        parse_command("exit abc", &index),
        Err(ParseError::MalformedArgument("exit".to_string()))
    );
    assert_eq!(step("exit abc", &index), print("Error during parse of command exit"));
    assert_eq!(step("exit 2147483648", &index), print("Error during parse of command exit"));
    assert_eq!(step("exit -", &index), print("Error during parse of command exit"));
    assert_eq!(step("exit  5", &index), print("Error during parse of command exit"));
}

#[test]
fn echo_prints_its_text() {
    let index = usr_bin_index();
    assert_eq!(step("echo hello world\n", &index), print("hello world"));
    assert_eq!(step("echo   x  ", &index), print("  x"));
    assert_eq!(step("echo a  b", &index), print("a  b"));
    assert_eq!(
        parse_command("echo a b", &index),
        Ok(Command::Echo("a b".to_string()))
    );
}

#[test]
fn echo_alone_prints_an_empty_line() {
    let index = usr_bin_index();
    assert_eq!(step("echo", &index), print(""));
    assert_eq!(step("echo   \n", &index), print(""));
}

#[test]
fn type_reports_builtins() {
    let index = usr_bin_index();
    assert_eq!(step("type exit", &index), print("exit is a shell builtin"));
    assert_eq!(step("type echo", &index), print("echo is a shell builtin"));
    assert_eq!(step("type type", &index), print("type is a shell builtin"));
}

#[test]
fn type_reports_indexed_and_missing_names() {
    let index = usr_bin_index();
    assert_eq!(step("type foo", &index), print("foo is /usr/bin/foo"));
    assert_eq!(step("type bar", &index), print("bar not found"));
    assert_eq!(step("type", &index), print(" not found"));
    assert_eq!(step("type foo bar", &index), print("foo bar not found"));
}

#[test]
fn external_command_spawns_with_its_arguments() {
    let index = usr_bin_index();
    let expected = Action::Spawn {
        path: "/usr/bin/foo".to_string(),
        args: strings(&["-x", "1"]),
    };
    assert_eq!(step("foo -x 1\n", &index), expected);
    assert_eq!(
        parse_command("foo -x 1", &index),
        Ok(Command::Invocation {
            path: "/usr/bin/foo".to_string(),
            args: strings(&["-x", "1"]),
        })
    );
    assert_eq!(
        step("foo", &index),
        Action::Spawn { path: "/usr/bin/foo".to_string(), args: vec![] }
    );
}

#[test]
fn unknown_command_is_reported_and_changes_nothing() {
    let index = usr_bin_index();
    assert_eq!(
        parse_command("nope", &index),
        Err(ParseError::UnknownCommand("nope".to_string()))
    );
    assert_eq!(step("nope", &index), print("nope: command not found"));
    assert_eq!(step("nope a b", &index), print("nope: command not found"));
    assert_eq!(index.lookup(&"foo".to_string()), Some("/usr/bin".to_string()));
    assert_eq!(index.lookup(&"nope".to_string()), None);
    assert_eq!(step("type foo", &index), print("foo is /usr/bin/foo"));
}

#[test]
fn earlier_directory_wins() {
    let index = ExecutableIndex::build(&vec![
        ("/a".to_string(), strings(&["foo", "x"])),
        ("/b".to_string(), strings(&["y", "foo"])),
    ]);
    assert_eq!(index.lookup(&"foo".to_string()), Some("/a".to_string()));
    assert_eq!(index.lookup(&"x".to_string()), Some("/a".to_string()));
    assert_eq!(index.lookup(&"y".to_string()), Some("/b".to_string()));
    assert_eq!(index.lookup(&"z".to_string()), None);
    assert_eq!(step("foo", &index), Action::Spawn { path: "/a/foo".to_string(), args: vec![] });
}

#[test]
fn add_directory_keeps_existing_entries() {
    let mut index = ExecutableIndex::new();
    assert_eq!(index.lookup(&"ls".to_string()), None);
    index.add_directory(&"/bin".to_string(), &strings(&["ls", "cat", "ls"]));
    index.add_directory(&"/usr/bin".to_string(), &strings(&["cat", "vi"]));
    assert_eq!(index.lookup(&"ls".to_string()), Some("/bin".to_string()));
    assert_eq!(index.lookup(&"cat".to_string()), Some("/bin".to_string()));
    assert_eq!(index.lookup(&"vi".to_string()), Some("/usr/bin".to_string()));
    assert_eq!(index.lookup(&"Vi".to_string()), None);
}

#[test]
fn search_path_splits_at_colons() {
    assert_eq!(split_search_path("/usr/bin:/bin"), strings(&["/usr/bin", "/bin"]));
    assert_eq!(split_search_path("/a::/b:"), strings(&["/a", "", "/b", ""]));
    assert_eq!(split_search_path(""), strings(&[""]));
}

#[test]
fn parse_error_messages() {
    assert_eq!(
        ParseError::UnknownCommand("x".to_string()).message(),
        "x: command not found"
    );
    assert_eq!(
        ParseError::MalformedArgument("exit".to_string()).message(),
        "Error during parse of command exit"
    );
}

#[test]
fn dispatch_decides_each_command() {
    let index = usr_bin_index();
    assert_eq!(dispatch(Command::Empty, &index), print(""));
    assert_eq!(dispatch(Command::Exit(4), &index), Action::Terminate(4));
    assert_eq!(dispatch(Command::Echo("hi".to_string()), &index), print("hi"));
    assert_eq!(dispatch(Command::TypeQuery("foo".to_string()), &index), print("foo is /usr/bin/foo"));
    assert_eq!(
        dispatch(Command::Invocation { path: "/p".to_string(), args: strings(&["a"]) }, &index),
        Action::Spawn { path: "/p".to_string(), args: strings(&["a"]) }
    );
}
