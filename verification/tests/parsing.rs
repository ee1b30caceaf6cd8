use shell0::shell::{lookup_command, parse_command, Command, InputEvent, ParseResult, Prompt, Shell, ShellAction};

fn words(input: &str) -> Vec<String> {
    match parse_command(input) {
        ParseResult::Complete(parts) => parts,
        ParseResult::Incomplete => panic!("incomplete: {:?}", input),
        ParseResult::Error(m) => panic!("error {:?}: {:?}", m, input),
    }
}

#[test]
fn splits_on_spaces_and_tabs() {
    assert_eq!(words("ls -la /tmp"), vec!["ls", "-la", "/tmp"]);
    assert_eq!(words("  echo \t  hi   there \n"), vec!["echo", "hi", "there"]);
}

#[test]
fn quotes_group_words() {
    assert_eq!(words("echo \"a b\" 'c d'"), vec!["echo", "a b", "c d"]);
    assert_eq!(words("echo ab\"c d\"e"), vec!["echo", "abc de"]);
    assert_eq!(words("echo \"it's\""), vec!["echo", "it's"]);
    assert_eq!(words("echo 'say \"hi\"'"), vec!["echo", "say \"hi\""]);
}

#[test]
fn backslash_escapes() {
    assert_eq!(words("echo a\\nb"), vec!["echo", "a\nb"]);
    assert_eq!(words("echo a\\tb\\rc"), vec!["echo", "a\tb\rc"]);
    assert_eq!(words("echo a\\ b"), vec!["echo", "a b"]);
    assert_eq!(words("echo \\\"x\\'"), vec!["echo", "\"x'"]);
    assert_eq!(words("echo \\\\"), vec!["echo", "\\"]);
    assert_eq!(words("echo \\q"), vec!["echo", "\\q"]);
    assert_eq!(words("echo '\\n'"), vec!["echo", "\\n"]);
    assert_eq!(words("echo \"\\n\""), vec!["echo", "\n"]);
}

#[test]
fn open_quotes_and_final_backslash_are_incomplete() {
    assert!(matches!(parse_command("echo \"abc"), ParseResult::Incomplete));
    assert!(matches!(parse_command("echo 'abc"), ParseResult::Incomplete));
    assert!(matches!(parse_command("echo abc\\"), ParseResult::Incomplete));
    assert!(matches!(parse_command("\""), ParseResult::Incomplete));
}

#[test]
fn blank_lines_are_errors_with_empty_message() {
    for line in ["", "   ", "\n", " \t\u{a0} ", "\"\"", "''"] {
        match parse_command(line) {
            ParseResult::Error(m) => assert_eq!(m, ""),
            _ => panic!("{:?} should be an error", line),
        }
    }
}

#[test]
fn plain_words_roundtrip() {
    let ws = vec!["cp", "a.txt", "b/c", "x-y_z"];
    assert_eq!(words(&ws.join(" ")), ws);
}

#[test]
fn quoted_words_keep_their_text() {
    assert_eq!(words("\"a  b c\""), vec!["a  b c"]);
    assert_eq!(words("'a \\ \" b'"), vec!["a \\ \" b"]);
}

#[test]
fn commands_are_looked_up_by_name() {
    let table = [
        ("echo", Command::Echo),
        ("pwd", Command::Pwd),
        ("mkdir", Command::Mkdir),
        ("rm", Command::Rm),
        ("mv", Command::Mv),
        ("cd", Command::Cd),
        ("ls", Command::Ls),
        ("cat", Command::Cat),
        ("cp", Command::Cp),
        ("exit", Command::Exit),
    ];
    for (name, c) in table {
        assert_eq!(lookup_command(name), Ok(c));
    }
    assert_eq!(lookup_command("foo"), Err("Command 'foo' not found".to_string()));
    assert_eq!(lookup_command("LS"), Err("Command 'LS' not found".to_string()));
}

#[test]
fn a_command_spanning_two_lines_runs_once_complete() {
    let mut shell = Shell::new();
    assert_eq!(shell.prompt(), Prompt::Primary);
    let a = shell.on_input(InputEvent::Line("echo \"a\n".to_string()));
    assert!(matches!(a, ShellAction::NeedMore));
    assert_eq!(shell.prompt(), Prompt::Continuation);
    match shell.on_input(InputEvent::Line("b\"\n".to_string())) {
        ShellAction::Run { command, args } => {
            assert_eq!(command, "echo");
            assert_eq!(args, vec!["a\nb"]);
        }
        _ => panic!("expected a command"),
    }
    assert_eq!(shell.prompt(), Prompt::Primary);
}

#[test]
fn end_of_input_discards_or_exits() {
    let mut shell = Shell::new();
    assert!(matches!(shell.on_input(InputEvent::Line("echo 'x\n".to_string())), ShellAction::NeedMore));
    assert!(matches!(shell.on_input(InputEvent::EndOfInput), ShellAction::DiscardPending));
    assert_eq!(shell.prompt(), Prompt::Primary);
    assert!(matches!(shell.on_input(InputEvent::EndOfInput), ShellAction::Exit));
}

#[test]
fn blank_lines_and_read_errors_are_reported() {
    let mut shell = Shell::new();
    match shell.on_input(InputEvent::Line("   \n".to_string())) {
        ShellAction::Report(m) => assert_eq!(m, ""),
        _ => panic!("expected a report"),
    }
    match shell.on_input(InputEvent::ReadFailed("boom".to_string())) {
        ShellAction::ReadError(m) => assert_eq!(m, "boom"),
        _ => panic!("expected a read error"),
    }
    match shell.on_input(InputEvent::Line("ls -l\n".to_string())) {
        ShellAction::Run { command, args } => {
            assert_eq!(command, "ls");
            assert_eq!(args, vec!["-l"]);
        }
        _ => panic!("expected a command"),
    }
}
