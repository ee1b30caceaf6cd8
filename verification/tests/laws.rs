use shell0::commands::echo::EchoInput;
use shell0::commands::cd::{next_dirs, resolve_target, target_text_of, CdTarget, DirState};
use shell0::commands::ls::{name_order, parse_ls_args, partition_targets, TargetKind};
use shell0::commands::mode::format_permissions;
use shell0::shell::{lookup_command, parse_command, Command, ParseResult};
use shell0::text::trim;

#[test]
fn trimming_twice_is_trimming_once() {
    for s in ["  a b  ", "\u{3000}\tx\n", "", "   ", "nothing"] {
        let once = trim(s);
        assert_eq!(trim(&once), once);
    }
}

#[test]
fn listing_order_is_stable_and_repeatable() {
    let names: Vec<String> = ["b", "B", ".b", "a", "A"].iter().map(|s| s.to_string()).collect();
    let order = name_order(&names);
    assert_eq!(order, vec![3, 4, 0, 1, 2]);
    let sorted: Vec<String> = order.iter().map(|&i| names[i].clone()).collect();
    assert_eq!(name_order(&sorted), vec![0, 1, 2, 3, 4]);
}

#[test]
fn dot_entries_sort_first() {
    let names: Vec<String> = [".", "..", ".hidden", "a", "Zed"].iter().map(|s| s.to_string()).collect();
    assert_eq!(name_order(&names), vec![0, 1, 3, 2, 4]);
}

#[test]
fn every_target_lands_in_one_group() {
    let names: Vec<String> = (0..7).map(|i| format!("f{}", i)).collect();
    let kinds = vec![
        TargetKind::Other,
        TargetKind::Missing,
        TargetKind::Directory,
        TargetKind::Other,
        TargetKind::Directory,
        TargetKind::Missing,
        TargetKind::Other,
    ];
    let t = partition_targets(&names, &kinds);
    assert_eq!(t.missing.len() + t.files.len() + t.dirs.len(), names.len());
}

#[test]
fn echo_output_has_no_double_quotes() {
    let mut e = EchoInput::start(&["\"one", "two"]);
    e.add_line("th\"ree\"\"\n");
    e.finish_input();
    assert!(!e.output().contains('"'));
    let e = EchoInput::start(&["say", "\"hi\""]);
    assert!(!e.needs_more());
    assert_eq!(e.output(), "say hi");
}

#[test]
fn permission_column_shows_the_permission_bits() {
    for mode in [0o100000u32, 0o100777, 0o040750, 0o120644, 0o100421, 0o107001] {
        let s: Vec<char> = format_permissions(mode, false).chars().collect();
        let bits = [0o400, 0o200, 0o100, 0o040, 0o020, 0o010, 0o004, 0o002, 0o001];
        let shown: u32 = (1..10).filter(|&k| s[k] != '-').map(|k| bits[k - 1]).sum();
        assert_eq!(shown, mode & 0o777);
    }
}

#[test]
fn open_quote_waits_for_more_input() {
    assert!(matches!(parse_command("\"abc def"), ParseResult::Incomplete));
    assert!(matches!(parse_command("\""), ParseResult::Incomplete));
}

#[test]
fn options_alone_list_the_current_directory() {
    for args in [vec![], vec!["-l"], vec!["-a", "-lF"], vec!["-", "-aaa"]] {
        let alone = parse_ls_args(&args).unwrap();
        let mut with_dot = args.clone();
        with_dot.push(".");
        let dot = parse_ls_args(&with_dot).unwrap();
        assert_eq!(alone.files, vec![".".to_string()]);
        assert_eq!(alone.files, dot.files);
        assert_eq!(alone.show_all, dot.show_all);
        assert_eq!(alone.long_format, dot.long_format);
        assert_eq!(alone.classify, dot.classify);
    }
}

#[test]
fn unquoted_lines_split_at_blanks() {
    for line in ["  ls\t-l   foo ", "a\u{b}b c", "echo x\ny", "\t\t", " one "] {
        let expected: Vec<String> = line
            .trim()
            .split(|c| c == ' ' || c == '\t')
            .filter(|w| !w.is_empty())
            .map(String::from)
            .collect();
        match parse_command(line) {
            ParseResult::Complete(parts) => assert_eq!(parts, expected),
            ParseResult::Error(m) => {
                assert!(expected.is_empty(), "{:?}", line);
                assert_eq!(m, "");
            }
            ParseResult::Incomplete => panic!("incomplete: {:?}", line),
        }
    }
}

#[test]
fn cd_dash_returns_to_the_directory_left() {
    let start = DirState { cwd: "/home/u".to_string(), previous: None };
    let moved = next_dirs(&start, "/tmp");
    assert_eq!(moved.cwd, "/tmp");
    assert_eq!(moved.previous.as_deref(), Some("/home/u"));
    let back = target_text_of(&CdTarget::Previous, Some("/root"), moved.previous.as_deref()).unwrap();
    assert_eq!(back, "/home/u");
    let requested = resolve_target(&moved.cwd, &back);
    assert_eq!(requested, "/home/u");
    let again = next_dirs(&moved, &requested);
    assert_eq!(again.cwd, "/home/u");
    assert_eq!(again.previous.as_deref(), Some("/tmp"));
}

#[test]
fn each_command_is_found_by_its_own_name() {
    let names = ["echo", "pwd", "mkdir", "rm", "mv", "cd", "ls", "cat", "cp", "exit"];
    let found: Vec<Command> = names.iter().map(|n| lookup_command(n).unwrap()).collect();
    for i in 0..found.len() {
        for j in 0..found.len() {
            assert_eq!(found[i] == found[j], i == j);
        }
    }
    assert_eq!(found[6], Command::Ls);
    assert_eq!(lookup_command("dir"), Err("Command 'dir' not found".to_string()));
}
