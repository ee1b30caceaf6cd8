use shell0::commands::cat::{cat_sources, CatSource};
use shell0::commands::cd::{
    cd_target, changes_directory, next_dirs, resolve_target, target_text_of, CdTarget, DirState,
};
use shell0::commands::cp::{copy_step, cp_outcome, cp_plan, CopyStep};
use shell0::commands::echo::{echo_line, EchoInput};
use shell0::commands::mkdir::mkdir_check;
use shell0::commands::mv::{mv_operands, mv_target};
use shell0::commands::pwd::pwd_check;
use shell0::commands::rm::{parse_rm_args, rm_action, RmAction};

#[test]
fn echo_joins_arguments() {
    assert_eq!(echo_line(&["hello", "world"]), "hello world");
    assert_eq!(echo_line(&[]), "");
}

#[test]
fn echo_continues_an_open_double_quote() {
    let mut e = EchoInput::start(&["\"hello"]);
    assert!(e.needs_more());
    e.add_line("world\"\n");
    assert!(!e.needs_more());
    assert_eq!(e.output(), "hello\nworld");

    let mut e = EchoInput::start(&["a\"b"]);
    assert!(e.needs_more());
    e.add_line("c\n");
    assert!(e.needs_more());
    e.finish_input();
    assert!(!e.needs_more());
    assert_eq!(e.output(), "abc\n");

    let e = EchoInput::start(&["\"a\"", "b"]);
    assert!(!e.needs_more());
    assert_eq!(e.output(), "a b");
}

#[test]
fn cat_inputs() {
    assert!(matches!(cat_sources(&[])[..], [CatSource::Stdin]));
    let s = cat_sources(&["a", "-", "b"]);
    assert!(matches!(&s[..], [CatSource::File(a), CatSource::Stdin, CatSource::File(b)] if a == "a" && b == "b"));
}

#[test]
fn cd_targets() {
    assert!(matches!(cd_target(&[]), CdTarget::Home));
    assert!(matches!(cd_target(&["~"]), CdTarget::Home));
    assert!(matches!(cd_target(&["-"]), CdTarget::Previous));
    assert!(matches!(cd_target(&["src", "x"]), CdTarget::Dir(d) if d == "src"));
    assert_eq!(resolve_target("/home/u", "src"), "/home/u/src");
    assert_eq!(resolve_target("/home/u", "/tmp"), "/tmp");
    assert_eq!(resolve_target("/", "tmp"), "/tmp");
    assert!(changes_directory("/tmp", "/home"));
    assert!(!changes_directory("/tmp", "/tmp"));
}

#[test]
fn cp_operands_and_steps() {
    assert_eq!(cp_plan(&["a"], false).err().unwrap(), "cp: missing file operand");
    assert_eq!(cp_plan(&["a", "b", "c"], false).err().unwrap(), "cp: target 'c' is not a directory");
    let job = cp_plan(&["a", "b", "d"], true).ok().unwrap();
    assert_eq!(job.sources, vec!["a", "b"]);
    assert_eq!(job.destination, "d");
    let job = cp_plan(&["a", "b"], false).ok().unwrap();
    assert_eq!(job.sources, vec!["a"]);
    assert!(matches!(copy_step("a", false, Some("a"), "d", true), CopyStep::Skip(m) if m == "cp: cannot copy 'a': No such file or directory"));
    assert!(matches!(copy_step("x/a", true, Some("a"), "d", true), CopyStep::Copy(p) if p == "d/a"));
    assert!(matches!(copy_step("/", true, None, "d", true), CopyStep::Skip(m) if m == "cp: cannot get file name from '/'"));
    assert!(matches!(copy_step("a", true, Some("a"), "b", false), CopyStep::Copy(p) if p == "b"));
    assert_eq!(cp_outcome(true), Err("cp: encountered one or more errors".to_string()));
    assert_eq!(cp_outcome(false), Ok(()));
}

#[test]
fn mkdir_and_pwd_operands() {
    assert_eq!(mkdir_check(&[]), Err("mkdir: missing operand".to_string()));
    assert_eq!(mkdir_check(&["d"]), Ok(()));
    assert_eq!(pwd_check(&["x"]), Err("pwd: too many arguments".to_string()));
    assert_eq!(pwd_check(&[]), Ok(()));
}

#[test]
fn mv_operands_and_target() {
    assert_eq!(mv_operands(&["a"]), Err("mv: requires two arguments, a source and a destination".to_string()));
    assert_eq!(mv_operands(&["a", "b"]), Ok(("a".to_string(), "b".to_string())));
    assert_eq!(mv_target("a", false, Some("a"), "b", false), Err("mv: cannot move 'a': No such file or directory".to_string()));
    assert_eq!(mv_target("x/a", true, Some("a"), "dir/", true), Ok("dir/a".to_string()));
    assert_eq!(mv_target("..", true, None, "dir", true), Err("mv: cannot get file name from '..'".to_string()));
    assert_eq!(mv_target("a", true, Some("a"), "b", false), Ok("b".to_string()));
}

#[test]
fn rm_options_and_actions() {
    let o = parse_rm_args(&["a", "-r", "b"]).ok().unwrap();
    assert!(o.recursive);
    assert_eq!(o.paths, vec!["a", "b"]);
    assert_eq!(parse_rm_args(&["-f", "a"]).err().unwrap(), "rm: invalid option -- 'f'");
    assert_eq!(parse_rm_args(&["-r"]).err().unwrap(), "rm: missing operand");
    assert_eq!(parse_rm_args(&[]).err().unwrap(), "rm: missing operand");
    assert!(matches!(rm_action("a", false, false, false, false), RmAction::Report(m) if m == "rm: cannot remove 'a': No such file or directory"));
    assert!(matches!(rm_action("d", true, true, false, false), RmAction::Report(m) if m == "rm: cannot remove 'd': Is a directory"));
    assert!(matches!(rm_action("d", true, true, true, true), RmAction::RemoveTree { leave_directory: true }));
    assert!(matches!(rm_action("f", true, false, true, false), RmAction::RemoveFile));
}

#[test]
fn cd_target_texts() {
    assert_eq!(target_text_of(&CdTarget::Home, Some("/home/u"), None), Ok("/home/u".to_string()));
    assert_eq!(target_text_of(&CdTarget::Home, None, Some("/x")), Err("cd: HOME not set".to_string()));
    assert_eq!(target_text_of(&CdTarget::Previous, None, Some("/x")), Ok("/x".to_string()));
    assert_eq!(
        target_text_of(&CdTarget::Previous, Some("/home/u"), None),
        Err("cd: OLDPWD not set".to_string())
    );
    assert_eq!(target_text_of(&CdTarget::Dir("src".to_string()), None, None), Ok("src".to_string()));
}

#[test]
fn cd_to_the_same_directory_keeps_the_previous_one() {
    let st = DirState { cwd: "/a".to_string(), previous: Some("/b".to_string()) };
    let same = next_dirs(&st, "/a");
    assert_eq!(same.cwd, "/a");
    assert_eq!(same.previous.as_deref(), Some("/b"));
    let other = next_dirs(&st, "/c");
    assert_eq!(other.cwd, "/c");
    assert_eq!(other.previous.as_deref(), Some("/a"));
}
