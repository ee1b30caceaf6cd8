use shell0::commands::listing::{
    format_time, simple_colorize_name, simple_display_long, time_column, FileInfo, LinkInfo,
};
use shell0::commands::mode::simple_permissions;
use shell0::commands::simple::{
    simple_cd_error, simple_cd_target, simple_missing_message, simple_section_start, simple_target,
    SimpleTarget, CD_NOTICE,
};
use shell0::shell::{logo_text, prompt_text, Prompt, LOGO};

#[test]
fn simple_permission_column() {
    assert_eq!(simple_permissions(0o120777), "lrwxrwxrwx");
    assert_eq!(simple_permissions(0o040755), "drwxr-xr-x");
    assert_eq!(simple_permissions(0o020644), "-rw-r--r--");
    assert_eq!(simple_permissions(0o100600), "-rw-------");
}

#[test]
fn simple_colours() {
    colored::control::set_override(true);
    assert_eq!(simple_colorize_name("c", 0o020755), "\x1b[1;32mc\x1b[0m");
    assert_eq!(simple_colorize_name("s", 0o140644), "s");
    assert_eq!(simple_colorize_name("d", 0o040755), "\x1b[1;34md\x1b[0m");
    assert_eq!(simple_colorize_name("l", 0o120777), "\x1b[1;36ml\x1b[0m");
    colored::control::set_override(false);
    assert_eq!(simple_colorize_name("d", 0o040755), "d");
    colored::control::unset_override();
}

#[test]
fn simple_long_lines() {
    let info = FileInfo { mode: 0o100644, nlink: 1, uid: 0, gid: 0, size: 42, rdev: 0 };
    assert_eq!(
        simple_display_long("f", &info, "user", "group", "Jan  1 00:00", &None, true),
        "-rw-r--r--   1     user    group       42 Jan  1 00:00 f"
    );
    let dev = FileInfo { mode: 0o020666, nlink: 1, uid: 0, gid: 0, size: 0, rdev: 0x0501 };
    assert!(simple_display_long("tty", &dev, "u", "g", "T", &None, false).ends_with("        0 T tty"));
    let link = FileInfo { mode: 0o120777, nlink: 1, uid: 0, gid: 0, size: 4, rdev: 0 };
    let to_dir = Some(LinkInfo { target: "/d".to_string(), target_mode: Some(0o040755) });
    assert!(simple_display_long("l", &link, "u", "g", "T", &to_dir, true).ends_with("l -> /d/"));
    let to_sock = Some(LinkInfo { target: "s".to_string(), target_mode: Some(0o140755) });
    assert!(simple_display_long("l", &link, "u", "g", "T", &to_sock, true).ends_with("l -> s*"));
    assert!(simple_display_long("l", &link, "u", "g", "T", &to_sock, false).ends_with("l -> s"));
    let exe = FileInfo { mode: 0o100755, nlink: 2, uid: 0, gid: 0, size: 7, rdev: 0 };
    assert!(simple_display_long("x", &exe, "u", "g", "T", &None, true).ends_with(" T x*"));
}

#[test]
fn simple_listing_sections() {
    assert_eq!(simple_section_start(0, 1, "a"), "");
    assert_eq!(simple_section_start(0, 2, "a"), "a:\n");
    assert_eq!(simple_section_start(1, 2, "b"), "\nb:\n");
    assert_eq!(simple_missing_message(" x "), "ls: cannot access ' x ': No such file or directory");
    assert_eq!(simple_target(false, false, false), SimpleTarget::Missing);
    assert_eq!(simple_target(true, true, false), SimpleTarget::Show);
    assert_eq!(simple_target(true, false, true), SimpleTarget::List);
    assert_eq!(simple_target(true, false, false), SimpleTarget::Skip);
}

#[test]
fn simple_cd_directories() {
    assert_eq!(CD_NOTICE, "your  now  in cd  ");
    assert_eq!(simple_cd_target(&[], Some("/h")), Ok("/h".to_string()));
    assert_eq!(simple_cd_target(&[], None), Err("HOME environment variable not set".to_string()));
    assert_eq!(simple_cd_target(&["~"], None), Ok("~".to_string()));
    assert_eq!(simple_cd_target(&["-", "x"], Some("/h")), Ok("-".to_string()));
    assert_eq!(simple_cd_error("d", "No such file"), "cd: d: No such file");
}

#[test]
fn time_column_without_shift() {
    let last: i64 = 8_210_266_876_799;
    assert!(time_column(last).is_some());
    assert_eq!(time_column(last + 1), None);
    let t = time_column(0).unwrap();
    assert!(t.chars().count() >= 12, "{:?}", t);
    assert!(format_time(0).unwrap().chars().count() >= 12);
}

#[test]
fn prompts_and_banner() {
    colored::control::set_override(false);
    assert_eq!(prompt_text(Prompt::Primary, "/tmp"), "$ /tmp $ ");
    assert_eq!(prompt_text(Prompt::Continuation, "/tmp"), ">  ");
    assert_eq!(logo_text(), LOGO);
    colored::control::set_override(true);
    assert_eq!(
        prompt_text(Prompt::Primary, "/tmp"),
        "\x1b[32m$\x1b[0m \x1b[34m/tmp\x1b[0m \x1b[32m$\x1b[0m "
    );
    assert_eq!(prompt_text(Prompt::Continuation, "/tmp"), "\x1b[33m> \x1b[0m ");
    assert_eq!(logo_text(), format!("\x1b[33m{}\x1b[0m", LOGO));
    colored::control::unset_override();
    assert!(LOGO.starts_with("\n_______"));
}
