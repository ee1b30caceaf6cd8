use shell0::commands::listing::{
    colorize_name, display_long, display_short, epoch_seconds, format_time, name_style, owner_label, size_field,
    shifted_time, time_pattern_for, FileInfo, LinkInfo, NameStyle,
};
use shell0::commands::ls::{
    block_total, dot_entries, has_acl_attribute, is_listed, missing_file_message, name_order,
    parse_ls_args, partition_targets, short_layout, shows_headers, plain_name_order,
    TargetKind,
};
use shell0::commands::mode::{
    executable, file_type_bits, format_permissions, major, minor, S_IFBLK, S_IFCHR, S_IFDIR,
    S_IFIFO, S_IFLNK, S_IFMT, S_IFREG, S_IFSOCK,
};

#[test]
fn file_type_constants_are_the_system_ones() {
    assert_eq!(S_IFMT, libc::S_IFMT as u32);
    assert_eq!(S_IFSOCK, libc::S_IFSOCK as u32);
    assert_eq!(S_IFLNK, libc::S_IFLNK as u32);
    assert_eq!(S_IFREG, libc::S_IFREG as u32);
    assert_eq!(S_IFBLK, libc::S_IFBLK as u32);
    assert_eq!(S_IFDIR, libc::S_IFDIR as u32);
    assert_eq!(S_IFCHR, libc::S_IFCHR as u32);
    assert_eq!(S_IFIFO, libc::S_IFIFO as u32);
}

#[test]
fn ls_options() {
    let o = parse_ls_args(&["-la", "dir", "-F"]).ok().unwrap();
    assert!(o.show_all && o.long_format && o.classify);
    assert_eq!(o.files, vec!["dir"]);
    let o = parse_ls_args(&[]).ok().unwrap();
    assert!(!o.show_all && !o.long_format && !o.classify);
    assert_eq!(o.files, vec!["."]);
    let o = parse_ls_args(&["-", "a", "b"]).ok().unwrap();
    assert_eq!(o.files, vec!["a", "b"]);
    assert_eq!(parse_ls_args(&["-lx"]).err().unwrap(), "ls: invalid option: - 'x'");
    assert_eq!(parse_ls_args(&["a-b"]).err().unwrap(), "ls: invalid option: - '-'");
    assert_eq!(parse_ls_args(&["--all"]).err().unwrap(), "ls: invalid option: - '-'");
}

#[test]
fn listing_order_ignores_dots_and_case_and_is_stable() {
    let names: Vec<String> = ["b", ".a", "C", "a", "..b"].iter().map(|s| s.to_string()).collect();
    assert_eq!(name_order(&names), vec![1, 3, 0, 4, 2]);
    let sorted: Vec<&str> = name_order(&names).into_iter().map(|k| names[k].as_str()).collect();
    assert_eq!(sorted, vec![".a", "a", "b", "..b", "C"]);
    assert_eq!(plain_name_order(&names), vec![4, 1, 2, 3, 0]);
    let names: Vec<String> = ["Zed", "apple", "Émile", "zed"].iter().map(|s| s.to_string()).collect();
    assert_eq!(name_order(&names), vec![1, 0, 3, 2]);
    assert_eq!(name_order(&Vec::new()), Vec::<usize>::new());
}

#[test]
fn hidden_entries() {
    assert!(is_listed("a", false));
    assert!(!is_listed(".a", false));
    assert!(is_listed(".a", true));
    let d = dot_entries("/x/y", Some("/x"));
    assert_eq!((d[0].path.as_str(), d[0].display_name.as_str()), ("/x/y", "."));
    assert_eq!((d[1].path.as_str(), d[1].display_name.as_str()), ("/x", ".."));
    let d = dot_entries("/", None);
    assert_eq!(d[1].path, "..");
}

#[test]
fn targets_by_kind() {
    let names: Vec<String> = ["m1", "d1", "f1", "d2", "m2"].iter().map(|s| s.to_string()).collect();
    let kinds = vec![TargetKind::Missing, TargetKind::Directory, TargetKind::Other, TargetKind::Directory, TargetKind::Missing];
    let t = partition_targets(&names, &kinds);
    assert_eq!(t.missing, vec!["m1", "m2"]);
    assert_eq!(t.files, vec!["f1"]);
    assert_eq!(t.dirs, vec!["d1", "d2"]);
    assert!(shows_headers(&t));
    let one = partition_targets(&vec!["d".to_string()], &vec![TargetKind::Directory]);
    assert!(!shows_headers(&one));
    assert_eq!(missing_file_message(" nope "), "ls: cannot access 'nope': No such file or directory");
}

#[test]
fn totals_and_layout() {
    assert_eq!(block_total(&vec![8, 4, 1]), 6);
    assert_eq!(block_total(&vec![]), 0);
    assert_eq!(short_layout(&vec!["a".to_string(), "b".to_string()]), "a  b\n");
    assert_eq!(short_layout(&vec!["a".to_string()]), "a\n");
    assert_eq!(short_layout(&vec![]), "");
    assert!(has_acl_attribute(&vec!["user.x".to_string(), "system.posix_acl_access".to_string()]));
    assert!(!has_acl_attribute(&vec!["system.posix_acl_default".to_string()]));
}

#[test]
fn permissions_column() {
    assert_eq!(format_permissions(0o100644, false), "-rw-r--r-- ");
    assert_eq!(format_permissions(0o040755, true), "drwxr-xr-x+");
    assert_eq!(format_permissions(0o120777, false), "lrwxrwxrwx ");
    assert_eq!(format_permissions(0o020620, false), "crw--w---- ");
    assert_eq!(format_permissions(0o060660, false), "brw-rw---- ");
    assert_eq!(format_permissions(0o010600, false), "prw------- ");
    assert_eq!(format_permissions(0o140755, false), "srwxr-xr-x ");
    assert_eq!(format_permissions(0o104755, false), "-rwxr-xr-x ");
    assert_eq!(file_type_bits(0o040755), S_IFDIR);
    assert!(executable(0o100001));
    assert!(!executable(0o100666));
}

#[test]
fn device_numbers() {
    assert_eq!((major(0x801), minor(0x801)), (8, 1));
    let rdev = (0x12345u64 & 0xff) | (0x123 << 8) | ((0x12345u64 & !0xff) << 12);
    assert_eq!((major(rdev), minor(rdev)), (0x123, 0x12345));
    assert_eq!(size_field(0o020620, 0, 0x504), "5, 4");
    assert_eq!(size_field(0o060660, 0, 0x801), "8, 1");
    assert_eq!(size_field(0o100644, 4096, 0x801), "4096");
}

#[test]
fn colours_by_file_kind() {
    assert_eq!(name_style(0o120777), NameStyle::Link);
    assert_eq!(name_style(0o040755), NameStyle::Directory);
    assert_eq!(name_style(0o020755), NameStyle::CharDevice);
    assert_eq!(name_style(0o140755), NameStyle::Socket);
    assert_eq!(name_style(0o100755), NameStyle::Executable);
    assert_eq!(name_style(0o100644), NameStyle::Plain);
    assert_eq!(name_style(0o060755), NameStyle::Executable);
    assert_eq!(colorize_name("plain.txt", 0o100644), "plain.txt");
    let d = colorize_name("dir", 0o040755);
    assert!(d == "dir" || d == "\x1b[1;34mdir\x1b[0m", "{:?}", d);
    let l = colorize_name("ln", 0o120777);
    assert!(l == "ln" || l == "\x1b[1;36mln\x1b[0m", "{:?}", l);
    let c = colorize_name("tty", 0o020620);
    assert!(c == "tty" || c == "\x1b[1;38;2;255;127;0mtty\x1b[0m" || c == "\x1b[1;33mtty\x1b[0m", "{:?}", c);
}

#[test]
fn short_entries() {
    assert_eq!(display_short("d", 0o040755, true), "d/");
    assert_eq!(display_short("l", 0o120777, true), "l@");
    assert_eq!(display_short("x", 0o100755, true), "x*");
    assert_eq!(display_short("f", 0o100644, true), "f");
    assert_eq!(display_short("d", 0o040755, false), "d");
}

#[test]
fn long_entries() {
    let info = FileInfo { mode: 0o100644, nlink: 1, uid: 1000, gid: 1000, size: 42, rdev: 0 };
    let line = display_long("a.txt", &info, false, "alice", "staff", "Jan  1 10:00", &None, true);
    assert_eq!(line, format!("{} {:>3} {:>8} {:>8} {:>8} {} {}", "-rw-r--r-- ", 1, "alice", "staff", 42, "Jan  1 10:00", "a.txt"));
    let dir = FileInfo { mode: 0o040755, nlink: 12, uid: 0, gid: 0, size: 4096, rdev: 0 };
    assert_eq!(
        display_long("d", &dir, true, "root", "root", "T", &None, true),
        "drwxr-xr-x+  12     root     root     4096 T d/"
    );
    let link = FileInfo { mode: 0o120777, nlink: 1, uid: 0, gid: 0, size: 4, rdev: 0 };
    let target = Some(LinkInfo { target: "/etc".to_string(), target_mode: Some(0o040755) });
    assert_eq!(
        display_long("l", &link, false, "u", "g", "T", &target, true),
        "lrwxrwxrwx    1        u        g        4 T l -> /etc/"
    );
    assert_eq!(
        display_long("l", &link, false, "u", "g", "T", &target, false),
        "lrwxrwxrwx    1        u        g        4 T l -> /etc"
    );
    let pipe = Some(LinkInfo { target: "p".to_string(), target_mode: Some(0o010644) });
    assert!(display_long("l", &link, false, "u", "g", "T", &pipe, true).ends_with("l -> p|"));
    let sock = Some(LinkInfo { target: "s".to_string(), target_mode: Some(0o140644) });
    assert!(display_long("l", &link, false, "u", "g", "T", &sock, true).ends_with("l -> s="));
    let gone = Some(LinkInfo { target: "nowhere".to_string(), target_mode: None });
    assert!(display_long("l", &link, false, "u", "g", "T", &gone, true).ends_with("l -> nowhere"));
    assert!(display_long("l", &link, false, "u", "g", "T", &None, true).ends_with(" T l"));
    assert_eq!(owner_label(Some("bob".to_string()), 7), "bob");
    assert_eq!(owner_label(None, 1234), "1234");
}

#[test]
fn time_column() {
    assert_eq!(time_pattern_for(2024, 2024), "%b %e %H:%M");
    assert_eq!(time_pattern_for(2020, 2024), "%b %e  %Y");
    assert_eq!(time_pattern_for(2025, 2024), "%b %e  %Y");
    assert_eq!(shifted_time(0), Some(3600));
    assert_eq!(shifted_time(-3600), Some(0));
    assert_eq!(shifted_time(i64::MAX - 3600), Some(i64::MAX));
    assert_eq!(shifted_time(i64::MAX - 3599), None);
    assert_eq!(format_time(i64::MAX), None);
    assert_eq!(format_time(i64::MAX - 3599), None);
    let first: i64 = -8_334_601_228_800;
    let last: i64 = 8_210_266_876_799;
    assert!(format_time(first - 3600).is_some());
    assert_eq!(format_time(first - 3601), None);
    assert!(format_time(last - 3600).is_some());
    assert_eq!(format_time(last - 3599), None);
    let old = format_time(0).unwrap();
    assert!(old.ends_with("1970") || old.ends_with("1969") || old.contains(':'), "{:?}", old);
    assert_eq!(old.chars().count(), 12);
}

#[test]
fn colours_when_forced() {
    colored::control::set_override(true);
    assert_eq!(colorize_name("x", 0o100755), "\x1b[1;32mx\x1b[0m");
    assert_eq!(colorize_name("s", 0o140755), "\x1b[1;35ms\x1b[0m");
    assert_eq!(colorize_name("l", 0o120777), "\x1b[1;36ml\x1b[0m");
    assert_eq!(colorize_name("d", 0o040755), "\x1b[1;34md\x1b[0m");
    let c = colorize_name("c", 0o020644);
    assert!(c == "\x1b[1;38;2;255;127;0mc\x1b[0m" || c == "\x1b[1;33mc\x1b[0m", "{:?}", c);
    assert_eq!(
        colorize_name("a\x1b[0mb", 0o040755),
        "\x1b[1;34ma\x1b[0m\x1b[1;34mb\x1b[0m"
    );
    assert_eq!(colorize_name("a\x1b[0mb", 0o100644), "a\x1b[0mb");
    colored::control::set_override(false);
    assert_eq!(colorize_name("d", 0o040755), "d");
    assert_eq!(colorize_name("a\x1b[0mb", 0o040755), "a\x1b[0mb");
    colored::control::unset_override();
}

#[test]
fn time_column_shape() {
    let months = ["Jan", "Feb", "Mar", "Apr", "May", "Jun", "Jul", "Aug", "Sep", "Oct", "Nov", "Dec"];
    let text = format_time(1_000_000_000).unwrap();
    assert!(months.contains(&&text[0..3]), "{:?}", text);
    assert!(text.ends_with("2001") || text.ends_with(":46") || text.ends_with(":16") || text.ends_with(":31") || text.ends_with(":01"), "{:?}", text);
}

#[test]
fn file_times_round_down_to_seconds() {
    assert_eq!(epoch_seconds(false, 100, 999_999_999), Some(100));
    assert_eq!(epoch_seconds(true, 100, 0), Some(-100));
    assert_eq!(epoch_seconds(true, 100, 1), Some(-101));
    assert_eq!(epoch_seconds(true, 1u64 << 63, 0), Some(i64::MIN));
    assert_eq!(epoch_seconds(true, 1u64 << 63, 1), None);
    assert_eq!(epoch_seconds(false, 1u64 << 63, 0), None);
}

#[test]
fn option_groups_can_be_split_or_joined() {
    let a = parse_ls_args(&["-laF", "x"]).ok().unwrap();
    let b = parse_ls_args(&["-F", "x", "-l", "-a"]).ok().unwrap();
    assert_eq!((a.show_all, a.long_format, a.classify, a.files), (b.show_all, b.long_format, b.classify, b.files));
}
