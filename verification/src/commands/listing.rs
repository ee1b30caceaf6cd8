//! The text `ls` shows for one file: its coloured name, the `-F` marks, and
//! the columns of the long format.
use vstd::prelude::*;
use chrono::Datelike;
use colored::Colorize;
use crate::commands::mode::{
    executable, file_type_bits, format_permissions, is_block_device, is_char_device, is_dir,
    is_executable, is_fifo, is_socket, is_symlink, major, minor, permission_string, simple_permission_string,
    simple_permissions, spec_major,
    spec_minor, S_IFBLK, S_IFCHR, S_IFDIR, S_IFIFO, S_IFLNK, S_IFSOCK,
};
use crate::text::{decimal, decimal_string, pad_left, right_aligned};

verus! {

/// How a name is coloured, by the kind of file it names.
#[derive(Clone, Copy, PartialEq, Eq, Structural, Debug)]
pub enum NameStyle {
    /// No colour.
    Plain,
    /// Bold cyan: a symbolic link.
    Link,
    /// Bold blue: a directory.
    Directory,
    /// Bold orange: a character device.
    CharDevice,
    /// Bold magenta: a socket.
    Socket,
    /// Bold green: an executable file.
    Executable,
}

/// The style of a name, by the mode of the file.
pub open spec fn style_for(mode: u32) -> NameStyle {
    if is_symlink(mode) {
        NameStyle::Link
    } else if is_dir(mode) {
        NameStyle::Directory
    } else if is_char_device(mode) {
        NameStyle::CharDevice
    } else if is_socket(mode) {
        NameStyle::Socket
    } else if is_executable(mode) {
        NameStyle::Executable
    } else {
        NameStyle::Plain
    }
}

/// The terminal escape that resets all attributes, `ESC [ 0 m`.
pub open spec fn reset_escape() -> Seq<char> {
    "\x1b[0m"@
}

/// `text` with `prefix` written again after each reset escape in it, so
/// that a style stays on after a reset that the text itself holds.
pub open spec fn reapplied(text: Seq<char>, prefix: Seq<char>) -> Seq<char>
    decreases text.len(),
{
    if text.len() == 0 {
        text
    } else if text.len() >= 4 && text.subrange(0, 4) == reset_escape() {
        reset_escape() + prefix + reapplied(text.subrange(4, text.len() as int), prefix)
    } else {
        seq![text[0]] + reapplied(text.subrange(1, text.len() as int), prefix)
    }
}

/// `text` shown with the attributes `code`: the escape that selects them,
/// the text with that escape written again after each reset it holds, and
/// the escape that resets all attributes.
pub open spec fn sgr(code: Seq<char>, text: Seq<char>) -> Seq<char> {
    let prefix = "\x1b["@ + code + "m"@;
    prefix + reapplied(text, prefix) + reset_escape()
}

/// Whether `r` is `text` shown in `style`: uncoloured where the terminal
/// gets no colours, otherwise in the escapes of the style (an orange that
/// the terminal cannot show becomes yellow).
pub open spec fn styled(r: Seq<char>, text: Seq<char>, style: NameStyle) -> bool {
    match style {
        NameStyle::Plain => r == text,
        NameStyle::Link => r == text || r == sgr("1;36"@, text),
        NameStyle::Directory => r == text || r == sgr("1;34"@, text),
        NameStyle::CharDevice => r == text || r == sgr("1;38;2;255;127;0"@, text) || r == sgr(
            "1;33"@,
            text,
        ),
        NameStyle::Socket => r == text || r == sgr("1;35"@, text),
        NameStyle::Executable => r == text || r == sgr("1;32"@, text),
    }
}

/// `colored`: `text.bold().cyan().to_string()`. Whether colours are written
/// depends on the environment and the terminal; when they are, the text is
/// wrapped in the escapes for bold cyan, and the style is written again
/// after each reset escape inside the text.
#[verifier::external_body]
fn bold_cyan(text: &str) -> (r: String)
    ensures
        styled(r@, text@, NameStyle::Link),
{
    text.bold().cyan().to_string()
}

/// `colored`: `text.bold().blue().to_string()`, as `bold_cyan` with blue.
#[verifier::external_body]
fn bold_blue(text: &str) -> (r: String)
    ensures
        styled(r@, text@, NameStyle::Directory),
{
    text.bold().blue().to_string()
}

/// `colored`: `text.bold().truecolor(255, 127, 0).to_string()`, as
/// `bold_cyan` with orange; where `COLORTERM` announces no true colour,
/// `colored` picks the nearest of its sixteen colours, yellow.
#[verifier::external_body]
fn bold_orange(text: &str) -> (r: String)
    ensures
        styled(r@, text@, NameStyle::CharDevice),
{
    text.bold().truecolor(255, 127, 0).to_string()
}

/// `colored`: `text.bold().magenta().to_string()`, as `bold_cyan` with
/// magenta.
#[verifier::external_body]
fn bold_magenta(text: &str) -> (r: String)
    ensures
        styled(r@, text@, NameStyle::Socket),
{
    text.bold().magenta().to_string()
}

/// `colored`: `text.bold().green().to_string()`, as `bold_cyan` with green.
#[verifier::external_body]
fn bold_green(text: &str) -> (r: String)
    ensures
        styled(r@, text@, NameStyle::Executable),
{
    text.bold().green().to_string()
}

/// The style that a file with `mode` is shown in.
pub fn name_style(mode: u32) -> (r: NameStyle)
    ensures
        r == style_for(mode),
{
    let bits = file_type_bits(mode);
    if bits == S_IFLNK {
        NameStyle::Link
    } else if bits == S_IFDIR {
        NameStyle::Directory
    } else if bits == S_IFCHR {
        NameStyle::CharDevice
    } else if bits == S_IFSOCK {
        NameStyle::Socket
    } else if executable(mode) {
        NameStyle::Executable
    } else {
        NameStyle::Plain
    }
}

/// `text` shown in `style`.
pub fn paint(text: &str, style: NameStyle) -> (r: String)
    ensures
        styled(r@, text@, style),
{
    match style {
        NameStyle::Link => bold_cyan(text),
        NameStyle::Directory => bold_blue(text),
        NameStyle::CharDevice => bold_orange(text),
        NameStyle::Socket => bold_magenta(text),
        NameStyle::Executable => bold_green(text),
        NameStyle::Plain => String::from_str(text),
    }
}

/// `file_name` coloured by the kind of file: links cyan, directories blue,
/// character devices orange, sockets magenta, executables green, all bold;
/// other files plain.
pub fn colorize_name(file_name: &str, mode: u32) -> (r: String)
    ensures
        styled(r@, file_name@, style_for(mode)),
{
    paint(file_name, name_style(mode))
}

/// The style of a name in the shell's own `ls`: links, directories and
/// executables only.
pub open spec fn simple_style_for(mode: u32) -> NameStyle {
    if is_symlink(mode) {
        NameStyle::Link
    } else if is_dir(mode) {
        NameStyle::Directory
    } else if is_executable(mode) {
        NameStyle::Executable
    } else {
        NameStyle::Plain
    }
}

/// `file_name` coloured as the shell's own `ls` shows it: links cyan,
/// directories blue, executables green, all bold; other files plain.
pub fn simple_colorize_name(file_name: &str, mode: u32) -> (r: String)
    ensures
        styled(r@, file_name@, simple_style_for(mode)),
{
    let bits = file_type_bits(mode);
    let style = if bits == S_IFLNK {
        NameStyle::Link
    } else if bits == S_IFDIR {
        NameStyle::Directory
    } else if executable(mode) {
        NameStyle::Executable
    } else {
        NameStyle::Plain
    };
    paint(file_name, style)
}

/// The `-F` mark of the short format: `@` for a link, `/` for a
/// directory, `*` for an executable.
pub open spec fn short_mark(mode: u32) -> Seq<char> {
    if is_symlink(mode) {
        "@"@
    } else if is_dir(mode) {
        "/"@
    } else if is_executable(mode) {
        "*"@
    } else {
        Seq::<char>::empty()
    }
}

/// The `-F` mark of the long format for what is not a link: `/` for a
/// directory, `*` for an executable.
pub open spec fn long_mark(mode: u32) -> Seq<char> {
    if is_dir(mode) {
        "/"@
    } else if is_executable(mode) {
        "*"@
    } else {
        Seq::<char>::empty()
    }
}

/// The `-F` mark after a link's target, by the mode of the file it leads
/// to: `/`, `=` for a socket, `|` for a pipe, `*`; nothing when that file
/// cannot be read.
pub open spec fn target_mark(target_mode: Option<u32>) -> Seq<char> {
    match target_mode {
        Some(m) => if is_dir(m) {
            "/"@
        } else if is_socket(m) {
            "="@
        } else if is_fifo(m) {
            "|"@
        } else if is_executable(m) {
            "*"@
        } else {
            Seq::<char>::empty()
        },
        None => Seq::<char>::empty(),
    }
}

fn short_mark_of(mode: u32) -> (r: &'static str)
    ensures
        r@ == short_mark(mode),
{
    proof {
        reveal_strlit("");
    }
    let bits = file_type_bits(mode);
    if bits == S_IFLNK {
        "@"
    } else if bits == S_IFDIR {
        "/"
    } else if executable(mode) {
        "*"
    } else {
        ""
    }
}

fn long_mark_of(mode: u32) -> (r: &'static str)
    ensures
        r@ == long_mark(mode),
{
    proof {
        reveal_strlit("");
    }
    if file_type_bits(mode) == S_IFDIR {
        "/"
    } else if executable(mode) {
        "*"
    } else {
        ""
    }
}

fn target_mark_of(target_mode: Option<u32>) -> (r: &'static str)
    ensures
        r@ == target_mark(target_mode),
{
    proof {
        reveal_strlit("");
    }
    match target_mode {
        Some(m) => {
            let bits = file_type_bits(m);
            if bits == S_IFDIR {
                "/"
            } else if bits == S_IFSOCK {
                "="
            } else if bits == S_IFIFO {
                "|"
            } else if executable(m) {
                "*"
            } else {
                ""
            }
        },
        None => "",
    }
}

/// The short-format text for a file: its coloured name, and with `-F` its
/// mark.
pub fn display_short(painted: &str, mode: u32, classify: bool) -> (r: String)
    ensures
        r@ == painted@ + (if classify { short_mark(mode) } else { Seq::empty() }),
{
    let mut r = String::from_str(painted);
    if classify {
        r.append(short_mark_of(mode));
    } else {
        assert(r@ =~= painted@ + Seq::<char>::empty());
    }
    r
}

/// What `lstat` reports of a file, as far as `ls -l` shows it.
pub struct FileInfo {
    pub mode: u32,
    pub nlink: u64,
    pub uid: u32,
    pub gid: u32,
    pub size: u64,
    pub rdev: u64,
}

/// Where a symbolic link leads.
pub struct LinkInfo {
    /// The link's contents.
    pub target: String,
    /// The mode of the file it leads to, if that can be read.
    pub target_mode: Option<u32>,
}

/// The size column: `major, minor` for a device, the size in bytes for
/// anything else.
pub open spec fn size_text(mode: u32, size: u64, rdev: u64) -> Seq<char> {
    if is_char_device(mode) || is_block_device(mode) {
        decimal(spec_major(rdev) as nat) + ", "@ + decimal(spec_minor(rdev) as nat)
    } else {
        decimal(size as nat)
    }
}

/// The size column for a file.
pub fn size_field(mode: u32, size: u64, rdev: u64) -> (r: String)
    ensures
        r@ == size_text(mode, size, rdev),
{
    let bits = file_type_bits(mode);
    if bits == S_IFCHR || bits == S_IFBLK {
        let mut r = decimal_string(major(rdev));
        r.append(", ");
        r.append(decimal_string(minor(rdev)).as_str());
        r
    } else {
        decimal_string(size)
    }
}

/// The owner or group column: the account name where it is known, the
/// number otherwise.
pub fn owner_label(name: Option<String>, id: u32) -> (r: String)
    ensures
        r@ == (match name {
            Some(n) => n@,
            None => decimal(id as nat),
        }),
{
    match name {
        Some(n) => n,
        None => decimal_string(id as u64),
    }
}

/// The name column of the long format: the coloured name; for a link whose
/// contents could be read, ` -> ` and the target, with `-F` the mark of
/// what it leads to; for anything else, with `-F`, its own mark.
pub open spec fn long_name_text(
    painted: Seq<char>,
    mode: u32,
    link: Option<(Seq<char>, Option<u32>)>,
    classify: bool,
) -> Seq<char> {
    if is_symlink(mode) {
        match link {
            Some((target, target_mode)) => painted + " -> "@ + target + (if classify {
                target_mark(target_mode)
            } else {
                Seq::<char>::empty()
            }),
            None => painted,
        }
    } else if classify {
        painted + long_mark(mode)
    } else {
        painted
    }
}

/// The character sequences of a link description.
pub open spec fn link_view(link: Option<LinkInfo>) -> Option<(Seq<char>, Option<u32>)> {
    match link {
        Some(l) => Some((l.target@, l.target_mode)),
        None => None,
    }
}

/// The line of `ls -l` for a file: permissions, link count (3 wide),
/// owner, group and size (8 wide each, right-aligned), time, and name.
pub open spec fn long_text(
    painted: Seq<char>,
    info: FileInfo,
    has_acl: bool,
    owner: Seq<char>,
    group: Seq<char>,
    when: Seq<char>,
    link: Option<(Seq<char>, Option<u32>)>,
    classify: bool,
) -> Seq<char> {
    permission_string(info.mode, has_acl) + " "@ + right_aligned(decimal(info.nlink as nat), 3)
        + " "@ + right_aligned(owner, 8) + " "@ + right_aligned(group, 8) + " "@ + right_aligned(
        size_text(info.mode, info.size, info.rdev),
        8,
    ) + " "@ + when + " "@ + long_name_text(painted, info.mode, link, classify)
}

/// The long-format line for a file.
pub fn display_long(
    painted: &str,
    info: &FileInfo,
    has_acl: bool,
    owner: &str,
    group: &str,
    when: &str,
    link: &Option<LinkInfo>,
    classify: bool,
) -> (r: String)
    ensures
        r@ == long_text(painted@, *info, has_acl, owner@, group@, when@, link_view(*link), classify),
{
    let mut r = format_permissions(info.mode, has_acl);
    r.append(" ");
    r.append(pad_left(decimal_string(info.nlink).as_str(), 3).as_str());
    r.append(" ");
    r.append(pad_left(owner, 8).as_str());
    r.append(" ");
    r.append(pad_left(group, 8).as_str());
    r.append(" ");
    r.append(pad_left(size_field(info.mode, info.size, info.rdev).as_str(), 8).as_str());
    r.append(" ");
    r.append(when);
    r.append(" ");
    r.append(painted);
    if file_type_bits(info.mode) == S_IFLNK {
        match link {
            Some(l) => {
                r.append(" -> ");
                r.append(l.target.as_str());
                if classify {
                    r.append(target_mark_of(l.target_mode));
                }
            },
            None => {},
        }
    } else if classify {
        r.append(long_mark_of(info.mode));
    }
    assert(r@ =~= long_text(painted@, *info, has_acl, owner@, group@, when@, link_view(*link), classify));
    r
}


/// The `-F` mark after a link's target in the shell's own `ls -l`: `/` for
/// a directory, `*` for an executable; nothing when that file cannot be
/// read.
pub open spec fn simple_target_mark(target_mode: Option<u32>) -> Seq<char> {
    match target_mode {
        Some(m) => long_mark(m),
        None => Seq::<char>::empty(),
    }
}

/// The name column of the shell's own `ls -l`: as `long_name_text`, with
/// only `/` and `*` after a link's target.
pub open spec fn simple_long_name_text(
    painted: Seq<char>,
    mode: u32,
    link: Option<(Seq<char>, Option<u32>)>,
    classify: bool,
) -> Seq<char> {
    if is_symlink(mode) {
        match link {
            Some((target, target_mode)) => painted + " -> "@ + target + (if classify {
                simple_target_mark(target_mode)
            } else {
                Seq::<char>::empty()
            }),
            None => painted,
        }
    } else if classify {
        painted + long_mark(mode)
    } else {
        painted
    }
}

/// The line of the shell's own `ls -l` for a file: the ten-character
/// permissions, link count (3 wide), owner, group and size in bytes (8 wide
/// each, right-aligned), time, and name.
pub open spec fn simple_long_text(
    painted: Seq<char>,
    info: FileInfo,
    owner: Seq<char>,
    group: Seq<char>,
    when: Seq<char>,
    link: Option<(Seq<char>, Option<u32>)>,
    classify: bool,
) -> Seq<char> {
    simple_permission_string(info.mode) + " "@ + right_aligned(decimal(info.nlink as nat), 3) + " "@
        + right_aligned(owner, 8) + " "@ + right_aligned(group, 8) + " "@ + right_aligned(
        decimal(info.size as nat),
        8,
    ) + " "@ + when + " "@ + simple_long_name_text(painted, info.mode, link, classify)
}

/// The long-format line of the shell's own `ls` for a file.
pub fn simple_display_long(
    painted: &str,
    info: &FileInfo,
    owner: &str,
    group: &str,
    when: &str,
    link: &Option<LinkInfo>,
    classify: bool,
) -> (r: String)
    ensures
        r@ == simple_long_text(painted@, *info, owner@, group@, when@, link_view(*link), classify),
{
    let mut r = simple_permissions(info.mode);
    r.append(" ");
    r.append(pad_left(decimal_string(info.nlink).as_str(), 3).as_str());
    r.append(" ");
    r.append(pad_left(owner, 8).as_str());
    r.append(" ");
    r.append(pad_left(group, 8).as_str());
    r.append(" ");
    r.append(pad_left(decimal_string(info.size).as_str(), 8).as_str());
    r.append(" ");
    r.append(when);
    r.append(" ");
    r.append(painted);
    if file_type_bits(info.mode) == S_IFLNK {
        match link {
            Some(l) => {
                r.append(" -> ");
                r.append(l.target.as_str());
                if classify {
                    match l.target_mode {
                        Some(m) => r.append(long_mark_of(m)),
                        None => {},
                    }
                }
            },
            None => {},
        }
    } else if classify {
        r.append(long_mark_of(info.mode));
    }
    assert(r@ =~= simple_long_text(painted@, *info, owner@, group@, when@, link_view(*link), classify));
    r
}

/// The first second that `chrono` represents: 1 January of the year
/// -262143, 00:00:00 UTC (its `NaiveDate` holds the years -262143 to
/// 262142).
pub open spec fn first_representable_second() -> int {
    -8_334_601_228_800
}

/// The last second that `chrono` represents: 31 December 262142,
/// 23:59:59 UTC.
pub open spec fn last_representable_second() -> int {
    8_210_266_876_799
}

/// Whether `chrono`'s `DateTime::from_timestamp(secs, 0)` gives a moment:
/// exactly when `secs` lies within its range of dates.
pub open spec fn representable(secs: int) -> bool {
    first_representable_second() <= secs <= last_representable_second()
}

/// The leap years of the proleptic Gregorian calendar before year `y`,
/// counted from a fixed origin (every fourth year, but not every hundredth,
/// but every four hundredth).
pub open spec fn leap_years_before(y: int) -> int {
    (y - 1) / 4 - (y - 1) / 100 + (y - 1) / 400
}

/// The day, counted from 1 January 1970, on which year `y` of the
/// proleptic Gregorian calendar begins.
pub open spec fn year_start_day(y: int) -> int {
    365 * (y - 1970) + leap_years_before(y) - leap_years_before(1970)
}

/// Whether the wall-clock time `local_secs` seconds after 1 January 1970,
/// 00:00 falls in year `y`.
pub open spec fn in_year(local_secs: int, y: int) -> bool {
    year_start_day(y) * 86400 <= local_secs < year_start_day(y + 1) * 86400
}

/// `chrono`: the year, in the local time zone, of the moment `secs`
/// seconds after the Unix epoch (`DateTime::from_timestamp`, then
/// `with_timezone(&Local)` and `year`); `None` where `from_timestamp` cannot
/// represent the moment. The year is that of the wall-clock time, `secs`
/// moved by the zone's offset, in the proleptic Gregorian calendar that
/// `chrono` uses; which offset applies depends on the machine's time zone
/// and is not stated, only that `chrono` keeps it within a day. `chrono`
/// panics where that zone's data cannot be read consistently.
#[verifier::external_body]
fn local_year(secs: i64) -> (r: Option<i32>)
    ensures
        r is Some <==> representable(secs as int),
        r matches Some(y) ==> exists|off: int| -86400 < off < 86400 && #[trigger] in_year(secs + off, y as int),
{
    let utc = chrono::DateTime::from_timestamp(secs, 0)?;
    Some(utc.with_timezone(&chrono::Local).year())
}

/// `chrono`: the current year in the local time zone (`Local::now().year()`).
/// It depends on the clock and the time zone and is not stated.
#[verifier::external_body]
fn current_local_year() -> (r: i32) {
    chrono::Local::now().year()
}

/// What `chrono` writes by `pattern` for the wall-clock time `local_secs`
/// seconds after 1 January 1970, 00:00 (`DateTime::format` with the
/// `strftime` conventions, where the pattern shows no time zone).
pub uninterp spec fn local_text(local_secs: int, pattern: Seq<char>) -> Seq<char>;

/// `chrono`: the moment `secs` seconds after the Unix epoch, in the local
/// time zone, written by `pattern` (`DateTime::format`); `None` where
/// `from_timestamp` cannot represent the moment. Only the two patterns of
/// the time column are passed, which `chrono` writes without error, in at
/// least twelve characters (three for the month, two for the day, five for
/// the time of day or at least four for the year, and the spaces). The text
/// is that of the wall-clock time, `secs` moved by the zone's offset; which
/// offset applies depends on the machine's time zone and is not stated,
/// only that `chrono` keeps it within a day.
#[verifier::external_body]
fn format_local(secs: i64, pattern: &str) -> (r: Option<String>)
    requires
        pattern@ == time_pattern_text(true) || pattern@ == time_pattern_text(false),
    ensures
        r is Some <==> representable(secs as int),
        r matches Some(t) ==> t@.len() >= 12,
        r matches Some(t) ==> exists|off: int|
            -86400 < off < 86400 && t@ == #[trigger] local_text(secs + off, pattern@),
{
    let utc = chrono::DateTime::from_timestamp(secs, 0)?;
    Some(utc.with_timezone(&chrono::Local).format(pattern).to_string())
}

/// The whole seconds, rounded down, of a moment `secs` seconds and `nanos`
/// nanoseconds after the Unix epoch, or as far before it.
pub open spec fn floor_seconds(before_epoch: bool, secs: u64, nanos: u32) -> int {
    if !before_epoch {
        secs as int
    } else if nanos == 0 {
        -(secs as int)
    } else {
        -(secs as int) - 1
    }
}

/// The seconds since the Unix epoch, rounded down, of a file time given as
/// its distance from the epoch; `None` where they do not fit in an `i64`.
pub fn epoch_seconds(before_epoch: bool, secs: u64, nanos: u32) -> (r: Option<i64>)
    ensures
        match r {
            Some(t) => t == floor_seconds(before_epoch, secs, nanos),
            None => !(i64::MIN <= floor_seconds(before_epoch, secs, nanos) <= i64::MAX),
        },
{
    if secs <= 0x7fff_ffff_ffff_ffff {
        let s = secs as i64;
        if !before_epoch {
            Some(s)
        } else if nanos == 0 {
            Some(-s)
        } else {
            Some(-s - 1)
        }
    } else if before_epoch && nanos == 0 && secs == 0x8000_0000_0000_0000 {
        Some(i64::MIN)
    } else {
        None
    }
}

/// The pattern of the time column: month, day and time of day for a time
/// in the current year, month, day and year otherwise.
pub open spec fn time_pattern_text(same_year: bool) -> Seq<char> {
    if same_year {
        "%b %e %H:%M"@
    } else {
        "%b %e  %Y"@
    }
}

/// The pattern of the time column for a time in `file_year`, shown in
/// `current_year`.
pub fn time_pattern_for(file_year: i32, current_year: i32) -> (r: &'static str)
    ensures
        r@ == time_pattern_text(file_year == current_year),
{
    if file_year == current_year {
        "%b %e %H:%M"
    } else {
        "%b %e  %Y"
    }
}

/// The moment one hour after `mtime`, which the time column shows; `None`
/// where it does not fit in an `i64`.
pub fn shifted_time(mtime: i64) -> (r: Option<i64>)
    ensures
        r == (if mtime <= i64::MAX - 3600 { Some((mtime + 3600) as i64) } else { None::<i64> }),
{
    mtime.checked_add(3600)
}

/// The pattern of the time column for a file whose local year is
/// `file_year`, shown in `current_year`.
pub open spec fn column_pattern(file_year: int, current_year: int) -> Seq<char> {
    time_pattern_text(file_year == current_year)
}

/// Whether `t` is the time column of a file modified `secs` seconds after
/// the Unix epoch, shown while the local year is `current_year`: what
/// `chrono` writes for the file's wall-clock time, by the pattern for the
/// local year the file falls in (the time zone's offsets being within a
/// day).
pub open spec fn shows_time(t: Seq<char>, secs: int, current_year: int) -> bool {
    exists|off: int, file_off: int, file_year: int|
        #![trigger local_text(secs + off, column_pattern(file_year, current_year)), in_year(secs + file_off, file_year)]
        -86400 < off < 86400 && -86400 < file_off < 86400 && in_year(secs + file_off, file_year) && t
            == local_text(secs + off, column_pattern(file_year, current_year))
}

/// The time column for a file modified `secs` seconds after the Unix
/// epoch, while the local year is `current_year`: that moment in local
/// time, with the time of day where the file's local year is the current
/// one and with the year otherwise. `None` exactly where the moment lies
/// outside `chrono`'s range of dates.
pub fn time_column_in(secs: i64, current_year: i32) -> (r: Option<String>)
    ensures
        r is Some <==> representable(secs as int),
        r matches Some(t) ==> t@.len() >= 12,
        r matches Some(t) ==> shows_time(t@, secs as int, current_year as int),
{
    let year = match local_year(secs) {
        Some(y) => y,
        None => return None,
    };
    let pattern = time_pattern_for(year, current_year);
    let r = format_local(secs, pattern);
    proof {
        if let Some(t) = &r {
            let off = choose|off: int|
                -86400 < off < 86400 && t@ == #[trigger] local_text(secs + off, pattern@);
            let file_off = choose|o: int| -86400 < o < 86400 && #[trigger] in_year(secs + o, year as int);
            assert(in_year(secs + file_off, year as int));
            assert(t@ == local_text(secs + off, column_pattern(year as int, current_year as int)));
        }
    }
    r
}

proof fn lemma_year_longer_than_365_days(y: int)
    ensures
        year_start_day(y + 1) >= year_start_day(y) + 365,
{
    assert(y / 4 >= (y - 1) / 4);
    assert(y / 400 >= (y - 1) / 400);
    assert(y / 100 <= (y - 1) / 100 + 1);
    assert(y / 100 > (y - 1) / 100 ==> y / 4 > (y - 1) / 4);
}

proof fn lemma_year_starts_increase(a: int, b: int)
    requires
        a < b,
    ensures
        year_start_day(a + 1) <= year_start_day(b),
    decreases b - a,
{
    if a + 1 < b {
        lemma_year_starts_increase(a, b - 1);
        lemma_year_longer_than_365_days(b - 1);
    }
}

/// A wall-clock time falls in one year only.
proof fn lemma_one_year(x: int, a: int, b: int)
    requires
        in_year(x, a),
        in_year(x, b),
    ensures
        a == b,
{
    if a < b {
        lemma_year_starts_increase(a, b);
    } else if b < a {
        lemma_year_starts_increase(b, a);
    }
}

/// The time column shows the time of day exactly when the file's local
/// year is the current one: for a file whose wall-clock time lies in year
/// `year` whatever the zone's offset, the column is what `chrono` writes
/// by the time-of-day pattern where `year` is `current_year`, and by the
/// pattern with the year otherwise.
pub proof fn law_time_of_day_only_in_current_year(
    t: Seq<char>,
    secs: int,
    current_year: int,
    year: int,
)
    requires
        shows_time(t, secs, current_year),
        forall|o: int| -86400 < o < 86400 ==> #[trigger] in_year(secs + o, year),
    ensures
        year == current_year ==> exists|off: int|
            -86400 < off < 86400 && t == #[trigger] local_text(secs + off, "%b %e %H:%M"@),
        year != current_year ==> exists|off: int|
            -86400 < off < 86400 && t == #[trigger] local_text(secs + off, "%b %e  %Y"@),
{
    let (off, file_off, file_year) = choose|off: int, file_off: int, file_year: int|
        #![trigger local_text(secs + off, column_pattern(file_year, current_year)), in_year(secs + file_off, file_year)]
        -86400 < off < 86400 && -86400 < file_off < 86400 && in_year(secs + file_off, file_year) && t
            == local_text(secs + off, column_pattern(file_year, current_year));
    assert(in_year(secs + file_off, year));
    lemma_one_year(secs + file_off, file_year, year);
    if year == current_year {
        assert(t == local_text(secs + off, "%b %e %H:%M"@));
    } else {
        assert(t == local_text(secs + off, "%b %e  %Y"@));
    }
}

/// The time column for a file modified `secs` seconds after the Unix
/// epoch: `time_column_in` the current local year. `None` exactly where the
/// moment lies outside `chrono`'s range of dates.
pub fn time_column(secs: i64) -> (r: Option<String>)
    ensures
        r is Some <==> representable(secs as int),
        r matches Some(t) ==> t@.len() >= 12,
        r matches Some(t) ==> exists|off: int|
            -86400 < off < 86400 && (t@ == #[trigger] local_text(secs + off, time_pattern_text(true))
                || t@ == local_text(secs + off, time_pattern_text(false))),
{
    let now = current_local_year();
    let r = time_column_in(secs, now);
    proof {
        if let Some(t) = &r {
            let (off, file_off, file_year) = choose|off: int, file_off: int, file_year: int|
                #![trigger local_text(secs + off, column_pattern(file_year, now as int)), in_year(secs + file_off, file_year)]
                -86400 < off < 86400 && -86400 < file_off < 86400 && in_year(secs + file_off, file_year)
                    && t@ == local_text(secs + off, column_pattern(file_year, now as int));
            assert(t@ == local_text(secs + off, time_pattern_text(true)) || t@ == local_text(
                secs + off,
                time_pattern_text(false),
            ));
        }
    }
    r
}

/// The time column of the long format for a file modified `mtime` seconds
/// after the Unix epoch: `time_column` of the moment one hour later. `None`
/// exactly where that later moment overflows or lies outside `chrono`'s
/// range of dates.
pub fn format_time(mtime: i64) -> (r: Option<String>)
    ensures
        r is Some <==> (mtime <= i64::MAX - 3600 && representable(mtime + 3600)),
        r matches Some(t) ==> t@.len() >= 12,
        r matches Some(t) ==> exists|off: int|
            -86400 < off < 86400 && (t@ == #[trigger] local_text(mtime + 3600 + off, time_pattern_text(true))
                || t@ == local_text(mtime + 3600 + off, time_pattern_text(false))),
{
    let shifted = match shifted_time(mtime) {
        Some(t) => t,
        None => return None,
    };
    let r = time_column(shifted);
    proof {
        if let Some(t) = &r {
            let off = choose|off: int|
                -86400 < off < 86400 && (t@ == #[trigger] local_text(shifted + off, time_pattern_text(true))
                    || t@ == local_text(shifted + off, time_pattern_text(false)));
            assert(shifted + off == mtime + 3600 + off);
            assert(t@ == local_text(mtime + 3600 + off, time_pattern_text(true)) || t@ == local_text(
                mtime + 3600 + off,
                time_pattern_text(false),
            ));
        }
    }
    r
}

} // verus!
