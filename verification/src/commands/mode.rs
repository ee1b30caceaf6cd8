//! File mode bits: file types, permissions, device numbers.
use vstd::prelude::*;
use crate::text::push_char;

verus! {

/// Mask of the file-type bits of a mode (`S_IFMT`).
pub const S_IFMT: u32 = 0o170000;
/// Socket (`S_IFSOCK`).
pub const S_IFSOCK: u32 = 0o140000;
/// Symbolic link (`S_IFLNK`).
pub const S_IFLNK: u32 = 0o120000;
/// Regular file (`S_IFREG`).
pub const S_IFREG: u32 = 0o100000;
/// Block device (`S_IFBLK`).
pub const S_IFBLK: u32 = 0o060000;
/// Directory (`S_IFDIR`).
pub const S_IFDIR: u32 = 0o040000;
/// Character device (`S_IFCHR`).
pub const S_IFCHR: u32 = 0o020000;
/// Named pipe (`S_IFIFO`).
pub const S_IFIFO: u32 = 0o010000;

/// The file-type bits of `mode`.
pub open spec fn type_bits(mode: u32) -> u32 {
    mode & S_IFMT
}

pub open spec fn is_symlink(mode: u32) -> bool {
    type_bits(mode) == S_IFLNK
}

pub open spec fn is_dir(mode: u32) -> bool {
    type_bits(mode) == S_IFDIR
}

pub open spec fn is_char_device(mode: u32) -> bool {
    type_bits(mode) == S_IFCHR
}

pub open spec fn is_block_device(mode: u32) -> bool {
    type_bits(mode) == S_IFBLK
}

pub open spec fn is_fifo(mode: u32) -> bool {
    type_bits(mode) == S_IFIFO
}

pub open spec fn is_socket(mode: u32) -> bool {
    type_bits(mode) == S_IFSOCK
}

/// Some execute bit (owner, group or other) is set.
pub open spec fn is_executable(mode: u32) -> bool {
    mode & 0o111 != 0
}

/// The file-type bits of `mode`.
pub fn file_type_bits(mode: u32) -> (r: u32)
    ensures
        r == type_bits(mode),
{
    mode & S_IFMT
}

/// Whether some execute bit of `mode` is set.
pub fn executable(mode: u32) -> (r: bool)
    ensures
        r == is_executable(mode),
{
    mode & 0o111 != 0
}

/// The major number of a device, in the historical 8+8 bit encoding
/// extended to 12 bits.
pub open spec fn spec_major(rdev: u64) -> u64 {
    (rdev >> 8u64) & 0xfff
}

/// The minor number of a device: the low 8 bits and 12 more bits above the
/// major number.
pub open spec fn spec_minor(rdev: u64) -> u64 {
    (rdev & 0xff) | ((rdev >> 12u64) & 0xfff00)
}

/// The major device number held in `rdev`.
pub fn major(rdev: u64) -> (r: u64)
    ensures
        r == spec_major(rdev),
{
    (rdev >> 8) & 0xfff
}

/// The minor device number held in `rdev`.
pub fn minor(rdev: u64) -> (r: u64)
    ensures
        r == spec_minor(rdev),
{
    (rdev & 0xff) | ((rdev >> 12) & 0xfff00)
}

/// A device number built from its major and minor numbers, in the encoding
/// that `major` and `minor` read.
pub open spec fn device_number(major: u64, minor: u64) -> u64 {
    (minor & 0xff) | (major << 8u64) | ((minor & !0xffu64) << 12u64)
}

/// Reading back a device number gives the major and minor numbers it was
/// built from, for majors below 4096 and minors below 2^20.
pub proof fn law_device_number_roundtrip(ma: u64, mi: u64)
    requires
        ma < 0x1000,
        mi < 0x100000,
    ensures
        spec_major(device_number(ma, mi)) == ma,
        spec_minor(device_number(ma, mi)) == mi,
{
    assert(((((mi & 0xff) | (ma << 8u64) | ((mi & !0xffu64) << 12u64)) >> 8u64) & 0xfff) == ma)
        by (bit_vector)
        requires
            ma < 0x1000,
            mi < 0x100000,
    ;
    assert(((((mi & 0xff) | (ma << 8u64) | ((mi & !0xffu64) << 12u64)) & 0xff) | ((((mi
        & 0xff) | (ma << 8u64) | ((mi & !0xffu64) << 12u64)) >> 12u64) & 0xfff00)) == mi)
        by (bit_vector)
        requires
            ma < 0x1000,
            mi < 0x100000,
    ;
}

/// The letter that `ls -l` shows for the file type.
pub open spec fn type_letter(mode: u32) -> char {
    if is_symlink(mode) {
        'l'
    } else if is_dir(mode) {
        'd'
    } else if is_char_device(mode) {
        'c'
    } else if is_block_device(mode) {
        'b'
    } else if is_fifo(mode) {
        'p'
    } else if is_socket(mode) {
        's'
    } else {
        '-'
    }
}

/// `letter` where `bit` is set in `mode`, `-` where it is not.
pub open spec fn bit_letter(mode: u32, bit: u32, letter: char) -> char {
    if mode & bit != 0 {
        letter
    } else {
        '-'
    }
}

/// The permission column of `ls -l`: the file type, read/write/execute for
/// owner, group and others, and `+` when the file has an access control
/// list (a space otherwise).
pub open spec fn permission_string(mode: u32, has_acl: bool) -> Seq<char> {
    seq![
        type_letter(mode),
        bit_letter(mode, 0o400, 'r'),
        bit_letter(mode, 0o200, 'w'),
        bit_letter(mode, 0o100, 'x'),
        bit_letter(mode, 0o040, 'r'),
        bit_letter(mode, 0o020, 'w'),
        bit_letter(mode, 0o010, 'x'),
        bit_letter(mode, 0o004, 'r'),
        bit_letter(mode, 0o002, 'w'),
        bit_letter(mode, 0o001, 'x'),
        if has_acl { '+' } else { ' ' },
    ]
}

fn type_char(mode: u32) -> (r: char)
    ensures
        r == type_letter(mode),
{
    let bits = file_type_bits(mode);
    if bits == S_IFLNK {
        'l'
    } else if bits == S_IFDIR {
        'd'
    } else if bits == S_IFCHR {
        'c'
    } else if bits == S_IFBLK {
        'b'
    } else if bits == S_IFIFO {
        'p'
    } else if bits == S_IFSOCK {
        's'
    } else {
        '-'
    }
}

fn push_bit(s: &mut String, mode: u32, bit: u32, letter: char)
    ensures
        final(s)@ == old(s)@.push(bit_letter(mode, bit, letter)),
{
    if mode & bit != 0 {
        push_char(s, letter);
    } else {
        push_char(s, '-');
    }
}

/// The permission column of `ls -l` for a file with `mode`.
pub fn format_permissions(mode: u32, has_acl: bool) -> (r: String)
    ensures
        r@ == permission_string(mode, has_acl),
        r@.len() == 11,
{
    let mut s = String::new();
    push_char(&mut s, type_char(mode));
    push_bit(&mut s, mode, 0o400, 'r');
    push_bit(&mut s, mode, 0o200, 'w');
    push_bit(&mut s, mode, 0o100, 'x');
    push_bit(&mut s, mode, 0o040, 'r');
    push_bit(&mut s, mode, 0o020, 'w');
    push_bit(&mut s, mode, 0o010, 'x');
    push_bit(&mut s, mode, 0o004, 'r');
    push_bit(&mut s, mode, 0o002, 'w');
    push_bit(&mut s, mode, 0o001, 'x');
    push_char(&mut s, if has_acl { '+' } else { ' ' });
    assert(s@ =~= permission_string(mode, has_acl));
    s
}

/// The file-type letter of the shell's own long format: `l` for a link,
/// `d` for a directory, `-` for anything else.
pub open spec fn simple_type_letter(mode: u32) -> char {
    if is_symlink(mode) {
        'l'
    } else if is_dir(mode) {
        'd'
    } else {
        '-'
    }
}

/// The permission column of the shell's own `ls -l`: the file-type letter
/// and read/write/execute for owner, group and others.
pub open spec fn simple_permission_string(mode: u32) -> Seq<char> {
    seq![
        simple_type_letter(mode),
        bit_letter(mode, 0o400, 'r'),
        bit_letter(mode, 0o200, 'w'),
        bit_letter(mode, 0o100, 'x'),
        bit_letter(mode, 0o040, 'r'),
        bit_letter(mode, 0o020, 'w'),
        bit_letter(mode, 0o010, 'x'),
        bit_letter(mode, 0o004, 'r'),
        bit_letter(mode, 0o002, 'w'),
        bit_letter(mode, 0o001, 'x'),
    ]
}

/// The permission column of the shell's own `ls -l` for a file with `mode`.
pub fn simple_permissions(mode: u32) -> (r: String)
    ensures
        r@ == simple_permission_string(mode),
        r@.len() == 10,
{
    let mut s = String::new();
    let bits = file_type_bits(mode);
    push_char(&mut s, if bits == S_IFLNK { 'l' } else if bits == S_IFDIR { 'd' } else { '-' });
    push_bit(&mut s, mode, 0o400, 'r');
    push_bit(&mut s, mode, 0o200, 'w');
    push_bit(&mut s, mode, 0o100, 'x');
    push_bit(&mut s, mode, 0o040, 'r');
    push_bit(&mut s, mode, 0o020, 'w');
    push_bit(&mut s, mode, 0o010, 'x');
    push_bit(&mut s, mode, 0o004, 'r');
    push_bit(&mut s, mode, 0o002, 'w');
    push_bit(&mut s, mode, 0o001, 'x');
    assert(s@ =~= simple_permission_string(mode));
    s
}

/// The permission bits that a permission column shows set.
pub open spec fn shown_bits(s: Seq<char>) -> u32 {
    (if s[1] != '-' { 0o400u32 } else { 0 }) | (if s[2] != '-' { 0o200u32 } else { 0 }) | (if s[3]
        != '-' { 0o100u32 } else { 0 }) | (if s[4] != '-' { 0o040u32 } else { 0 }) | (if s[5]
        != '-' { 0o020u32 } else { 0 }) | (if s[6] != '-' { 0o010u32 } else { 0 }) | (if s[7]
        != '-' { 0o004u32 } else { 0 }) | (if s[8] != '-' { 0o002u32 } else { 0 }) | (if s[9]
        != '-' { 0o001u32 } else { 0 })
}

/// Both permission columns show exactly the nine permission bits of the
/// mode.
pub proof fn law_permissions_show_mode_bits(mode: u32, has_acl: bool)
    ensures
        shown_bits(permission_string(mode, has_acl)) == mode & 0o777,
        shown_bits(simple_permission_string(mode)) == mode & 0o777,
{
    let s = permission_string(mode, has_acl);
    let t = simple_permission_string(mode);
    assert(t[1] == s[1] && t[2] == s[2] && t[3] == s[3] && t[4] == s[4] && t[5] == s[5]);
    assert(t[6] == s[6] && t[7] == s[7] && t[8] == s[8] && t[9] == s[9]);
    assert(s[1] != '-' <==> mode & 0o400 != 0);
    assert(s[2] != '-' <==> mode & 0o200 != 0);
    assert(s[3] != '-' <==> mode & 0o100 != 0);
    assert(s[4] != '-' <==> mode & 0o040 != 0);
    assert(s[5] != '-' <==> mode & 0o020 != 0);
    assert(s[6] != '-' <==> mode & 0o010 != 0);
    assert(s[7] != '-' <==> mode & 0o004 != 0);
    assert(s[8] != '-' <==> mode & 0o002 != 0);
    assert(s[9] != '-' <==> mode & 0o001 != 0);
    assert(((if mode & 0o400 != 0 { 0o400u32 } else { 0 }) | (if mode & 0o200 != 0 { 0o200u32 } else { 0 })
        | (if mode & 0o100 != 0 { 0o100u32 } else { 0 }) | (if mode & 0o040 != 0 { 0o040u32 } else { 0 })
        | (if mode & 0o020 != 0 { 0o020u32 } else { 0 }) | (if mode & 0o010 != 0 { 0o010u32 } else { 0 })
        | (if mode & 0o004 != 0 { 0o004u32 } else { 0 }) | (if mode & 0o002 != 0 { 0o002u32 } else { 0 })
        | (if mode & 0o001 != 0 { 0o001u32 } else { 0 })) == mode & 0o777) by (bit_vector);
}

} // verus!
