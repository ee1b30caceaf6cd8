//! The shell's own `ls` and `cd`: the plainer forms that its command table
//! runs, beside the fuller ones in `ls`, `listing` and `cd`.
use vstd::prelude::*;
use crate::text::concat3;

verus! {

/// The text before the listing of the file at `index` among `count` named
/// files: an empty line before every listing but the first, and the name
/// and a colon when more than one file is named.
pub open spec fn section_start(index: nat, count: nat, name: Seq<char>) -> Seq<char> {
    (if index > 0 { "\n"@ } else { Seq::<char>::empty() }) + (if count > 1 {
        name + ":\n"@
    } else {
        Seq::<char>::empty()
    })
}

/// The text before the listing of one named file.
pub fn simple_section_start(index: usize, count: usize, name: &str) -> (r: String)
    ensures
        r@ == section_start(index as nat, count as nat, name@),
{
    let mut r = String::new();
    if index > 0 {
        r.append("\n");
    }
    if count > 1 {
        r.append(name);
        r.append(":\n");
    }
    proof {
        reveal_strlit("");
    }
    assert(r@ =~= section_start(index as nat, count as nat, name@));
    r
}

/// The line for a named file that does not exist, with the name as given.
pub open spec fn simple_missing_text(name: Seq<char>) -> Seq<char> {
    "ls: cannot access '"@ + name + "': No such file or directory"@
}

/// The line for a named file that does not exist.
pub fn simple_missing_message(name: &str) -> (r: String)
    ensures
        r@ == simple_missing_text(name@),
{
    concat3("ls: cannot access '", name, "': No such file or directory")
}

/// What the shell's own `ls` does with a named file.
#[derive(Clone, Copy, PartialEq, Eq, Structural, Debug)]
pub enum SimpleTarget {
    /// It does not exist: the message is printed.
    Missing,
    /// A file or a link: it is shown as itself.
    Show,
    /// A directory: its contents are listed.
    List,
    /// Anything else (a device, a pipe): nothing is shown.
    Skip,
}

/// What is done with a named file, by whether it exists, whether it is a
/// file or a link, and whether it is a directory.
pub open spec fn target_action(exists: bool, file_or_link: bool, dir: bool) -> SimpleTarget {
    if !exists {
        SimpleTarget::Missing
    } else if file_or_link {
        SimpleTarget::Show
    } else if dir {
        SimpleTarget::List
    } else {
        SimpleTarget::Skip
    }
}

/// What is done with a named file.
pub fn simple_target(exists: bool, file_or_link: bool, dir: bool) -> (r: SimpleTarget)
    ensures
        r == target_action(exists, file_or_link, dir),
{
    if !exists {
        SimpleTarget::Missing
    } else if file_or_link {
        SimpleTarget::Show
    } else if dir {
        SimpleTarget::List
    } else {
        SimpleTarget::Skip
    }
}

/// The line the shell's own `cd` prints before it does anything.
pub const CD_NOTICE: &'static str = "your  now  in cd  ";

/// The directory the shell's own `cd` changes to: `$HOME` without
/// arguments, otherwise the first argument as it stands; an error where
/// `$HOME` is needed and not set.
pub open spec fn simple_cd_dir(args: Seq<Seq<char>>, home: Option<Seq<char>>) -> Result<
    Seq<char>,
    Seq<char>,
> {
    if args.len() == 0 {
        match home {
            Some(h) => Ok(h),
            None => Err("HOME environment variable not set"@),
        }
    } else {
        Ok(args[0])
    }
}

/// The directory the shell's own `cd` changes to.
pub fn simple_cd_target(args: &[&str], home: Option<&str>) -> (r: Result<String, String>)
    ensures
        match r {
            Ok(d) => simple_cd_dir(args@.map_values(|a: &str| a@), crate::commands::cd::text_view(home))
                == Ok::<Seq<char>, Seq<char>>(d@),
            Err(m) => simple_cd_dir(args@.map_values(|a: &str| a@), crate::commands::cd::text_view(home))
                == Err::<Seq<char>, Seq<char>>(m@),
        },
{
    if args.len() == 0 {
        match home {
            Some(h) => Ok(String::from_str(h)),
            None => Err(String::from_str("HOME environment variable not set")),
        }
    } else {
        assert(args@.map_values(|a: &str| a@)[0] == args@[0]@);
        Ok(String::from_str(args[0]))
    }
}

/// The message when the shell's own `cd` cannot change to `dir`, for the
/// reason the system gave.
pub fn simple_cd_error(dir: &str, reason: &str) -> (r: String)
    ensures
        r@ == "cd: "@ + dir@ + ": "@ + reason@,
{
    let mut r = concat3("cd: ", dir, ": ");
    r.append(reason);
    r
}

} // verus!
