//! `rm`: options, operands, and what happens to each path.
use vstd::prelude::*;
use crate::text::{concat3, same_text, starts_with_char, string_views};

verus! {

/// The settings of one `rm` run.
pub struct RmOptions {
    /// `-r`: remove directories with their contents.
    pub recursive: bool,
    /// The paths to remove, in order.
    pub paths: Vec<String>,
}

/// The arguments read in order: `-r` sets recursion, another argument
/// starting with `-` is an invalid option (the error names the rest of it),
/// anything else is a path.
pub open spec fn rm_scan(recursive: bool, paths: Seq<Seq<char>>, args: Seq<Seq<char>>) -> Result<
    (bool, Seq<Seq<char>>),
    Seq<char>,
>
    decreases args.len(),
{
    if args.len() == 0 {
        Ok((recursive, paths))
    } else {
        let a = args[0];
        if a == "-r"@ {
            rm_scan(true, paths, args.drop_first())
        } else if a.len() > 0 && a[0] == '-' {
            Err("rm: invalid option -- '"@ + a.drop_first() + "'"@)
        } else {
            rm_scan(recursive, paths.push(a), args.drop_first())
        }
    }
}

/// What `rm` makes of its arguments: the options, or the message for the
/// first invalid option, or for no path at all.
pub open spec fn rm_settings(args: Seq<Seq<char>>) -> Result<(bool, Seq<Seq<char>>), Seq<char>> {
    match rm_scan(false, Seq::empty(), args) {
        Ok((recursive, paths)) => if paths.len() == 0 {
            Err("rm: missing operand"@)
        } else {
            Ok((recursive, paths))
        },
        Err(m) => Err(m),
    }
}

/// Reads the arguments of `rm`.
pub fn parse_rm_args(args: &[&str]) -> (r: Result<RmOptions, String>)
    ensures
        match r {
            Ok(o) => rm_settings(args@.map_values(|a: &str| a@)) == Ok::<
                (bool, Seq<Seq<char>>),
                Seq<char>,
            >((o.recursive, string_views(o.paths@))),
            Err(m) => rm_settings(args@.map_values(|a: &str| a@)) == Err::<
                (bool, Seq<Seq<char>>),
                Seq<char>,
            >(m@),
        },
{
    let ghost all = args@.map_values(|a: &str| a@);
    let mut recursive = false;
    let mut paths: Vec<String> = Vec::new();
    let mut i: usize = 0;
    assert(all.skip(0) =~= all);
    assert(string_views(paths@) =~= Seq::<Seq<char>>::empty());
    while i < args.len()
        invariant
            i <= args@.len(),
            all == args@.map_values(|a: &str| a@),
            rm_scan(false, Seq::empty(), all) == rm_scan(recursive, string_views(paths@), all.skip(i as int)),
        decreases args@.len() - i,
    {
        let arg = args[i];
        assert(all.skip(i as int)[0] == arg@);
        assert(all.skip(i as int).drop_first() =~= all.skip(i + 1));
        if same_text(arg, "-r") {
            recursive = true;
        } else if starts_with_char(arg, '-') {
            let n = arg.unicode_len();
            let rest = arg.substring_char(1, n);
            assert(rest@ =~= arg@.drop_first());
            return Err(concat3("rm: invalid option -- '", rest, "'"));
        } else {
            let p = String::from_str(arg);
            assert(string_views(paths@.push(p)) =~= string_views(paths@).push(arg@));
            paths.push(p);
        }
        i = i + 1;
    }
    assert(all.skip(args@.len() as int) =~= Seq::<Seq<char>>::empty());
    if paths.len() == 0 {
        return Err(String::from_str("rm: missing operand"));
    }
    Ok(RmOptions { recursive, paths })
}

/// What happens to one path.
pub enum RmAction {
    /// Report the message and go on.
    Report(String),
    /// Remove the directory and all it holds; when it is the current
    /// directory, move to its parent afterwards.
    RemoveTree { leave_directory: bool },
    /// Remove the file.
    RemoveFile,
}

/// `RmAction` with its message as characters.
pub enum RmActionView {
    Report(Seq<char>),
    RemoveTree { leave_directory: bool },
    RemoveFile,
}

impl View for RmAction {
    type V = RmActionView;

    open spec fn view(&self) -> RmActionView {
        match self {
            RmAction::Report(m) => RmActionView::Report(m@),
            RmAction::RemoveTree { leave_directory } => RmActionView::RemoveTree {
                leave_directory: *leave_directory,
            },
            RmAction::RemoveFile => RmActionView::RemoveFile,
        }
    }
}

/// What `rm` does with `path`: a missing path is reported; a directory is
/// removed with its contents under `-r` and refused without it; anything
/// else is removed.
pub open spec fn rm_action_view(
    path: Seq<char>,
    exists: bool,
    is_dir: bool,
    recursive: bool,
    is_current_dir: bool,
) -> RmActionView {
    if !exists {
        RmActionView::Report("rm: cannot remove '"@ + path + "': No such file or directory"@)
    } else if is_dir {
        if recursive {
            RmActionView::RemoveTree { leave_directory: is_current_dir }
        } else {
            RmActionView::Report("rm: cannot remove '"@ + path + "': Is a directory"@)
        }
    } else {
        RmActionView::RemoveFile
    }
}

/// What `rm` does with one path, given whether it exists, is a directory,
/// and is the current directory.
pub fn rm_action(path: &str, exists: bool, is_dir: bool, recursive: bool, is_current_dir: bool) -> (r:
    RmAction)
    ensures
        r@ == rm_action_view(path@, exists, is_dir, recursive, is_current_dir),
{
    if !exists {
        RmAction::Report(concat3("rm: cannot remove '", path, "': No such file or directory"))
    } else if is_dir {
        if recursive {
            RmAction::RemoveTree { leave_directory: is_current_dir }
        } else {
            RmAction::Report(concat3("rm: cannot remove '", path, "': Is a directory"))
        }
    } else {
        RmAction::RemoveFile
    }
}

/// `rm` removes an existing path that is not a directory whatever its
/// options; it removes an existing directory with its contents exactly
/// under `-r`, leaving the directory first when it is the current one; it
/// refuses a directory as such only without `-r`; and it reports a missing
/// path without touching anything.
pub proof fn law_rm_removes_what_it_may(
    path: Seq<char>,
    exists: bool,
    is_dir: bool,
    recursive: bool,
    is_current_dir: bool,
)
    ensures
        exists && !is_dir ==> rm_action_view(path, exists, is_dir, recursive, is_current_dir)
            == RmActionView::RemoveFile,
        exists && is_dir && recursive ==> rm_action_view(path, exists, is_dir, recursive, is_current_dir)
            == (RmActionView::RemoveTree { leave_directory: is_current_dir }),
        (rm_action_view(path, exists, is_dir, recursive, is_current_dir) is RemoveFile) ==> exists
            && !is_dir,
        (rm_action_view(path, exists, is_dir, recursive, is_current_dir) is RemoveTree) ==> exists
            && is_dir && recursive,
        rm_action_view(path, exists, is_dir, recursive, is_current_dir) == RmActionView::Report(
            "rm: cannot remove '"@ + path + "': Is a directory"@,
        ) <==> exists && is_dir && !recursive,
        !exists ==> rm_action_view(path, exists, is_dir, recursive, is_current_dir)
            == RmActionView::Report("rm: cannot remove '"@ + path + "': No such file or directory"@),
{
    reveal_strlit("rm: cannot remove '");
    reveal_strlit("': Is a directory");
    reveal_strlit("': No such file or directory");
    let a = "rm: cannot remove '"@ + path + "': Is a directory"@;
    let b = "rm: cannot remove '"@ + path + "': No such file or directory"@;
    if !exists {
        assert(a.len() != b.len());
    }
}

} // verus!
