//! `cd`: the directory to change to.
use vstd::prelude::*;
use crate::text::{joined_path, join_path, same_text, starts_with_char};

verus! {

/// Where `cd` goes.
pub enum CdTarget {
    /// The home directory (`$HOME`): no argument, or `~`.
    Home,
    /// The previous directory (`$OLDPWD`): the argument `-`.
    Previous,
    /// The directory named by the argument.
    Dir(String),
}

/// `CdTarget` with the directory name as characters.
pub enum CdTargetView {
    Home,
    Previous,
    Dir(Seq<char>),
}

impl View for CdTarget {
    type V = CdTargetView;

    open spec fn view(&self) -> CdTargetView {
        match self {
            CdTarget::Home => CdTargetView::Home,
            CdTarget::Previous => CdTargetView::Previous,
            CdTarget::Dir(d) => CdTargetView::Dir(d@),
        }
    }
}

/// Where `cd` goes for these arguments (only the first one counts).
pub open spec fn target_of(args: Seq<Seq<char>>) -> CdTargetView {
    if args.len() == 0 || args[0] == "~"@ {
        CdTargetView::Home
    } else if args[0] == "-"@ {
        CdTargetView::Previous
    } else {
        CdTargetView::Dir(args[0])
    }
}

/// Where `cd` goes for its arguments.
pub fn cd_target(args: &[&str]) -> (r: CdTarget)
    ensures
        r@ == target_of(args@.map_values(|a: &str| a@)),
{
    let ghost v = args@.map_values(|a: &str| a@);
    if args.len() == 0 {
        return CdTarget::Home;
    }
    assert(v[0] == args@[0]@);
    if same_text(args[0], "~") {
        CdTarget::Home
    } else if same_text(args[0], "-") {
        CdTarget::Previous
    } else {
        CdTarget::Dir(String::from_str(args[0]))
    }
}

/// The directory `cd` asks for: an absolute target as it stands, a
/// relative one below the current directory.
pub open spec fn requested_dir(cwd: Seq<char>, target: Seq<char>) -> Seq<char> {
    if target.len() > 0 && target[0] == '/' {
        target
    } else {
        joined_path(cwd, target)
    }
}

/// The directory `cd` asks for, from the current directory `cwd`.
pub fn resolve_target(cwd: &str, target: &str) -> (r: String)
    ensures
        r@ == requested_dir(cwd@, target@),
{
    if starts_with_char(target, '/') {
        String::from_str(target)
    } else {
        join_path(cwd, target)
    }
}

/// Whether `cd` changes directory: only when the resolved directory is not
/// the current one.
pub fn changes_directory(resolved: &str, cwd: &str) -> (r: bool)
    ensures
        r == (resolved@ != cwd@),
{
    !same_text(resolved, cwd)
}

/// An optional text taken as characters.
pub open spec fn text_view(o: Option<&str>) -> Option<Seq<char>> {
    match o {
        Some(t) => Some(t@),
        None => None,
    }
}

/// The text that `cd` resolves: `$HOME` or `$OLDPWD` where the target asks
/// for them, otherwise the directory named; an error where that variable is
/// not set.
pub open spec fn target_text(
    target: CdTargetView,
    home: Option<Seq<char>>,
    previous: Option<Seq<char>>,
) -> Result<Seq<char>, Seq<char>> {
    match target {
        CdTargetView::Home => match home {
            Some(h) => Ok(h),
            None => Err("cd: HOME not set"@),
        },
        CdTargetView::Previous => match previous {
            Some(p) => Ok(p),
            None => Err("cd: OLDPWD not set"@),
        },
        CdTargetView::Dir(d) => Ok(d),
    }
}

/// The text that `cd` resolves, given `$HOME` and `$OLDPWD` where they are
/// set.
pub fn target_text_of(target: &CdTarget, home: Option<&str>, previous: Option<&str>) -> (r: Result<
    String,
    String,
>)
    ensures
        match r {
            Ok(t) => target_text(target@, text_view(home), text_view(previous)) == Ok::<
                Seq<char>,
                Seq<char>,
            >(t@),
            Err(m) => target_text(target@, text_view(home), text_view(previous)) == Err::<
                Seq<char>,
                Seq<char>,
            >(m@),
        },
{
    match target {
        CdTarget::Home => match home {
            Some(h) => Ok(String::from_str(h)),
            None => Err(String::from_str("cd: HOME not set")),
        },
        CdTarget::Previous => match previous {
            Some(p) => Ok(String::from_str(p)),
            None => Err(String::from_str("cd: OLDPWD not set")),
        },
        CdTarget::Dir(d) => Ok(d.clone()),
    }
}

/// The directories that `cd` keeps: the current one, and the one it left
/// last (`$OLDPWD`), where there is one.
pub struct DirState {
    pub cwd: String,
    pub previous: Option<String>,
}

/// `DirState` with its paths as characters.
pub struct DirView {
    pub cwd: Seq<char>,
    pub previous: Option<Seq<char>>,
}

impl View for DirState {
    type V = DirView;

    open spec fn view(&self) -> DirView {
        DirView {
            cwd: self.cwd@,
            previous: match self.previous {
                Some(p) => Some(p@),
                None => None,
            },
        }
    }
}

/// The directories after `cd` resolved its target to `resolved`: nothing
/// changes where that is the current directory; otherwise it becomes the
/// current one and the one left becomes the previous one.
pub open spec fn after_cd(st: DirView, resolved: Seq<char>) -> DirView {
    if resolved == st.cwd {
        st
    } else {
        DirView { cwd: resolved, previous: Some(st.cwd) }
    }
}

/// The directories after `cd` resolved its target to `resolved`.
pub fn next_dirs(st: &DirState, resolved: &str) -> (r: DirState)
    ensures
        r@ == after_cd(st@, resolved@),
{
    if same_text(resolved, st.cwd.as_str()) {
        DirState {
            cwd: st.cwd.clone(),
            previous: match &st.previous {
                Some(p) => Some(p.clone()),
                None => None,
            },
        }
    } else {
        DirState { cwd: String::from_str(resolved), previous: Some(st.cwd.clone()) }
    }
}

/// `cd -` undoes a `cd` that changed directory. From an absolute current
/// directory `st.cwd`, a `cd` that resolves to another directory `q` makes
/// `q` current and `st.cwd` the previous one; `cd -` then names that
/// previous directory, which, being absolute, is asked for as it stands;
/// where it resolves to itself, it is current again and `q` is the previous
/// one.
pub proof fn law_cd_dash_undoes_cd(st: DirView, q: Seq<char>, home: Option<Seq<char>>)
    requires
        st.cwd.len() > 0,
        st.cwd[0] == '/',
        q != st.cwd,
    ensures
        after_cd(st, q) == (DirView { cwd: q, previous: Some(st.cwd) }),
        target_of(seq!["-"@]) == CdTargetView::Previous,
        target_text(CdTargetView::Previous, home, after_cd(st, q).previous) == Ok::<
            Seq<char>,
            Seq<char>,
        >(st.cwd),
        requested_dir(after_cd(st, q).cwd, st.cwd) == st.cwd,
        after_cd(after_cd(st, q), st.cwd) == (DirView { cwd: st.cwd, previous: Some(q) }),
{
    reveal_strlit("-");
    reveal_strlit("~");
    assert("-"@[0] != "~"@[0]);
}

} // verus!
