//! `cp`: the operands, and where each source is copied to.
use vstd::prelude::*;
use crate::text::{concat3, joined_path, join_path};

verus! {

/// The sources of a copy and its destination (the last operand).
pub struct CopyJob {
    pub sources: Vec<String>,
    pub destination: String,
}

/// The message for fewer than two operands.
pub open spec fn missing_operand_message() -> Seq<char> {
    "cp: missing file operand"@
}

/// The message for several sources and a destination that is not a
/// directory.
pub open spec fn not_a_directory_message(destination: Seq<char>) -> Seq<char> {
    "cp: target '"@ + destination + "' is not a directory"@
}

/// Reads the operands of `cp`. `destination_is_dir` tells whether the last
/// operand names an existing directory. At least two operands are needed,
/// and with several sources the destination must be a directory.
pub fn cp_plan(args: &[&str], destination_is_dir: bool) -> (r: Result<CopyJob, String>)
    ensures
        args@.len() < 2 ==> (r matches Err(m) && m@ == missing_operand_message()),
        args@.len() > 2 && !destination_is_dir ==> (r matches Err(m) && m@
            == not_a_directory_message(args@.last()@)),
        args@.len() == 2 || (args@.len() > 2 && destination_is_dir) ==> (r matches Ok(job) && {
            &&& job.destination@ == args@.last()@
            &&& job.sources@.len() == args@.len() - 1
            &&& forall|k: int| 0 <= k < job.sources@.len() ==> #[trigger] job.sources@[k]@ == args@[k]@
        }),
{
    let n = args.len();
    if n < 2 {
        return Err(String::from_str("cp: missing file operand"));
    }
    let destination = String::from_str(args[n - 1]);
    if n - 1 > 1 && !destination_is_dir {
        return Err(concat3("cp: target '", args[n - 1], "' is not a directory"));
    }
    let mut sources: Vec<String> = Vec::new();
    let mut i: usize = 0;
    while i < n - 1
        invariant
            n == args@.len(),
            n >= 2,
            i <= n - 1,
            sources@.len() == i,
            forall|k: int| 0 <= k < i ==> #[trigger] sources@[k]@ == args@[k]@,
        decreases n - 1 - i,
    {
        sources.push(String::from_str(args[i]));
        i = i + 1;
    }
    Ok(CopyJob { sources, destination })
}

/// What happens to one source.
pub enum CopyStep {
    /// Copy it to this path.
    Copy(String),
    /// Report this message and go on with the next source.
    Skip(String),
}

/// `CopyStep` with its text as characters.
pub enum CopyStepView {
    Copy(Seq<char>),
    Skip(Seq<char>),
}

impl View for CopyStep {
    type V = CopyStepView;

    open spec fn view(&self) -> CopyStepView {
        match self {
            CopyStep::Copy(p) => CopyStepView::Copy(p@),
            CopyStep::Skip(m) => CopyStepView::Skip(m@),
        }
    }
}

/// What `cp` does with `source`: a missing source is reported; into a
/// directory a source is copied under its own file name; otherwise it is
/// copied to the destination itself.
pub open spec fn copy_step_view(
    source: Seq<char>,
    exists: bool,
    file_name: Option<Seq<char>>,
    destination: Seq<char>,
    destination_is_dir: bool,
) -> CopyStepView {
    if !exists {
        CopyStepView::Skip("cp: cannot copy '"@ + source + "': No such file or directory"@)
    } else if destination_is_dir {
        match file_name {
            Some(name) => CopyStepView::Copy(joined_path(destination, name)),
            None => CopyStepView::Skip("cp: cannot get file name from '"@ + source + "'"@),
        }
    } else {
        CopyStepView::Copy(destination)
    }
}

/// What `cp` does with one source, given whether it exists and its final
/// path component.
pub fn copy_step(
    source: &str,
    exists: bool,
    file_name: Option<&str>,
    destination: &str,
    destination_is_dir: bool,
) -> (r: CopyStep)
    ensures
        r@ == copy_step_view(
            source@,
            exists,
            match file_name {
                Some(n) => Some(n@),
                None => None,
            },
            destination@,
            destination_is_dir,
        ),
{
    if !exists {
        CopyStep::Skip(concat3("cp: cannot copy '", source, "': No such file or directory"))
    } else if destination_is_dir {
        match file_name {
            Some(name) => CopyStep::Copy(join_path(destination, name)),
            None => CopyStep::Skip(concat3("cp: cannot get file name from '", source, "'")),
        }
    } else {
        CopyStep::Copy(String::from_str(destination))
    }
}

/// The result of the whole copy: an error once any source failed.
pub fn cp_outcome(had_error: bool) -> (r: Result<(), String>)
    ensures
        had_error <==> r is Err,
        r matches Err(m) ==> m@ == "cp: encountered one or more errors"@,
{
    if had_error {
        Err(String::from_str("cp: encountered one or more errors"))
    } else {
        Ok(())
    }
}

/// Copying into a directory targets a path inside it under the source's
/// own file name: the directory, a `/` unless it already ends with one,
/// and the name; so the target differs from the directory and ends with
/// the name. A destination that is not a directory is the target itself,
/// and a missing source is skipped.
pub proof fn law_cp_into_directory_keeps_name(
    source: Seq<char>,
    name: Seq<char>,
    destination: Seq<char>,
    destination_is_dir: bool,
)
    requires
        name.len() > 0,
        name[0] != '/',
    ensures
        destination.len() > 0 && destination.last() != '/' ==> copy_step_view(
            source,
            true,
            Some(name),
            destination,
            true,
        ) == CopyStepView::Copy(destination + seq!['/'] + name),
        destination.len() > 0 && destination.last() == '/' ==> copy_step_view(
            source,
            true,
            Some(name),
            destination,
            true,
        ) == CopyStepView::Copy(destination + name),
        copy_step_view(source, true, Some(name), destination, true) matches CopyStepView::Copy(p)
            && p != destination && p.len() >= name.len() && p.subrange(
            p.len() - name.len(),
            p.len() as int,
        ) == name,
        copy_step_view(source, true, Some(name), destination, false) == CopyStepView::Copy(
            destination,
        ),
        copy_step_view(source, false, Some(name), destination, destination_is_dir) is Skip,
{
    let p = copy_step_view(source, true, Some(name), destination, true)->Copy_0;
    assert(p.subrange(p.len() - name.len(), p.len() as int) =~= name);
    assert(p.len() > destination.len());
}

} // verus!
