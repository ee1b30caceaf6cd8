//! `mv`: the operands and the path a source is moved to.
use vstd::prelude::*;
use crate::text::{concat3, joined_path, join_path};

verus! {

/// `mv` takes exactly a source and a destination.
pub fn mv_operands(args: &[&str]) -> (r: Result<(String, String), String>)
    ensures
        r is Ok <==> args@.len() == 2,
        r matches Ok((s, d)) ==> s@ == args@[0]@ && d@ == args@[1]@,
        r matches Err(m) ==> m@ == "mv: requires two arguments, a source and a destination"@,
{
    if args.len() != 2 {
        Err(String::from_str("mv: requires two arguments, a source and a destination"))
    } else {
        Ok((String::from_str(args[0]), String::from_str(args[1])))
    }
}

/// Where `mv` moves `source`: a missing source is an error; into an
/// existing directory the source keeps its file name; otherwise it takes
/// the destination's name.
pub open spec fn move_target(
    source: Seq<char>,
    exists: bool,
    file_name: Option<Seq<char>>,
    destination: Seq<char>,
    destination_is_dir: bool,
) -> Result<Seq<char>, Seq<char>> {
    if !exists {
        Err("mv: cannot move '"@ + source + "': No such file or directory"@)
    } else if destination_is_dir {
        match file_name {
            Some(name) => Ok(joined_path(destination, name)),
            None => Err("mv: cannot get file name from '"@ + source + "'"@),
        }
    } else {
        Ok(destination)
    }
}

/// Where `mv` moves `source`, given whether it exists and its final path
/// component, and whether the destination is an existing directory.
pub fn mv_target(
    source: &str,
    exists: bool,
    file_name: Option<&str>,
    destination: &str,
    destination_is_dir: bool,
) -> (r: Result<String, String>)
    ensures
        match r {
            Ok(p) => move_target(source@, exists, match file_name {
                Some(n) => Some(n@),
                None => None,
            }, destination@, destination_is_dir) == Ok::<Seq<char>, Seq<char>>(p@),
            Err(m) => move_target(source@, exists, match file_name {
                Some(n) => Some(n@),
                None => None,
            }, destination@, destination_is_dir) == Err::<Seq<char>, Seq<char>>(m@),
        },
{
    if !exists {
        Err(concat3("mv: cannot move '", source, "': No such file or directory"))
    } else if destination_is_dir {
        match file_name {
            Some(name) => Ok(join_path(destination, name)),
            None => Err(concat3("mv: cannot get file name from '", source, "'")),
        }
    } else {
        Ok(String::from_str(destination))
    }
}

/// Moving into an existing directory puts the source inside it under its
/// own file name: the target is the directory, a `/` unless the directory
/// already ends with one, and the name; so it differs from the directory
/// and ends with the name. A destination that is not a directory is the
/// target itself, and a missing source is an error.
pub proof fn law_mv_into_directory_keeps_name(
    source: Seq<char>,
    name: Seq<char>,
    destination: Seq<char>,
    destination_is_dir: bool,
)
    requires
        name.len() > 0,
        name[0] != '/',
    ensures
        destination_is_dir && destination.len() > 0 && destination.last() != '/' ==> move_target(
            source,
            true,
            Some(name),
            destination,
            true,
        ) == Ok::<Seq<char>, Seq<char>>(destination + seq!['/'] + name),
        destination_is_dir && destination.len() > 0 && destination.last() == '/' ==> move_target(
            source,
            true,
            Some(name),
            destination,
            true,
        ) == Ok::<Seq<char>, Seq<char>>(destination + name),
        destination_is_dir ==> (move_target(source, true, Some(name), destination, true) matches Ok(p)
            && p != destination && p.len() >= name.len() && p.subrange(
            p.len() - name.len(),
            p.len() as int,
        ) == name),
        move_target(source, true, Some(name), destination, false) == Ok::<Seq<char>, Seq<char>>(
            destination,
        ),
        move_target(source, false, Some(name), destination, destination_is_dir) is Err,
{
    let p = move_target(source, true, Some(name), destination, true)->Ok_0;
    assert(p.subrange(p.len() - name.len(), p.len() as int) =~= name);
    assert(p.len() > destination.len());
}

} // verus!
