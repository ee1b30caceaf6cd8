//! `pwd`: its operands.
use vstd::prelude::*;

verus! {

/// `pwd` takes no arguments.
pub fn pwd_check(args: &[&str]) -> (r: Result<(), String>)
    ensures
        r is Err <==> args@.len() > 0,
        r matches Err(m) ==> m@ == "pwd: too many arguments"@,
{
    if args.len() > 0 {
        Err(String::from_str("pwd: too many arguments"))
    } else {
        Ok(())
    }
}

} // verus!
