//! `mkdir`: its operands.
use vstd::prelude::*;

verus! {

/// `mkdir` needs at least one operand.
pub fn mkdir_check(args: &[&str]) -> (r: Result<(), String>)
    ensures
        r is Err <==> args@.len() == 0,
        r matches Err(m) ==> m@ == "mkdir: missing operand"@,
{
    if args.len() == 0 {
        Err(String::from_str("mkdir: missing operand"))
    } else {
        Ok(())
    }
}

} // verus!
