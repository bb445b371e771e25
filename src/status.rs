//! The `status` built-in.
use vstd::prelude::*;
use crate::shell::Shell;

verus! {

/// The `status` built-in: with no argument it reports nothing; with one it says whether
/// this is a login shell; with more it fails.
pub fn status(args: &Vec<String>, shell: &Shell) -> (r: Result<String, String>)
    ensures
        args.len() == 0 ==> (r matches Ok(t) && t@.len() == 0),
        args.len() == 1 ==> (r matches Ok(t) && t@ == if shell.is_login {
            "This is a login shell\n"@
        } else {
            "This is not a login shell\n"@
        }),
        args.len() > 1 ==> (r matches Err(e) && e@ == "status takes one argument\n"@),
{
    if args.len() == 0 {
        Ok(String::new())
    } else if args.len() == 1 {
        if shell.is_login {
            Ok("This is a login shell\n".to_string())
        } else {
            Ok("This is not a login shell\n".to_string())
        }
    } else {
        Err("status takes one argument\n".to_string())
    }
}

} // verus!
