use vstd::prelude::*;

use crate::text::{join, push_join, views};

verus! {

/// What `hello` prints for its arguments.
pub open spec fn hello_text(args: Seq<Seq<char>>) -> Seq<char> {
    if args.len() == 0 {
        "hello\n"@
    } else {
        "hello "@ + join(args, " and "@) + "\n"@
    }
}

/// Prints `hello`, or greets the given names joined with `and`.
pub fn run(out: &mut String, args: &[String]) -> (r: Result<(), String>)
    ensures
        r is Ok,
        final(out)@ == old(out)@ + hello_text(views(args@)),
{
    if args.len() == 0 {
        out.append("hello\n");
    } else {
        out.append("hello ");
        push_join(out, args, " and ");
        out.append("\n");
    }
    Ok(())
}

} // verus!
