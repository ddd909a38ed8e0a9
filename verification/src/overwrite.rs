use vstd::prelude::*;

use crate::deps::Fs;
use crate::text::owned;

verus! {

/// Copies `src` to `dst`, replacing `dst`, and reports `src -> dst`.
pub fn run<F: Fs>(out: &mut String, fs: &F, args: &[String]) -> (r: Result<(), String>)
    ensures
        args@.len() != 2 ==> (r matches Err(e) && e@ == "usage: overwrite <src> <dst>"@),
        r is Ok ==> args@.len() == 2 && final(out)@ == old(out)@ + args@[0]@ + " -> "@ + args@[1]@
            + "\n"@,
        r is Err ==> final(out)@ == old(out)@,
{
    if args.len() != 2 {
        return Err(owned("usage: overwrite <src> <dst>"));
    }
    let contents = fs.read(args[0].as_str())?;
    fs.write(args[1].as_str(), contents.as_str())?;
    out.append(args[0].as_str());
    out.append(" -> ");
    out.append(args[1].as_str());
    out.append("\n");
    Ok(())
}

} // verus!
