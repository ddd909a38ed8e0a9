use vstd::prelude::*;

use crate::deps::Hostname;

verus! {

/// Prints the host name that the system reports.
pub fn run<H: Hostname>(out: &mut String, sys: &H) -> (r: Result<(), String>)
    ensures
        r is Ok ==> exists|name: String| final(out)@ == old(out)@ + name@ + "\n"@,
        r is Err ==> final(out)@ == old(out)@,
{
    let name = sys.hostname()?;
    out.append(name.as_str());
    out.append("\n");
    Ok(())
}

} // verus!
