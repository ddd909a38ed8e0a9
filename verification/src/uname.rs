use vstd::prelude::*;

use crate::deps::{Uname, UnameInfo};
use crate::text::{chars_of, eq_lit, join, push_join, views};

verus! {

/// Whether `flag` is one of the arguments.
pub open spec fn has_flag(args: Seq<Seq<char>>, flag: Seq<char>) -> bool {
    exists|i: int| 0 <= i < args.len() && args[i] == flag
}

/// The fields that `uname` prints, in order.
pub open spec fn uname_parts(info: UnameInfo, args: Seq<Seq<char>>) -> Seq<Seq<char>> {
    let all = has_flag(args, "-a"@);
    let s = if all || has_flag(args, "-s"@) || args.len() == 0 { seq![info.sysname@] } else { seq![] };
    let n = if all || has_flag(args, "-n"@) { seq![info.nodename@] } else { seq![] };
    let r = if all || has_flag(args, "-r"@) { seq![info.release@] } else { seq![] };
    let v = if all || has_flag(args, "-v"@) { seq![info.version@] } else { seq![] };
    let m = if all || has_flag(args, "-m"@) { seq![info.machine@] } else { seq![] };
    s + n + r + v + m
}

/// The line that `uname` prints.
pub open spec fn uname_text(info: UnameInfo, args: Seq<Seq<char>>) -> Seq<char> {
    join(uname_parts(info, args), " "@) + "\n"@
}

/// Whether one of `args` is `flag`.
pub fn has_flag_exec(args: &[String], flag: &str) -> (r: bool)
    ensures
        r == has_flag(views(args@), flag@),
{
    let mut i: usize = 0;
    while i < args.len()
        invariant
            i <= args.len(),
            forall|j: int| 0 <= j < i ==> args@[j]@ != flag@,
        decreases args.len() - i,
    {
        let a = chars_of(args[i].as_str());
        if eq_lit(a.as_slice(), flag) {
            assert(views(args@)[i as int] == flag@);
            return true;
        }
        i = i + 1;
    }
    assert forall|j: int| 0 <= j < views(args@).len() implies views(args@)[j] != flag@ by {
        assert(views(args@)[j] == args@[j]@);
    }
    false
}

/// Appends the fields of `info` that `args` select, separated by spaces.
pub fn format_uname(out: &mut String, info: &UnameInfo, args: &[String])
    ensures
        final(out)@ == old(out)@ + uname_text(*info, views(args@)),
{
    let all = has_flag_exec(args, "-a");
    let mut parts: Vec<String> = Vec::new();
    if all || has_flag_exec(args, "-s") || args.len() == 0 {
        parts.push(info.sysname.clone());
    }
    if all || has_flag_exec(args, "-n") {
        parts.push(info.nodename.clone());
    }
    if all || has_flag_exec(args, "-r") {
        parts.push(info.release.clone());
    }
    if all || has_flag_exec(args, "-v") {
        parts.push(info.version.clone());
    }
    if all || has_flag_exec(args, "-m") {
        parts.push(info.machine.clone());
    }
    assert(views(parts@) =~= uname_parts(*info, views(args@)));
    push_join(out, parts.as_slice(), " ");
    out.append("\n");
}

/// Prints system information; with no flags, the system name.
pub fn run<U: Uname>(out: &mut String, sys: &U, args: &[String]) -> (r: Result<(), String>)
    ensures
        r is Ok ==> exists|info: UnameInfo| final(out)@ == old(out)@ + #[trigger] uname_text(info, views(args@)),
        r is Err ==> final(out)@ == old(out)@,
{
    let info = sys.uname()?;
    format_uname(out, &info, args);
    Ok(())
}

} // verus!
