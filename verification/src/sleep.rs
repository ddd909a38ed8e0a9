use vstd::prelude::*;

use crate::deps::Sleeper;
use crate::text::{chars_of, owned, parse_unsigned, parse_unsigned_exec};

verus! {

/// The number of seconds that `sleep` takes from its arguments.
pub open spec fn sleep_seconds(args: Seq<String>) -> Result<u64, Seq<char>> {
    if args.len() != 1 {
        Err("usage: sleep <seconds>"@)
    } else {
        match parse_unsigned(args[0]@, u64::MAX as nat) {
            Some(n) => Ok(n as u64),
            None => Err("seconds must be a non-negative integer"@),
        }
    }
}

/// Sleeps for a non-negative integer number of seconds.
pub fn run<S: Sleeper>(out: &mut String, sleeper: &S, args: &[String]) -> (r: Result<(), String>)
    ensures
        final(out)@ == old(out)@,
        match sleep_seconds(args@) {
            Ok(_) => r is Ok,
            Err(msg) => r matches Err(e) && e@ == msg,
        },
{
    if args.len() != 1 {
        return Err(owned("usage: sleep <seconds>"));
    }
    let arg = chars_of(args[0].as_str());
    match parse_unsigned_exec(arg.as_slice(), u64::MAX) {
        Some(secs) => {
            sleeper.sleep(secs);
            Ok(())
        },
        None => Err(owned("seconds must be a non-negative integer")),
    }
}

} // verus!
