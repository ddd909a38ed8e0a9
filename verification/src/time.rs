use vstd::prelude::*;

use crate::deps::Clock;
use crate::text::{owned, pad2, push_pad2};

verus! {

/// `HH:MM:SS UTC` for a number of seconds since the Unix epoch.
pub open spec fn clock_text(secs: u64) -> Seq<char> {
    pad2((secs % 86400 / 3600) as nat) + ":"@ + pad2((secs % 3600 / 60) as nat) + ":"@ + pad2(
        (secs % 60) as nat,
    ) + " UTC\n"@
}

/// Appends the time of day of `secs` seconds after the Unix epoch.
pub fn format_time(out: &mut String, secs: u64)
    ensures
        final(out)@ == old(out)@ + clock_text(secs),
{
    push_pad2(out, secs % 86400 / 3600);
    out.append(":");
    push_pad2(out, secs % 3600 / 60);
    out.append(":");
    push_pad2(out, secs % 60);
    out.append(" UTC\n");
}

/// Prints the current UTC time of day.
pub fn run<C: Clock>(out: &mut String, clock: &C) -> (r: Result<(), String>)
    ensures
        match r {
            Ok(()) => exists|secs: u64| final(out)@ == old(out)@ + #[trigger] clock_text(secs),
            Err(e) => e@ == "clock is before Unix epoch"@ && final(out)@ == old(out)@,
        },
{
    match clock.now() {
        Some(secs) => {
            format_time(out, secs);
            Ok(())
        },
        None => Err(owned("clock is before Unix epoch")),
    }
}

} // verus!
