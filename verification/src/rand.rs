use vstd::prelude::*;

use crate::deps::Rng;
use crate::text::{dec, push_dec};

verus! {

/// The line printed for a random value `v`: a number from 1 to 100.
pub open spec fn rand_text(v: u64) -> Seq<char> {
    dec((v % 100 + 1) as nat) + "\n"@
}

/// Appends the number from 1 to 100 that `v` selects.
pub fn format_random(out: &mut String, v: u64)
    ensures
        final(out)@ == old(out)@ + rand_text(v),
{
    push_dec(out, v % 100 + 1);
    out.append("\n");
}

/// Prints a pseudo-random integer from 1 to 100.
pub fn run<R: Rng>(out: &mut String, rng: &mut R) -> (r: Result<(), String>)
    ensures
        r is Ok,
        exists|v: u64| final(out)@ == old(out)@ + #[trigger] rand_text(v),
{
    let v = rng.next_u64();
    format_random(out, v);
    Ok(())
}

} // verus!
