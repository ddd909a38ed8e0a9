use vstd::prelude::*;

use crate::deps::{Redirect, RedirectStep};
use crate::text::{chars_of, dec, has_prefix, owned, push_dec, starts_with_lit};

verus! {

/// The line printed for step `i` of a redirect chain: a redirect shows where
/// it leads (`?` when the chain ends there).
pub open spec fn step_line(steps: Seq<RedirectStep>, i: int) -> Seq<char> {
    let s = steps[i];
    if 300 <= s.status < 400 {
        let next = if i + 1 < steps.len() { steps[i + 1].url@ } else { "?"@ };
        dec(s.status as nat) + "  "@ + s.url@ + "  →  "@ + next + "\n"@
    } else {
        dec(s.status as nat) + "  "@ + s.url@ + "\n"@
    }
}

/// The lines for the first `n` steps.
pub open spec fn steps_text(steps: Seq<RedirectStep>, n: int) -> Seq<char>
    decreases n,
{
    if n <= 0 {
        seq![]
    } else {
        steps_text(steps, n - 1) + step_line(steps, n - 1)
    }
}

/// The URL that `redirect` follows: `http://` is added when no scheme is given.
pub open spec fn start_url(raw: Seq<char>) -> Seq<char> {
    if has_prefix(raw, "http://"@) || has_prefix(raw, "https://"@) {
        raw
    } else {
        "http://"@ + raw
    }
}

/// The URL that `redirect` follows for `raw`.
pub fn start_url_exec(raw: &str) -> (r: String)
    ensures
        r@ == start_url(raw@),
{
    let cs = chars_of(raw);
    if starts_with_lit(cs.as_slice(), "http://") || starts_with_lit(cs.as_slice(), "https://") {
        owned(raw)
    } else {
        let mut u = owned("http://");
        u.append(raw);
        u
    }
}

/// Appends one line per step of a redirect chain.
pub fn print_steps(out: &mut String, steps: &[RedirectStep])
    ensures
        final(out)@ == old(out)@ + steps_text(steps@, steps@.len() as int),
{
    let ghost start = out@;
    let mut i: usize = 0;
    while i < steps.len()
        invariant
            i <= steps@.len(),
            out@ == start + steps_text(steps@, i as int),
        decreases steps.len() - i,
    {
        let step = &steps[i];
        push_dec(out, step.status as u64);
        out.append("  ");
        out.append(step.url.as_str());
        if 300 <= step.status && step.status < 400 {
            out.append("  →  ");
            if i + 1 < steps.len() {
                out.append(steps[i + 1].url.as_str());
            } else {
                out.append("?");
            }
        }
        out.append("\n");
        i = i + 1;
        assert(out@ =~= start + steps_text(steps@, i as int));
    }
}

/// Traces the redirect chain of a URL.
pub fn run<R: Redirect>(out: &mut String, net: &R, args: &[String]) -> (r: Result<(), String>)
    ensures
        args@.len() != 1 ==> (r matches Err(e) && e@ == "usage: redirect <url>"@),
        r is Ok ==> exists|steps: Seq<RedirectStep>| final(out)@ == old(out)@ + #[trigger] steps_text(
            steps,
            steps.len() as int,
        ),
        r is Err ==> final(out)@ == old(out)@,
{
    if args.len() != 1 {
        return Err(owned("usage: redirect <url>"));
    }
    let url = start_url_exec(args[0].as_str());
    let steps = net.follow(url.as_str())?;
    print_steps(out, steps.as_slice());
    Ok(())
}

} // verus!
