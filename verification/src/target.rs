//! The `host[:port]` arguments of the TLS utilities.
use vstd::prelude::*;

use crate::text::{
    chars_of, count_char, count_char_exec, has_prefix, last_index, last_index_exec,
    parse_unsigned, parse_unsigned_exec, slice_range, split_char, split_exec, string_of,
    strip_prefix_lit,
};

verus! {

/// Why a `host[:port]` argument was refused.
#[derive(Clone, Copy, Debug, PartialEq, Eq, Structural)]
pub enum TargetError {
    /// No host: the argument does not have the form of a target.
    Usage,
    /// A port that is not a number from 1 to 65535.
    InvalidPort,
}

/// The argument without an `https://` or `tls://` scheme.
pub open spec fn strip_tls_scheme(raw: Seq<char>) -> Seq<char> {
    if has_prefix(raw, "https://"@) {
        raw.skip("https://"@.len() as int)
    } else if has_prefix(raw, "tls://"@) {
        raw.skip("tls://"@.len() as int)
    } else {
        raw
    }
}

/// The host and, when one colon separates them, the port of a target.
pub open spec fn split_host_port(raw: Seq<char>) -> Result<(Seq<char>, Option<u16>), TargetError> {
    let a = split_char(strip_tls_scheme(raw), '/')[0];
    if a.len() == 0 {
        Err(TargetError::Usage)
    } else if count_char(a, ':') == 1 {
        let k = last_index(a, ':');
        let host = a.take(k);
        match parse_unsigned(a.skip(k + 1), 65535) {
            _ if host.len() == 0 => Err(TargetError::Usage),
            Some(p) => if p == 0 {
                Err(TargetError::InvalidPort)
            } else {
                Ok((host, Some(p as u16)))
            },
            None => Err(TargetError::InvalidPort),
        }
    } else {
        Ok((a, None))
    }
}

/// The host and port of a target, 443 when none is given.
pub open spec fn target_with_default(raw: Seq<char>) -> Result<(Seq<char>, u16), TargetError> {
    match split_host_port(raw) {
        Ok((h, Some(p))) => Ok((h, p)),
        Ok((h, None)) => Ok((h, 443)),
        Err(e) => Err(e),
    }
}

/// Splits `[https://|tls://]host[:port][/path]` into host and port.
pub fn split_host_port_exec(raw: &str) -> (r: Result<(String, Option<u16>), TargetError>)
    ensures
        match split_host_port(raw@) {
            Ok((h, p)) => r matches Ok((hh, pp)) && hh@ == h && pp == p,
            Err(e) => r == Err::<(String, Option<u16>), TargetError>(e),
        },
{
    let cs = chars_of(raw);
    let w = match strip_prefix_lit(cs.as_slice(), "https://") {
        Some(rest) => rest,
        None => match strip_prefix_lit(cs.as_slice(), "tls://") {
            Some(rest) => rest,
            None => cs,
        },
    };
    assert(w@ == strip_tls_scheme(raw@));
    let pieces = split_exec(w.as_slice(), '/');
    proof {
        crate::text::lemma_split_char_nonempty(w@, '/');
    }
    let a = &pieces[0];
    if a.len() == 0 {
        return Err(TargetError::Usage);
    }
    if count_char_exec(a.as_slice(), ':') == 1 {
        let k = match last_index_exec(a.as_slice(), ':') {
            Some(k) => k,
            None => {
                proof {
                    lemma_count_last(a@, ':');
                }
                return Err(TargetError::Usage);
            },
        };
        let host = slice_range(a.as_slice(), 0, k);
        if host.len() == 0 {
            return Err(TargetError::Usage);
        }
        let port_str = slice_range(a.as_slice(), k + 1, a.len());
        match parse_unsigned_exec(port_str, 65535) {
            Some(p) => if p == 0 {
                Err(TargetError::InvalidPort)
            } else {
                Ok((string_of(host), Some(p as u16)))
            },
            None => Err(TargetError::InvalidPort),
        }
    } else {
        Ok((string_of(a.as_slice()), None))
    }
}

proof fn lemma_count_last(s: Seq<char>, c: char)
    requires
        count_char(s, c) >= 1,
    ensures
        last_index(s, c) >= 0,
    decreases s.len(),
{
    if s.len() > 0 && s.last() != c {
        lemma_count_last(s.drop_last(), c);
    }
}

/// The host and port of a target, 443 when none is given.
pub fn parse_host_port(raw: &str) -> (r: Result<(String, u16), TargetError>)
    ensures
        match target_with_default(raw@) {
            Ok((h, p)) => r matches Ok((hh, pp)) && hh@ == h && pp == p,
            Err(e) => r == Err::<(String, u16), TargetError>(e),
        },
{
    match split_host_port_exec(raw)? {
        (h, Some(p)) => Ok((h, p)),
        (h, None) => Ok((h, 443)),
    }
}

} // verus!
