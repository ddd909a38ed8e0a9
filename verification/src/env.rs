use vstd::prelude::*;

use crate::deps::Env;
use crate::text::{chars_of, lex_lt, lex_lt_exec, owned, views};

verus! {

broadcast use vstd::seq_lib::group_seq_properties;

/// `a <= b` for name/value pairs: by name, then by value.
pub open spec fn pair_le(a: (String, String), b: (String, String)) -> bool {
    lex_lt(a.0@, b.0@) || (a.0@ == b.0@ && !lex_lt(b.1@, a.1@))
}

pub open spec fn sorted_pairs(s: Seq<(String, String)>) -> bool {
    forall|i: int, j: int| 0 <= i < j < s.len() ==> pair_le(#[trigger] s[i], #[trigger] s[j])
}

proof fn lemma_pair_total(a: (String, String), b: (String, String))
    ensures
        pair_le(a, b) || pair_le(b, a),
{
    crate::text::lemma_lex_total(a.0@, b.0@);
    crate::text::lemma_lex_total(a.1@, b.1@);
    if a.0@ == b.0@ && lex_lt(b.1@, a.1@) {
        crate::text::lemma_lex_asym(b.1@, a.1@);
    }
}

proof fn lemma_pair_trans(a: (String, String), b: (String, String), c: (String, String))
    requires
        pair_le(a, b),
        pair_le(b, c),
    ensures
        pair_le(a, c),
{
    if lex_lt(a.0@, b.0@) && lex_lt(b.0@, c.0@) {
        crate::text::lemma_lex_trans(a.0@, b.0@, c.0@);
    } else if a.0@ == b.0@ && b.0@ == c.0@ {
        crate::text::lemma_lex_total(a.1@, c.1@);
        if lex_lt(c.1@, a.1@) {
            crate::text::lemma_lex_total(b.1@, a.1@);
            crate::text::lemma_lex_total(c.1@, b.1@);
            if lex_lt(a.1@, b.1@) {
                crate::text::lemma_lex_trans(c.1@, a.1@, b.1@);
            }
        }
    }
}

/// Whether `a < b` for name/value pairs.
fn pair_lt_exec(a: &(String, String), b: &(String, String)) -> (r: bool)
    ensures
        r == !pair_le(*b, *a),
{
    let ak = chars_of(a.0.as_str());
    let bk = chars_of(b.0.as_str());
    if lex_lt_exec(ak.as_slice(), bk.as_slice()) {
        proof {
            crate::text::lemma_lex_asym(a.0@, b.0@);
        }
        return true;
    }
    if lex_lt_exec(bk.as_slice(), ak.as_slice()) {
        return false;
    }
    proof {
        crate::text::lemma_lex_total(a.0@, b.0@);
    }
    let av = chars_of(a.1.as_str());
    let bv = chars_of(b.1.as_str());
    lex_lt_exec(av.as_slice(), bv.as_slice())
}

/// Sorts name/value pairs by name, then by value.
pub fn sort_vars(vars: Vec<(String, String)>) -> (r: Vec<(String, String)>)
    ensures
        sorted_pairs(r@),
        r@.to_multiset() == vars@.to_multiset(),
{
    let mut sorted: Vec<(String, String)> = Vec::new();
    let mut i: usize = 0;
    while i < vars.len()
        invariant
            i <= vars@.len(),
            sorted_pairs(sorted@),
            sorted@.to_multiset() == vars@.take(i as int).to_multiset(),
        decreases vars.len() - i,
    {
        let x = (vars[i].0.clone(), vars[i].1.clone());
        assert(x == vars@[i as int]);
        let mut j: usize = 0;
        while j < sorted.len() && !pair_lt_exec(&x, &sorted[j])
            invariant
                j <= sorted@.len(),
                forall|k: int| 0 <= k < j ==> pair_le(#[trigger] sorted@[k], x),
            decreases sorted.len() - j,
        {
            proof {
                lemma_pair_total(x, sorted@[j as int]);
            }
            j = j + 1;
        }
        proof {
            if j < sorted@.len() {
                assert(!pair_le(sorted@[j as int], x));
                lemma_pair_total(x, sorted@[j as int]);
                assert forall|k: int| j <= k < sorted@.len() implies pair_le(x, #[trigger] sorted@[k]) by {
                    if k > j {
                        assert(pair_le(sorted@[j as int], sorted@[k]));
                        lemma_pair_trans(x, sorted@[j as int], sorted@[k]);
                    }
                }
            }
        }
        let ghost before = sorted@;
        sorted.insert(j, x);
        proof {
            assert(sorted@ =~= before.insert(j as int, x));
            assert forall|a: int, b: int| 0 <= a < b < sorted@.len() implies pair_le(
                #[trigger] sorted@[a],
                #[trigger] sorted@[b],
            ) by {
                if a < j && b == j {
                } else if a == j {
                } else if a < j && b > j {
                    assert(sorted@[b] == before[b - 1]);
                } else if a > j {
                    assert(sorted@[a] == before[a - 1]);
                    assert(sorted@[b] == before[b - 1]);
                } else {
                    assert(sorted@[a] == before[a]);
                    assert(sorted@[b] == before[b]);
                }
            }
            assert(vars@.take(i + 1) =~= vars@.take(i as int).push(vars@[i as int]));
            vstd::seq_lib::to_multiset_insert(before, j as int, x);
        }
        i = i + 1;
    }
    assert(vars@.take(i as int) =~= vars@);
    sorted
}

/// `name=value` lines for name/value pairs.
pub open spec fn vars_text(s: Seq<(String, String)>) -> Seq<char>
    decreases s.len(),
{
    if s.len() == 0 {
        seq![]
    } else {
        vars_text(s.drop_last()) + s.last().0@ + "="@ + s.last().1@ + "\n"@
    }
}

/// Appends `name=value` lines.
pub fn print_vars(out: &mut String, vars: &[(String, String)])
    ensures
        final(out)@ == old(out)@ + vars_text(vars@),
{
    let ghost start = out@;
    let mut i: usize = 0;
    while i < vars.len()
        invariant
            i <= vars@.len(),
            out@ == start + vars_text(vars@.take(i as int)),
        decreases vars.len() - i,
    {
        assert(vars@.take(i + 1).drop_last() =~= vars@.take(i as int));
        out.append(vars[i].0.as_str());
        out.append("=");
        out.append(vars[i].1.as_str());
        out.append("\n");
        i = i + 1;
        assert(out@ =~= start + vars_text(vars@.take(i as int)));
    }
    assert(vars@.take(i as int) =~= vars@);
}

/// A line with the value of each variable that is set.
pub open spec fn found_lines(vals: Seq<Option<Seq<char>>>) -> Seq<char>
    decreases vals.len(),
{
    if vals.len() == 0 {
        seq![]
    } else {
        found_lines(vals.drop_last()) + match vals.last() {
            Some(v) => v + "\n"@,
            None => seq![],
        }
    }
}

/// A line `<name>: not set` for each variable that is not.
pub open spec fn not_set_lines(names: Seq<Seq<char>>, vals: Seq<Option<Seq<char>>>) -> Seq<char>
    decreases vals.len(),
{
    if vals.len() == 0 || names.len() == 0 {
        seq![]
    } else {
        not_set_lines(names.drop_last(), vals.drop_last()) + match vals.last() {
            Some(_) => seq![],
            None => names.last() + ": not set\n"@,
        }
    }
}

/// Reports the value that the environment gave for `name`: the value on
/// `out`, or `<name>: not set` on `err_out`.
pub fn print_value(out: &mut String, err_out: &mut String, name: &str, val: Option<String>)
    ensures
        match val {
            Some(v) => final(out)@ == old(out)@ + v@ + "\n"@ && final(err_out)@ == old(err_out)@,
            None => final(out)@ == old(out)@ && final(err_out)@ == old(err_out)@ + name@ + ": not set\n"@,
        },
{
    match val {
        Some(v) => {
            out.append(v.as_str());
            out.append("\n");
            assert(out@ =~= old(out)@ + v@ + "\n"@);
        },
        None => {
            err_out.append(name);
            err_out.append(": not set\n");
            assert(err_out@ =~= old(err_out)@ + name@ + ": not set\n"@);
        },
    }
}

/// With no arguments, prints every variable sorted by name; with names,
/// prints their values and reports the ones that are not set on `err_out`.
/// What the environment holds is its own to say, so the contract holds for
/// some variables and values.
pub fn run<E: Env>(out: &mut String, err_out: &mut String, env: &E, args: &[String]) -> (r: Result<(), String>)
    ensures
        args@.len() == 0 ==> r is Ok && final(err_out)@ == old(err_out)@ && exists|vs: Seq<(String, String)>| sorted_pairs(vs)
            && final(out)@ == old(out)@ + #[trigger] vars_text(vs),
        args@.len() > 0 ==> exists|vals: Seq<Option<Seq<char>>>| {
            &&& vals.len() == args@.len()
            &&& final(out)@ == old(out)@ + #[trigger] found_lines(vals)
            &&& final(err_out)@ == old(err_out)@ + not_set_lines(views(args@), vals)
            &&& (r is Ok <==> forall|k: int| 0 <= k < vals.len() ==> vals[k] is Some)
            &&& (r matches Err(e) ==> e@ == "one or more variables not set"@)
        },
{
    if args.len() == 0 {
        let vars = sort_vars(env.vars());
        print_vars(out, vars.as_slice());
        return Ok(());
    }
    let ghost names = views(args@);
    let ghost out0 = out@;
    let ghost err0 = err_out@;
    let ghost mut vals: Seq<Option<Seq<char>>> = seq![];
    let mut missing = false;
    let mut i: usize = 0;
    while i < args.len()
        invariant
            i <= args@.len(),
            names == views(args@),
            vals.len() == i,
            out@ == out0 + found_lines(vals),
            err_out@ == err0 + not_set_lines(names.take(i as int), vals),
            missing == !(forall|k: int| 0 <= k < vals.len() ==> vals[k] is Some),
        decreases args.len() - i,
    {
        let val = env.var(args[i].as_str());
        let ghost v = match &val {
            Some(x) => Some(x@),
            None => None,
        };
        let ghost prev = vals;
        let is_set = val.is_some();
        print_value(out, err_out, args[i].as_str(), val);
        proof {
            vals = vals.push(v);
            assert(vals.drop_last() =~= prev);
            assert(names.take(i + 1).drop_last() =~= names.take(i as int));
            assert(names.take(i + 1).last() == args@[i as int]@);
            if missing {
                let k = choose|k: int| 0 <= k < prev.len() && !(prev[k] is Some);
                assert(vals[k] == prev[k]);
            } else if is_set {
                assert forall|k: int| 0 <= k < vals.len() implies vals[k] is Some by {
                    if k < prev.len() {
                        assert(vals[k] == prev[k]);
                    }
                }
            } else {
                assert(!(vals[i as int] is Some));
            }
        }
        if !is_set {
            missing = true;
        }
        assert(out@ =~= out0 + found_lines(vals));
        assert(err_out@ =~= err0 + not_set_lines(names.take(i + 1), vals));
        i = i + 1;
    }
    assert(names.take(i as int) =~= names);
    if missing {
        return Err(owned("one or more variables not set"));
    }
    Ok(())
}

} // verus!
