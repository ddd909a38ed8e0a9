use vstd::prelude::*;

use crate::deps::{Env, Fs};
use crate::text::{
    chars_of, has_prefix, owned, push_chars, split_char, split_exec, string_of, views,
};

verus! {

/// `Path::join` on Unix: an absolute `name` replaces `dir`; otherwise a `/`
/// separates them unless `dir` is empty or already ends with one.
pub open spec fn join_path(dir: Seq<char>, name: Seq<char>) -> Seq<char> {
    if has_prefix(name, "/"@) {
        name
    } else if dir.len() == 0 || dir.last() == '/' {
        dir + name
    } else {
        dir + "/"@ + name
    }
}

/// `dir.join(name)` as text.
pub fn join_path_exec(dir: &[char], name: &[char]) -> (r: String)
    ensures
        r@ == join_path(dir@, name@),
{
    let slash = chars_of("/");
    if crate::text::starts_with(name, slash.as_slice()) {
        return string_of(name);
    }
    let mut r = string_of(dir);
    if !(dir.len() == 0 || dir[dir.len() - 1] == '/') {
        r.append("/");
    }
    push_chars(&mut r, name);
    r
}

/// The directories of a `PATH` value.
pub open spec fn path_dirs(path: Seq<char>) -> Seq<Seq<char>> {
    split_char(path, ':')
}

/// Where `name` is found, from directory `k` of `dirs` on, when asking
/// whether `name` joined to each directory is a file answered `answers`:
/// the first directory answered yes; none where no answer from `k` on is yes.
pub open spec fn first_hit(dirs: Seq<Seq<char>>, name: Seq<char>, answers: Seq<bool>, k: int) -> Option<Seq<char>>
    decreases answers.len() - k,
{
    if k < 0 || k >= answers.len() || k >= dirs.len() {
        None
    } else if answers[k] {
        Some(join_path(dirs[k], name))
    } else {
        first_hit(dirs, name, answers, k + 1)
    }
}

/// Whether `p` is where a search of the `PATH` value `path` finds `name`,
/// for some answers of the file checks.
pub open spec fn found_in(path: Seq<char>, name: Seq<char>, p: Seq<char>) -> bool {
    exists|answers: Seq<bool>| #[trigger] first_hit(path_dirs(path), name, answers, 0) == Some(p)
}

/// Whether each name that was found was found where a search of `path`
/// finds it.
pub open spec fn all_found_in(path: Seq<char>, names: Seq<Seq<char>>, os: Seq<Option<Seq<char>>>) -> bool {
    forall|k: int| 0 <= k < os.len() && (#[trigger] os[k]) is Some ==> found_in(path, names[k], os[k]->0)
}

/// A line for each name that was found.
pub open spec fn hits_text(os: Seq<Option<Seq<char>>>) -> Seq<char>
    decreases os.len(),
{
    if os.len() == 0 {
        seq![]
    } else {
        hits_text(os.drop_last()) + match os.last() {
            Some(p) => p + "\n"@,
            None => seq![],
        }
    }
}

/// A line `<name>: not found` for each name that was not.
pub open spec fn misses_text(names: Seq<Seq<char>>, os: Seq<Option<Seq<char>>>) -> Seq<char>
    decreases os.len(),
{
    if os.len() == 0 || names.len() == 0 {
        seq![]
    } else {
        misses_text(names.drop_last(), os.drop_last()) + match os.last() {
            Some(_) => seq![],
            None => names.last() + ": not found\n"@,
        }
    }
}

/// Picks where `name` is found from the answers of the file checks on its
/// joins with `dirs`, in order: the first directory answered yes.
pub fn first_hit_exec(dirs: &[Vec<char>], name: &[char], answers: &[bool]) -> (r: Option<String>)
    ensures
        match r {
            Some(p) => first_hit(dirs@.map_values(|d: Vec<char>| d@), name@, answers@, 0) == Some(p@),
            None => first_hit(dirs@.map_values(|d: Vec<char>| d@), name@, answers@, 0) is None,
        },
{
    let ghost ds = dirs@.map_values(|d: Vec<char>| d@);
    let mut k: usize = 0;
    while k < answers.len() && k < dirs.len()
        invariant
            k <= answers@.len(),
            ds == dirs@.map_values(|d: Vec<char>| d@),
            first_hit(ds, name@, answers@, 0) == first_hit(ds, name@, answers@, k as int),
        decreases answers.len() - k,
    {
        if answers[k] {
            let p = join_path_exec(dirs[k].as_slice(), name);
            assert(ds[k as int] == dirs@[k as int]@);
            return Some(p);
        }
        k = k + 1;
    }
    None
}

/// Searches `PATH` and prints, for each command, the first directory of
/// `PATH` that holds it as a file (joined with the name); commands not found
/// are reported on `err_out`. The value of `PATH` and the answers of the file
/// checks are the services' to give, so the contract holds for some of them.
pub fn run<E: Env, F: Fs>(out: &mut String, err_out: &mut String, env: &E, fs: &F, args: &[String]) -> (r: Result<(), String>)
    ensures
        args@.len() == 0 ==> (r matches Err(e) && e@ == "usage: which <command>..."@) && final(out)@ == old(out)@
            && final(err_out)@ == old(err_out)@,
        args@.len() > 0 ==> exists|path: Seq<char>, os: Seq<Option<Seq<char>>>| {
            &&& os.len() == args@.len()
            &&& #[trigger] all_found_in(path, views(args@), os)
            &&& final(out)@ == old(out)@ + hits_text(os)
            &&& final(err_out)@ == old(err_out)@ + misses_text(views(args@), os)
            &&& (r is Ok <==> forall|k: int| 0 <= k < os.len() ==> os[k] is Some)
            &&& (r matches Err(e) ==> e@ == "one or more commands not found"@)
        },
{
    if args.len() == 0 {
        return Err(owned("usage: which <command>..."));
    }
    let path_val = match env.var("PATH") {
        Some(p) => p,
        None => String::new(),
    };
    let pv = chars_of(path_val.as_str());
    let dirs = split_exec(pv.as_slice(), ':');
    let ghost ds = dirs@.map_values(|d: Vec<char>| d@);
    assert(ds =~= path_dirs(path_val@));
    let ghost names = views(args@);
    let ghost out0 = out@;
    let ghost err0 = err_out@;
    let ghost mut os: Seq<Option<Seq<char>>> = seq![];
    let mut any_missing = false;
    let mut i: usize = 0;
    while i < args.len()
        invariant
            i <= args@.len(),
            ds == dirs@.map_values(|d: Vec<char>| d@),
            ds == path_dirs(path_val@),
            names == views(args@),
            os.len() == i,
            forall|k: int| 0 <= k < os.len() && (#[trigger] os[k]) is Some ==> found_in(path_val@, args@[k]@, os[k]->0),
            out@ == out0 + hits_text(os),
            err_out@ == err0 + misses_text(names.take(i as int), os),
            any_missing == !(forall|k: int| 0 <= k < os.len() ==> os[k] is Some),
        decreases args.len() - i,
    {
        let name = chars_of(args[i].as_str());
        let mut answers: Vec<bool> = Vec::new();
        let mut d: usize = 0;
        let mut yes = false;
        while d < dirs.len() && !yes
            invariant
                d <= dirs@.len(),
                answers@.len() == d,
                yes == (d > 0 && answers@[d - 1]),
            decreases dirs.len() - d,
        {
            let candidate = join_path_exec(dirs[d].as_slice(), name.as_slice());
            yes = fs.is_file(candidate.as_str());
            answers.push(yes);
            d = d + 1;
        }
        let hit = first_hit_exec(dirs.as_slice(), name.as_slice(), answers.as_slice());
        let ghost prev = os;
        assert(names.take(i + 1).drop_last() =~= names.take(i as int));
        assert(names.take(i + 1).last() == args@[i as int]@);
        match hit {
            Some(p) => {
                out.append(p.as_str());
                out.append("\n");
                proof {
                    assert(first_hit(path_dirs(path_val@), args@[i as int]@, answers@, 0) == Some(p@));
                    os = os.push(Some(p@));
                    assert(os.drop_last() =~= prev);
                    assert forall|k: int| 0 <= k < os.len() && (#[trigger] os[k]) is Some implies found_in(path_val@, args@[k]@, os[k]->0) by {
                        if k < prev.len() {
                            assert(os[k] == prev[k]);
                        }
                    }
                }
                assert(out@ =~= out0 + hits_text(os));
                assert(err_out@ =~= err0 + misses_text(names.take(i + 1), os));
            },
            None => {
                err_out.append(args[i].as_str());
                err_out.append(": not found\n");
                proof {
                    os = os.push(None::<Seq<char>>);
                    assert(os.drop_last() =~= prev);
                    assert(os[i as int] is None);
                    assert forall|k: int| 0 <= k < os.len() && (#[trigger] os[k]) is Some implies found_in(path_val@, args@[k]@, os[k]->0) by {
                        assert(os[k] == prev[k]);
                    }
                }
                any_missing = true;
                assert(out@ =~= out0 + hits_text(os));
                assert(err_out@ =~= err0 + misses_text(names.take(i + 1), os));
            },
        }
        proof {
            if !any_missing {
                assert forall|k: int| 0 <= k < os.len() implies os[k] is Some by {
                    if k < prev.len() {
                        assert(os[k] == prev[k]);
                    }
                }
            } else if exists|k: int| 0 <= k < prev.len() && !(prev[k] is Some) {
                let k = choose|k: int| 0 <= k < prev.len() && !(prev[k] is Some);
                assert(os[k] == prev[k]);
            }
        }
        i = i + 1;
    }
    assert(names.take(i as int) =~= names);
    assert(all_found_in(path_val@, names, os));
    if any_missing {
        Err(owned("one or more commands not found"))
    } else {
        Ok(())
    }
}

} // verus!
