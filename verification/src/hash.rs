use vstd::prelude::*;

use sha2::Digest;

use crate::deps::DirFs;
use crate::text::{chars_of, eq_lit, push_char};

verus! {

#[derive(Clone, Copy, Debug, PartialEq, Eq, Structural)]
pub enum Algo {
    Md5,
    Sha256,
}

/// The MD5 digest of `data` as the `md-5` crate computes it.
pub uninterp spec fn md5_digest(data: Seq<u8>) -> Seq<u8>;

/// The SHA-256 digest of `data` as the `sha2` crate computes it.
pub uninterp spec fn sha256_digest(data: Seq<u8>) -> Seq<u8>;

/// `md5::Md5::digest`: the 16-byte MD5 digest of `data`, a function of
/// `data` alone. What MD5 computes is not stated.
#[verifier::external_body]
fn md5_of(data: &[u8]) -> (r: Vec<u8>)
    ensures
        r@ == md5_digest(data@),
        r@.len() == 16,
{
    md5::Md5::digest(data).to_vec()
}

/// `sha2::Sha256::digest`: the 32-byte SHA-256 digest of `data`, a function
/// of `data` alone. What SHA-256 computes is not stated.
#[verifier::external_body]
fn sha256_of(data: &[u8]) -> (r: Vec<u8>)
    ensures
        r@ == sha256_digest(data@),
        r@.len() == 32,
{
    sha2::Sha256::digest(data).to_vec()
}

/// The digest of `data` under `algo`.
pub open spec fn digest(algo: Algo, data: Seq<u8>) -> Seq<u8> {
    match algo {
        Algo::Md5 => md5_digest(data),
        Algo::Sha256 => sha256_digest(data),
    }
}

pub open spec fn hex_digit(v: nat) -> char {
    if v < 10 {
        (v + 48) as char
    } else {
        (v + 87) as char
    }
}

/// Lower-case hexadecimal, two digits per byte.
pub open spec fn hex(bytes: Seq<u8>) -> Seq<char>
    decreases bytes.len(),
{
    if bytes.len() == 0 {
        seq![]
    } else {
        hex(bytes.drop_last()) + seq![hex_digit((bytes.last() / 16) as nat), hex_digit((bytes.last() % 16) as nat)]
    }
}

fn hex_digit_exec(v: u8) -> (c: char)
    requires
        v < 16,
    ensures
        c == hex_digit(v as nat),
{
    if v < 10 {
        (v + 48) as char
    } else {
        (v + 87) as char
    }
}

/// Appends the lower-case hexadecimal text of `bytes`.
pub fn push_hex(out: &mut String, bytes: &[u8])
    ensures
        final(out)@ == old(out)@ + hex(bytes@),
{
    let ghost start = out@;
    let mut i: usize = 0;
    while i < bytes.len()
        invariant
            i <= bytes@.len(),
            out@ == start + hex(bytes@.take(i as int)),
        decreases bytes.len() - i,
    {
        assert(bytes@.take(i + 1).drop_last() =~= bytes@.take(i as int));
        let b = bytes[i];
        push_char(out, hex_digit_exec(b / 16));
        push_char(out, hex_digit_exec(b % 16));
        i = i + 1;
        assert(out@ =~= start + hex(bytes@.take(i as int)));
    }
    assert(bytes@.take(i as int) =~= bytes@);
}

/// The hexadecimal digest of `data`.
pub fn hash_bytes(algo: Algo, data: &[u8]) -> (r: String)
    ensures
        r@ == hex(digest(algo, data@)),
{
    let bytes = match algo {
        Algo::Md5 => md5_of(data),
        Algo::Sha256 => sha256_of(data),
    };
    let mut r = String::new();
    push_hex(&mut r, bytes.as_slice());
    r
}

/// The checksum line for `data` read from `name`.
pub open spec fn sum_line(algo: Algo, data: Seq<u8>, name: Seq<char>) -> Seq<char> {
    hex(digest(algo, data)) + "  "@ + name + "\n"@
}

/// The checksum lines of the arguments that could be read, in order.
pub open spec fn sum_lines(algo: Algo, names: Seq<Seq<char>>, reads: Seq<Result<Seq<u8>, Seq<char>>>) -> Seq<char>
    decreases names.len(),
{
    if names.len() == 0 || reads.len() == 0 {
        seq![]
    } else {
        sum_lines(algo, names.drop_last(), reads.drop_last()) + match reads.last() {
            Ok(d) => sum_line(algo, d, names.last()),
            Err(_) => seq![],
        }
    }
}

/// A line `<name>: <error>` for each argument that could not be read.
pub open spec fn failure_lines(names: Seq<Seq<char>>, reads: Seq<Result<Seq<u8>, Seq<char>>>) -> Seq<char>
    decreases names.len(),
{
    if names.len() == 0 || reads.len() == 0 {
        seq![]
    } else {
        failure_lines(names.drop_last(), reads.drop_last()) + match reads.last() {
            Ok(_) => seq![],
            Err(e) => names.last() + ": "@ + e + "\n"@,
        }
    }
}

/// Whether no argument before `k` is `-`.
pub open spec fn no_dash_before(names: Seq<Seq<char>>, k: int) -> bool {
    forall|j: int| 0 <= j < k ==> names[j] != "-"@
}

/// The first `n` arguments that are `-` read standard input: the first of
/// them gets all of `stdin`, the others nothing.
pub open spec fn dash_prefix(names: Seq<Seq<char>>, reads: Seq<Result<Seq<u8>, Seq<char>>>, stdin: Seq<u8>, n: int) -> bool {
    forall|k: int|
        0 <= k < n && #[trigger] names[k] == "-"@ ==> reads[k] == if no_dash_before(names, k) {
            Ok::<Seq<u8>, Seq<char>>(stdin)
        } else {
            Ok::<Seq<u8>, Seq<char>>(seq![])
        }
}

/// Each `-` reads standard input: the first gets all of `stdin`, the
/// others nothing.
pub open spec fn dash_reads(names: Seq<Seq<char>>, reads: Seq<Result<Seq<u8>, Seq<char>>>, stdin: Seq<u8>) -> bool {
    dash_prefix(names, reads, stdin, names.len() as int)
}

proof fn lemma_dash_step(
    names: Seq<Seq<char>>,
    reads: Seq<Result<Seq<u8>, Seq<char>>>,
    stdin: Seq<u8>,
    i: int,
    x: Result<Seq<u8>, Seq<char>>,
)
    requires
        0 <= i < names.len(),
        reads.len() == i,
        dash_prefix(names, reads, stdin, i),
        names[i] == "-"@ ==> x == if no_dash_before(names, i) {
            Ok::<Seq<u8>, Seq<char>>(stdin)
        } else {
            Ok::<Seq<u8>, Seq<char>>(seq![])
        },
    ensures
        dash_prefix(names, reads.push(x), stdin, i + 1),
        no_dash_before(names, i + 1) == (no_dash_before(names, i) && names[i] != "-"@),
{
    assert forall|k: int| 0 <= k < i + 1 && #[trigger] names[k] == "-"@ implies reads.push(x)[k] == if no_dash_before(names, k) {
        Ok::<Seq<u8>, Seq<char>>(stdin)
    } else {
        Ok::<Seq<u8>, Seq<char>>(seq![])
    } by {
        if k < i {
            assert(reads.push(x)[k] == reads[k]);
        }
    }
    if no_dash_before(names, i) && names[i] != "-"@ {
        assert forall|j: int| 0 <= j < i + 1 implies names[j] != "-"@ by {
            if j < i {
                assert(names[j] != "-"@);
            }
        }
    }
}

proof fn lemma_lines_step(
    algo: Algo,
    names: Seq<Seq<char>>,
    reads: Seq<Result<Seq<u8>, Seq<char>>>,
    i: int,
    x: Result<Seq<u8>, Seq<char>>,
)
    requires
        0 <= i < names.len(),
        reads.len() == i,
    ensures
        sum_lines(algo, names.take(i + 1), reads.push(x)) == sum_lines(algo, names.take(i), reads) + match x {
            Ok(d) => sum_line(algo, d, names[i]),
            Err(_) => seq![],
        },
        failure_lines(names.take(i + 1), reads.push(x)) == failure_lines(names.take(i), reads) + match x {
            Ok(_) => seq![],
            Err(e) => names[i] + ": "@ + e + "\n"@,
        },
{
    assert(names.take(i + 1).drop_last() =~= names.take(i));
    assert(reads.push(x).drop_last() =~= reads);
}

/// Prints the checksum of `data` read from `name`.
fn print_sum(out: &mut String, algo: Algo, data: &[u8], name: &str)
    ensures
        final(out)@ == old(out)@ + sum_line(algo, data@, name@),
{
    let h = hash_bytes(algo, data);
    out.append(h.as_str());
    out.append("  ");
    out.append(name);
    out.append("\n");
    assert(out@ =~= old(out)@ + sum_line(algo, data@, name@));
}

/// Reports that `name` could not be read.
fn print_failure(err_out: &mut String, name: &str, e: &str)
    ensures
        final(err_out)@ == old(err_out)@ + name@ + ": "@ + e@ + "\n"@,
{
    err_out.append(name);
    err_out.append(": ");
    err_out.append(e);
    err_out.append("\n");
    assert(err_out@ =~= old(err_out)@ + name@ + ": "@ + e@ + "\n"@);
}

/// Prints a checksum for each file; with no files, or for `-`, for standard
/// input (`stdin` holds what standard input gives; a second `-` reads nothing
/// more). Files that cannot be read are reported on `err_out`. What reading
/// a file gives is the file system's to say: the contract speaks of every
/// outcome of the reads.
pub fn run<F: DirFs>(
    out: &mut String,
    err_out: &mut String,
    fs: &F,
    algo: Algo,
    args: &[String],
    stdin: &[u8],
) -> (r: Result<(), String>)
    ensures
        r is Ok,
        args@.len() == 0 ==> final(out)@ == old(out)@ + sum_line(algo, stdin@, "-"@) && final(err_out)@
            == old(err_out)@,
        args@.len() > 0 ==> exists|reads: Seq<Result<Seq<u8>, Seq<char>>>| {
            &&& reads.len() == args@.len()
            &&& dash_reads(crate::text::views(args@), reads, stdin@)
            &&& final(out)@ == old(out)@ + #[trigger] sum_lines(algo, crate::text::views(args@), reads)
            &&& final(err_out)@ == old(err_out)@ + failure_lines(crate::text::views(args@), reads)
        },
{
    if args.len() == 0 {
        print_sum(out, algo, stdin, "-");
        return Ok(());
    }
    let ghost names = crate::text::views(args@);
    let ghost out0 = out@;
    let ghost err0 = err_out@;
    let ghost mut reads: Seq<Result<Seq<u8>, Seq<char>>> = seq![];
    let mut stdin_used = false;
    let empty: Vec<u8> = Vec::new();
    let mut i: usize = 0;
    while i < args.len()
        invariant
            i <= args@.len(),
            names == crate::text::views(args@),
            reads.len() == i,
            stdin_used == !no_dash_before(names, i as int),
            dash_prefix(names, reads, stdin@, i as int),
            out@ == out0 + sum_lines(algo, names.take(i as int), reads),
            err_out@ == err0 + failure_lines(names.take(i as int), reads),
            empty@.len() == 0,
        decreases args.len() - i,
    {
        assert(names[i as int] == args@[i as int]@);
        let path = chars_of(args[i].as_str());
        if eq_lit(path.as_slice(), "-") {
            let data: &[u8] = if stdin_used { empty.as_slice() } else { stdin };
            let ghost x = Ok::<Seq<u8>, Seq<char>>(data@);
            proof {
                assert(empty@ =~= Seq::<u8>::empty());
                lemma_dash_step(names, reads, stdin@, i as int, x);
                lemma_lines_step(algo, names, reads, i as int, x);
                reads = reads.push(x);
            }
            stdin_used = true;
            print_sum(out, algo, data, args[i].as_str());
        } else {
            match fs.read_bytes(args[i].as_str()) {
                Ok(data) => {
                    let ghost x = Ok::<Seq<u8>, Seq<char>>(data@);
                    proof {
                        lemma_dash_step(names, reads, stdin@, i as int, x);
                        lemma_lines_step(algo, names, reads, i as int, x);
                        reads = reads.push(x);
                    }
                    print_sum(out, algo, data.as_slice(), args[i].as_str());
                },
                Err(e) => {
                    let ghost x = Err::<Seq<u8>, Seq<char>>(e@);
                    proof {
                        lemma_dash_step(names, reads, stdin@, i as int, x);
                        lemma_lines_step(algo, names, reads, i as int, x);
                        reads = reads.push(x);
                    }
                    print_failure(err_out, args[i].as_str(), e.as_str());
                },
            }
        }
        i = i + 1;
    }
    assert(names.take(i as int) =~= names);
    Ok(())
}

} // verus!
