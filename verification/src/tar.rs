use vstd::prelude::*;

use tar_core::parse::{Limits, ParseEvent, Parser};

use crate::deps::DirFs;
use crate::tar_header::{sizes_fit, sizes_fit_exec};
use crate::text::{chars_of, join, owned, push_join, slice_range, split_char, split_exec, string_of, views};

verus! {

/// What the archive parser reports next, as plain values.
pub enum TarEvent {
    /// The input ends before the next header does.
    NeedData,
    /// An entry: the header bytes taken, its path, its size, and whether it
    /// is a regular file or a directory.
    Entry { consumed: usize, path: Vec<u8>, size: u64, is_file: bool, is_dir: bool },
    /// A sparse file entry, which is not supported.
    Sparse { path: Vec<u8> },
    /// Global extensions, with the bytes they took.
    Global { consumed: usize },
    /// The end of the archive.
    End { consumed: usize },
}

/// A parser event as mathematical values.
pub enum TarEventV {
    NeedData,
    Entry { consumed: nat, path: Seq<u8>, size: nat, is_file: bool, is_dir: bool },
    Sparse { path: Seq<u8> },
    Global { consumed: nat },
    End { consumed: nat },
}

pub open spec fn event_view(r: Result<TarEvent, String>) -> Result<TarEventV, Seq<char>> {
    match r {
        Err(e) => Err(e@),
        Ok(TarEvent::NeedData) => Ok(TarEventV::NeedData),
        Ok(TarEvent::Entry { consumed, path, size, is_file, is_dir }) => Ok(
            TarEventV::Entry { consumed: consumed as nat, path: path@, size: size as nat, is_file, is_dir },
        ),
        Ok(TarEvent::Sparse { path }) => Ok(TarEventV::Sparse { path: path@ }),
        Ok(TarEvent::Global { consumed }) => Ok(TarEventV::Global { consumed: consumed as nat }),
        Ok(TarEvent::End { consumed }) => Ok(TarEventV::End { consumed: consumed as nat }),
    }
}

/// The event that `tar_core`'s parser, expecting a header, reports for the
/// bytes `input` at the start of the unread part of an archive.
pub uninterp spec fn tar_event(input: Seq<u8>) -> Result<TarEventV, Seq<char>>;

/// The first event of a `tar_core::parse::Parser` made with `Parser::new`
/// (paths of at most 4096 bytes) on `input`, its error as text. A parser
/// that has not reached the end of an archive expects a header and keeps no
/// other state between events (`parse.rs`: states `ReadHeader` and `Done`),
/// so this is the event a parser walking the archive reports at `input`,
/// a function of the bytes alone. The headers of an entry or of global
/// extensions take at least one 512-byte block, as the source shows.
///
/// `requires`: from the start of `input` the parser reads the chain of
/// headers that `sizes_fit` follows, and `handle_extension` adds each
/// extension's size to the extension bytes gathered so far with an
/// unchecked `+`; a base-256 size field can hold any 64-bit value, so that
/// sum can pass `u64::MAX`, which panics (in a debug build). Inputs on
/// which it would are left out.
#[verifier::external_body]
fn parse_event(input: &[u8]) -> (r: Result<TarEvent, String>)
    requires
        sizes_fit(input@),
    ensures
        event_view(r) == tar_event(input@),
        r matches Ok(TarEvent::Entry { consumed, .. }) ==> consumed >= 512,
        r matches Ok(TarEvent::Global { consumed }) ==> consumed >= 512,
{
    let limits = Limits { max_path_len: Some(4096), ..Limits::default() };
    match Parser::new(limits).parse(input) {
        Err(e) => Err(e.to_string()),
        Ok(ParseEvent::NeedData { .. }) => Ok(TarEvent::NeedData),
        Ok(ParseEvent::Entry { consumed, entry }) => Ok(TarEvent::Entry {
            consumed, path: entry.path.to_vec(), size: entry.size, is_file: entry.is_file(), is_dir: entry.is_dir(),
        }),
        Ok(ParseEvent::SparseEntry { entry, .. }) => Ok(TarEvent::Sparse { path: entry.path.to_vec() }),
        Ok(ParseEvent::GlobalExtensions { consumed, .. }) => Ok(TarEvent::Global { consumed }),
        Ok(ParseEvent::End { consumed }) => Ok(TarEvent::End { consumed }),
    }
}

/// The error for an archive whose extension sizes add up past what a
/// `u64` holds.
pub open spec fn size_sum_error() -> Seq<char> {
    "invalid tar header size"@
}

/// What to do with the archive.
pub enum Mode {
    List,
    Extract,
}

pub open spec fn tar_usage() -> Seq<char> {
    "usage: tar <-tf|-xf> <archive.tar>"@
}

/// Reads `-tf <archive>` (list) or `-xf <archive>` (extract).
pub fn parse_args(args: &[String]) -> (r: Result<(Mode, String), String>)
    ensures
        args@.len() == 2 && args@[0]@ == "-tf"@ ==> (r matches Ok((Mode::List, a)) && a@ == args@[1]@),
        args@.len() == 2 && args@[0]@ == "-xf"@ ==> (r matches Ok((Mode::Extract, a)) && a@ == args@[1]@),
        !(args@.len() == 2 && (args@[0]@ == "-tf"@ || args@[0]@ == "-xf"@)) ==> (r matches Err(e) && e@ == tar_usage()),
{
    proof {
        reveal_strlit("-tf");
        reveal_strlit("-xf");
        assert("-tf"@[1] != "-xf"@[1]);
    }
    if args.len() == 2 {
        let flag = chars_of(args[0].as_str());
        if crate::text::eq_lit(flag.as_slice(), "-tf") {
            return Ok((Mode::List, args[1].clone()));
        }
        if crate::text::eq_lit(flag.as_slice(), "-xf") {
            return Ok((Mode::Extract, args[1].clone()));
        }
    }
    Err(owned("usage: tar <-tf|-xf> <archive.tar>"))
}

/// The size of an entry's data rounded up to whole 512-byte blocks; `None`
/// where that overflows.
pub fn padded_size(size: usize) -> (r: Option<usize>)
    ensures
        size + 511 <= usize::MAX ==> r == Some(((size + 511) / 512 * 512) as usize),
        size + 511 > usize::MAX ==> r is None,
{
    match size.checked_add(511) {
        Some(n) => Some(n / 512 * 512),
        None => None,
    }
}

/// Padding rounds a size up to the next multiple of 512 and adds less than
/// a block.
pub proof fn law_padding_whole_blocks(size: nat)
    ensures
        ((size + 511) / 512 * 512) % 512 == 0,
        size <= (size + 511) / 512 * 512 < size + 512,
{
    assert(((size + 511) / 512 * 512) % 512 == 0) by (nonlinear_arith);
    assert(size <= (size + 511) / 512 * 512 < size + 512) by (nonlinear_arith);
}

/// The normal components of a path: the pieces between `/` other than
/// empty ones and `.`.
pub open spec fn normal_parts(parts: Seq<Seq<char>>) -> Seq<Seq<char>>
    decreases parts.len(),
{
    if parts.len() == 0 {
        seq![]
    } else if parts.last().len() > 0 && parts.last() != "."@ {
        normal_parts(parts.drop_last()).push(parts.last())
    } else {
        normal_parts(parts.drop_last())
    }
}

/// Where an entry's path may be extracted: a UTF-8 path that is not
/// absolute and has no `..` component, with its empty and `.` components
/// dropped; it must keep at least one.
pub open spec fn safe_path_spec(raw: Seq<u8>) -> Result<Seq<char>, Seq<char>> {
    if !vstd::utf8::valid_utf8(raw) {
        Err("non-utf8 tar path"@)
    } else {
        let text = vstd::utf8::decode_utf8(raw);
        let segs = normal_parts(split_char(text, '/'));
        if (text.len() > 0 && text[0] == '/') || segs.contains(".."@) {
            Err("tar entry escapes current directory"@)
        } else if segs.len() == 0 {
            Err("empty tar path"@)
        } else {
            Ok(join(segs, "/"@))
        }
    }
}

/// Maps an entry's path to the relative path it is extracted to.
pub fn safe_path(raw: &[u8]) -> (r: Result<String, String>)
    ensures
        match safe_path_spec(raw@) {
            Ok(p) => r matches Ok(x) && x@ == p,
            Err(m) => r matches Err(e) && e@ == m,
        },
{
    let text = match crate::http::utf8_text(raw) {
        Some(t) => t,
        None => return Err(owned("non-utf8 tar path")),
    };
    let cs = chars_of(text.as_str());
    let parts = split_exec(cs.as_slice(), '/');
    let ghost ps = split_char(cs@, '/');
    let mut segs: Vec<String> = Vec::new();
    let mut escapes = cs.len() > 0 && cs[0] == '/';
    let mut i: usize = 0;
    assert(ps.take(0) =~= Seq::<Seq<char>>::empty());
    assert(views(segs@) =~= Seq::<Seq<char>>::empty());
    while i < parts.len()
        invariant
            i <= parts@.len(),
            parts@.len() == ps.len(),
            forall|k: int| 0 <= k < parts@.len() ==> #[trigger] parts@[k]@ == ps[k],
            views(segs@) == normal_parts(ps.take(i as int)),
            escapes == ((cs@.len() > 0 && cs@[0] == '/') || normal_parts(ps.take(i as int)).contains(".."@)),
        decreases parts.len() - i,
    {
        assert(ps.take(i + 1).drop_last() =~= ps.take(i as int));
        assert(ps.take(i + 1).last() == parts@[i as int]@);
        if parts[i].len() > 0 && !crate::text::eq_lit(parts[i].as_slice(), ".") {
            let ghost before = segs@;
            if crate::text::eq_lit(parts[i].as_slice(), "..") {
                escapes = true;
            }
            segs.push(string_of(parts[i].as_slice()));
            proof {
                let nv = views(before).push(parts@[i as int]@);
                assert(views(segs@) =~= nv);
                if nv.contains(".."@) && !views(before).contains(".."@) {
                    let k = choose|k: int| 0 <= k < nv.len() && nv[k] == ".."@;
                    if k < views(before).len() {
                        assert(views(before)[k] == ".."@);
                    }
                }
                if views(before).contains(".."@) {
                    let k = choose|k: int| 0 <= k < views(before).len() && views(before)[k] == ".."@;
                    assert(nv[k] == ".."@);
                }
                if parts@[i as int]@ == ".."@ {
                    assert(nv[nv.len() - 1] == ".."@);
                }
            }
        }
        i = i + 1;
    }
    assert(ps.take(i as int) =~= ps);
    if escapes {
        return Err(owned("tar entry escapes current directory"));
    }
    if segs.len() == 0 {
        return Err(owned("empty tar path"));
    }
    let mut out = String::new();
    push_join(&mut out, segs.as_slice(), "/");
    Ok(out)
}

/// A safe path is relative and cannot leave the directory it is extracted
/// in: it does not start with `/`, and none of its components is empty,
/// `.` or `..`.
pub proof fn law_safe_path_stays_inside(raw: Seq<u8>)
    ensures
        safe_path_spec(raw) matches Ok(p) ==> {
            let segs = normal_parts(split_char(vstd::utf8::decode_utf8(raw), '/'));
            &&& p == join(segs, "/"@)
            &&& segs.len() > 0
            &&& forall|k: int| 0 <= k < segs.len() ==> (#[trigger] segs[k]).len() > 0 && segs[k] != "."@ && segs[k] != ".."@
        },
{
    let segs = normal_parts(split_char(vstd::utf8::decode_utf8(raw), '/'));
    lemma_normal_parts(split_char(vstd::utf8::decode_utf8(raw), '/'));
    if safe_path_spec(raw) is Ok {
        assert forall|k: int| 0 <= k < segs.len() implies (#[trigger] segs[k]).len() > 0 && segs[k] != "."@ && segs[k] != ".."@ by {
            if segs[k] == ".."@ {
                assert(segs.contains(".."@));
            }
        }
    }
}

proof fn lemma_normal_parts(parts: Seq<Seq<char>>)
    ensures
        forall|k: int| 0 <= k < normal_parts(parts).len() ==> (#[trigger] normal_parts(parts)[k]).len() > 0 && normal_parts(parts)[k] != "."@,
    decreases parts.len(),
{
    if parts.len() > 0 {
        lemma_normal_parts(parts.drop_last());
        let r = normal_parts(parts.drop_last());
        assert forall|k: int| 0 <= k < normal_parts(parts).len() implies (#[trigger] normal_parts(parts)[k]).len() > 0 && normal_parts(parts)[k] != "."@ by {
            if k < r.len() {
                assert(normal_parts(parts)[k] == r[k]);
            }
        }
    }
}

/// What extracting an entry does.
pub enum EntryAction {
    /// Create the directory (and those above it).
    MakeDir(String),
    /// Create the parent directory where there is one, then write the file.
    WriteFile { parent: Option<String>, path: String },
}

/// The directory part of a relative path: what precedes its last `/`.
pub open spec fn parent_spec(p: Seq<char>) -> Option<Seq<char>> {
    let li = crate::text::last_index(p, '/');
    if li > 0 {
        Some(p.take(li))
    } else {
        None
    }
}

/// Decides what extracting an entry with path `raw` does: a directory is
/// created, a regular file written below its parent; any other kind of
/// entry, or a path that is not safe, is an error.
pub fn entry_action(raw: &[u8], is_file: bool, is_dir: bool) -> (r: Result<EntryAction, String>)
    ensures
        match safe_path_spec(raw@) {
            Err(m) => r matches Err(e) && e@ == m,
            Ok(p) => if is_dir {
                r matches Ok(EntryAction::MakeDir(x)) && x@ == p
            } else if is_file {
                r matches Ok(EntryAction::WriteFile { parent, path }) && path@ == p && match parent_spec(p) {
                    Some(d) => parent matches Some(x) && x@ == d,
                    None => parent is None,
                }
            } else {
                r matches Err(e) && e@ == "unsupported tar entry type for "@ + crate::dns::lossy_utf8(raw@)
            },
        },
{
    let path = safe_path(raw)?;
    if is_dir {
        return Ok(EntryAction::MakeDir(path));
    }
    if is_file {
        let cs = chars_of(path.as_str());
        let parent = match crate::text::last_index_exec(cs.as_slice(), '/') {
            Some(li) => if li > 0 {
                Some(string_of(slice_range(cs.as_slice(), 0, li)))
            } else {
                None
            },
            None => None,
        };
        return Ok(EntryAction::WriteFile { parent, path });
    }
    let mut e = owned("unsupported tar entry type for ");
    let shown = crate::dns::utf8_lossy(raw);
    e.append(shown.as_str());
    Err(e)
}

/// One step of the walk over an archive.
pub enum ArchiveStep {
    /// Nothing to visit (global extensions were passed over).
    Skip,
    /// An entry whose data is `data[start..end]`; the walk goes on at `next`.
    Item { path: Vec<u8>, is_file: bool, is_dir: bool, start: usize, end: usize, next: usize },
    /// The end of the archive.
    Done,
}

/// A step of the walk as plain values; `Skip` carries the offset the walk
/// goes on at.
pub enum StepView {
    Skip(nat),
    Item { path: Seq<u8>, is_file: bool, is_dir: bool, start: nat, end: nat, next: nat },
    Done,
}

/// What the walk makes of the parser's event `ev` at offset `at` of `len`
/// bytes: entries get the range of their data and where the next header
/// starts (their data rounded up to whole blocks); running out of data, a
/// sparse entry, the parser's error or an overflow of `usize` is an error.
pub open spec fn step_of_event(ev: Result<TarEventV, Seq<char>>, len: nat, at: nat) -> Result<StepView, Seq<char>> {
    match ev {
        Err(e) => Err(e),
        Ok(TarEventV::NeedData) => Err("truncated tar archive"@),
        Ok(TarEventV::Global { consumed }) => if at + consumed > usize::MAX {
            Err("archive offset overflow"@)
        } else if at + consumed > len {
            Err("truncated tar archive"@)
        } else {
            Ok(StepView::Skip((at + consumed) as nat))
        },
        Ok(TarEventV::End { consumed }) => if at + consumed > usize::MAX {
            Err("archive offset overflow"@)
        } else {
            Ok(StepView::Done)
        },
        Ok(TarEventV::Sparse { path }) => Err("unsupported sparse tar entry "@ + crate::dns::lossy_utf8(path)),
        Ok(TarEventV::Entry { consumed, path, size, is_file, is_dir }) => {
            let start = (at + consumed) as nat;
            let padded = ((size + 511) / 512 * 512) as nat;
            if start > usize::MAX {
                Err("archive offset overflow"@)
            } else if size > usize::MAX {
                Err("entry too large to extract"@)
            } else if start + size > usize::MAX {
                Err("entry size overflow"@)
            } else if start + size > len {
                Err("truncated tar entry"@)
            } else if size + 511 > usize::MAX {
                Err("entry padding overflow"@)
            } else if start + padded > usize::MAX {
                Err("archive offset overflow"@)
            } else {
                Ok(StepView::Item { path, is_file, is_dir, start, end: (start + size) as nat, next: start + padded })
            }
        },
    }
}

/// Whether the step `r`, taken at `at` and leaving the offset at `after`,
/// is the step `s`; the offset moves only past skipped extensions.
pub open spec fn step_is(r: Result<ArchiveStep, String>, at: nat, after: nat, s: Result<StepView, Seq<char>>) -> bool {
    match (r, s) {
        (Err(e), Err(m)) => e@ == m && after == at,
        (Ok(ArchiveStep::Skip), Ok(StepView::Skip(n))) => after == n,
        (Ok(ArchiveStep::Done), Ok(StepView::Done)) => after == at,
        (
            Ok(ArchiveStep::Item { path, is_file, is_dir, start, end, next }),
            Ok(StepView::Item { path: p, is_file: f, is_dir: d, start: s0, end: e0, next: n0 }),
        ) => path@ == p && is_file == f && is_dir == d && start == s0 && end == e0 && next == n0 && after == at,
        _ => false,
    }
}

/// The event of the archive `data` at offset `at`.
pub open spec fn event_at(data: Seq<u8>, at: nat) -> Result<TarEventV, Seq<char>> {
    tar_event(data.subrange(at as int, data.len() as int))
}

/// The step of the walk over `data` at offset `at`: what `step_of_event`
/// makes of the parser's event there, or the size error where the headers
/// read from there add extension sizes past `u64::MAX`.
pub open spec fn step_at(data: Seq<u8>, at: nat) -> Result<StepView, Seq<char>> {
    if sizes_fit(data.subrange(at as int, data.len() as int)) {
        step_of_event(event_at(data, at), data.len(), at)
    } else {
        Err(size_sum_error())
    }
}

/// Takes the event of the archive at `offset` and makes of it what
/// `step_at` says.
fn next_step(data: &[u8], offset: &mut usize) -> (r: Result<ArchiveStep, String>)
    requires
        *old(offset) <= data@.len(),
    ensures
        step_is(r, *old(offset) as nat, *final(offset) as nat, step_at(data@, *old(offset) as nat)),
        r matches Ok(ArchiveStep::Skip) ==> *old(offset) < *final(offset) <= data@.len(),
        r matches Ok(ArchiveStep::Item { start, end, next, .. }) ==> *old(offset) < start <= end <= data@.len()
            && end <= next,
{
    let at = *offset;
    let rest = slice_range(data, at, data.len());
    if !sizes_fit_exec(rest) {
        return Err(owned("invalid tar header size"));
    }
    let ev = parse_event(rest);
    let (r, next) = step_from_event(ev, data.len(), at);
    *offset = next;
    r
}

/// Makes of the parser's event at `at`, in data of `len` bytes, the step
/// that `step_of_event` says, with the offset the walk goes on at.
fn step_from_event(ev: Result<TarEvent, String>, len: usize, at: usize) -> (r: (Result<ArchiveStep, String>, usize))
    requires
        at <= len,
        ev matches Ok(TarEvent::Entry { consumed, .. }) ==> consumed >= 512,
        ev matches Ok(TarEvent::Global { consumed }) ==> consumed >= 512,
    ensures
        step_is(r.0, at as nat, r.1 as nat, step_of_event(event_view(ev), len as nat, at as nat)),
        match r.0 {
            Ok(ArchiveStep::Skip) => at < r.1 <= len,
            Ok(ArchiveStep::Item { start, end, next, .. }) => at < start <= end <= len && end <= next,
            _ => true,
        },
{
    let ev = match ev {
        Ok(e) => e,
        Err(e) => return (Err(e), at),
    };
    match ev {
        TarEvent::NeedData => (Err(owned("truncated tar archive")), at),
        TarEvent::Global { consumed } => {
            let next = match at.checked_add(consumed) {
                Some(n) => n,
                None => return (Err(owned("archive offset overflow")), at),
            };
            if next > len {
                return (Err(owned("truncated tar archive")), at);
            }
            (Ok(ArchiveStep::Skip), next)
        },
        TarEvent::End { consumed } => {
            match at.checked_add(consumed) {
                Some(_) => (Ok(ArchiveStep::Done), at),
                None => (Err(owned("archive offset overflow")), at),
            }
        },
        TarEvent::Sparse { path } => {
            let mut e = owned("unsupported sparse tar entry ");
            let shown = crate::dns::utf8_lossy(path.as_slice());
            e.append(shown.as_str());
            (Err(e), at)
        },
        TarEvent::Entry { consumed, path, size, is_file, is_dir } => {
            let start = match at.checked_add(consumed) {
                Some(n) => n,
                None => return (Err(owned("archive offset overflow")), at),
            };
            if size > usize::MAX as u64 {
                return (Err(owned("entry too large to extract")), at);
            }
            let size = size as usize;
            let end = match start.checked_add(size) {
                Some(n) => n,
                None => return (Err(owned("entry size overflow")), at),
            };
            if end > len {
                return (Err(owned("truncated tar entry")), at);
            }
            let padded = match padded_size(size) {
                Some(p) => p,
                None => return (Err(owned("entry padding overflow")), at),
            };
            let next = match start.checked_add(padded) {
                Some(n) => n,
                None => return (Err(owned("archive offset overflow")), at),
            };
            proof {
                law_padding_whole_blocks(size as nat);
            }
            (Ok(ArchiveStep::Item { path, is_file, is_dir, start, end, next }), at)
        },
    }
}

/// Each path decoded leniently, on a line of its own.
pub open spec fn listing_of(paths: Seq<Seq<u8>>) -> Seq<char>
    decreases paths.len(),
{
    if paths.len() == 0 {
        seq![]
    } else {
        listing_of(paths.drop_last()) + crate::dns::lossy_utf8(paths.last()) + "\n"@
    }
}

/// An entry met by the walk over an archive: its path, kind, and the range
/// of its data.
pub struct EntryV {
    pub path: Seq<u8>,
    pub is_file: bool,
    pub is_dir: bool,
    pub start: nat,
    pub end: nat,
}

/// The walk over the archive `data` from offset `at`: the entries met, in
/// order, and how it ends (at the end marker, or with an error). An entry
/// whose padded data runs past the end is met, then ends the walk with an
/// error.
pub open spec fn walk_from(data: Seq<u8>, at: nat) -> (Seq<EntryV>, Result<(), Seq<char>>)
    decreases data.len() - at,
{
    if at > data.len() {
        (seq![], Err(seq![]))
    } else {
        match step_at(data, at) {
            Err(m) => (seq![], Err(m)),
            Ok(StepView::Done) => (seq![], Ok(())),
            Ok(StepView::Skip(n)) => if at < n <= data.len() {
                walk_from(data, n)
            } else {
                (seq![], Err(seq![]))
            },
            Ok(StepView::Item { path, is_file, is_dir, start, end, next }) => {
                let e = EntryV { path, is_file, is_dir, start, end };
                if next > data.len() {
                    (seq![e], Err("truncated tar archive"@))
                } else if next <= at {
                    (seq![e], Err(seq![]))
                } else {
                    (seq![e] + walk_from(data, next).0, walk_from(data, next).1)
                }
            },
        }
    }
}

/// The walk over a whole archive.
pub open spec fn archive_walk(data: Seq<u8>) -> (Seq<EntryV>, Result<(), Seq<char>>) {
    walk_from(data, 0)
}

/// The paths of entries.
pub open spec fn entry_paths(es: Seq<EntryV>) -> Seq<Seq<u8>> {
    es.map_values(|e: EntryV| e.path)
}

/// Whether extracting an entry is allowed: a safe path, and a regular file
/// or a directory.
pub open spec fn entry_ok(e: EntryV) -> bool {
    safe_path_spec(e.path) is Ok && (e.is_dir || e.is_file)
}

proof fn lemma_walk_step(data: Seq<u8>, at: nat, seen: Seq<EntryV>)
    requires
        at <= data.len(),
        archive_walk(data).0 == seen + walk_from(data, at).0,
        archive_walk(data).1 == walk_from(data, at).1,
    ensures
        match step_at(data, at) {
            Err(m) => archive_walk(data) == (seen, Err::<(), Seq<char>>(m)),
            Ok(StepView::Done) => archive_walk(data) == (seen, Ok::<(), Seq<char>>(())),
            Ok(StepView::Skip(n)) => at < n <= data.len() ==> archive_walk(data).0 == seen + walk_from(data, n).0
                && archive_walk(data).1 == walk_from(data, n).1,
            Ok(StepView::Item { path, is_file, is_dir, start, end, next }) => {
                let seen2 = seen.push(EntryV { path, is_file, is_dir, start, end });
                &&& next > data.len() ==> archive_walk(data) == (seen2, Err::<(), Seq<char>>("truncated tar archive"@))
                &&& at < next <= data.len() ==> archive_walk(data).0 == seen2 + walk_from(data, next).0
                    && archive_walk(data).1 == walk_from(data, next).1
            },
        },
{
    match step_at(data, at) {
        Err(m) => {
            assert(seen + Seq::<EntryV>::empty() =~= seen);
        },
        Ok(StepView::Done) => {
            assert(seen + Seq::<EntryV>::empty() =~= seen);
        },
        Ok(StepView::Skip(n)) => {},
        Ok(StepView::Item { path, is_file, is_dir, start, end, next }) => {
            let e = EntryV { path, is_file, is_dir, start, end };
            if next > data.len() {
                assert(seen + seq![e] =~= seen.push(e));
            } else if at < next {
                assert(seen + (seq![e] + walk_from(data, next).0) =~= seen.push(e) + walk_from(data, next).0);
            }
        },
    }
}

/// Prints the path of each entry of an archive, one per line, in order;
/// it succeeds exactly when the walk reaches the end marker, and otherwise
/// fails with the walk's error after printing the entries met.
pub fn list_archive(out: &mut String, data: &[u8]) -> (r: Result<(), String>)
    ensures
        final(out)@ == old(out)@ + listing_of(entry_paths(archive_walk(data@).0)),
        match archive_walk(data@).1 {
            Ok(()) => r is Ok,
            Err(m) => r matches Err(e) && e@ == m,
        },
{
    let mut offset: usize = 0;
    let ghost mut seen: Seq<EntryV> = seq![];
    assert(old(out)@ =~= old(out)@ + listing_of(entry_paths(seen)));
    assert(archive_walk(data@).0 =~= seen + walk_from(data@, 0).0);
    loop
        invariant
            offset <= data@.len(),
            archive_walk(data@).0 == seen + walk_from(data@, offset as nat).0,
            archive_walk(data@).1 == walk_from(data@, offset as nat).1,
            out@ == old(out)@ + listing_of(entry_paths(seen)),
        decreases data@.len() - offset,
    {
        let ghost at = offset as nat;
        proof {
            lemma_walk_step(data@, at, seen);
        }
        match next_step(data, &mut offset) {
            Err(e) => {
                return Err(e);
            },
            Ok(ArchiveStep::Done) => return Ok(()),
            Ok(ArchiveStep::Skip) => {},
            Ok(ArchiveStep::Item { path, is_file, is_dir, start, end, next }) => {
                let shown = crate::dns::utf8_lossy(path.as_slice());
                out.append(shown.as_str());
                out.append("\n");
                proof {
                    let ns = seen.push(EntryV { path: path@, is_file, is_dir, start: start as nat, end: end as nat });
                    assert(entry_paths(ns).drop_last() =~= entry_paths(seen));
                    assert(entry_paths(ns).last() == path@);
                    seen = ns;
                }
                assert(out@ =~= old(out)@ + listing_of(entry_paths(seen)));
                if next > data.len() {
                    return Err(owned("truncated tar archive"));
                }
                offset = next;
            },
        }
    }
}

/// How many file system calls extracting an accepted entry makes: one to
/// create a directory; for a file, one to create its parent directory
/// where it has one, then one to write it.
pub open spec fn calls_for(e: EntryV) -> int {
    if e.is_dir {
        1
    } else {
        match parent_spec(safe_path_spec(e.path)->Ok_0) {
            Some(_) => 2,
            None => 1,
        }
    }
}

/// The file system's answer to call `j` (`Some` holds an error); calls
/// that got no answer count as done.
pub open spec fn answer(a: Seq<Option<Seq<char>>>, j: int) -> Option<Seq<char>> {
    if 0 <= j < a.len() {
        a[j]
    } else {
        None
    }
}

/// The outcome of extracting the entries `es` from index `k` on, with `end`
/// the way the walk over the archive ends, when the file system's answers
/// from call `j` on are those of `a`: the first refused entry, failing call
/// or the walk's own error ends it.
pub open spec fn extract_from(
    es: Seq<EntryV>,
    end: Result<(), Seq<char>>,
    a: Seq<Option<Seq<char>>>,
    k: int,
    j: int,
) -> Result<(), Seq<char>>
    decreases es.len() - k,
{
    if k < 0 || k >= es.len() {
        end
    } else {
        let e = es[k];
        match safe_path_spec(e.path) {
            Err(m) => Err(m),
            Ok(_) => if !(e.is_dir || e.is_file) {
                Err("unsupported tar entry type for "@ + crate::dns::lossy_utf8(e.path))
            } else {
                match answer(a, j) {
                    Some(x) => Err(x),
                    None => if calls_for(e) == 2 {
                        match answer(a, j + 1) {
                            Some(x) => Err(x),
                            None => extract_from(es, end, a, k + 1, j + 2),
                        }
                    } else {
                        extract_from(es, end, a, k + 1, j + 1)
                    },
                }
            },
        }
    }
}

/// The number of calls that extracting the accepted entries `es` makes.
pub open spec fn calls_total(es: Seq<EntryV>) -> int
    decreases es.len(),
{
    if es.len() == 0 {
        0
    } else {
        calls_total(es.drop_last()) + calls_for(es.last())
    }
}

proof fn lemma_extract_prefix(
    es: Seq<EntryV>,
    end: Result<(), Seq<char>>,
    a: Seq<Option<Seq<char>>>,
    k: int,
)
    requires
        0 <= k <= es.len(),
        forall|i: int| 0 <= i < k ==> entry_ok(#[trigger] es[i]),
        forall|i: int| 0 <= i < calls_total(es.take(k)) ==> #[trigger] answer(a, i) is None,
    ensures
        extract_from(es, end, a, 0, 0) == extract_from(es, end, a, k, calls_total(es.take(k))),
        calls_total(es.take(k)) >= 0,
    decreases k,
{
    if k > 0 {
        let j0 = calls_total(es.take(k - 1));
        assert(es.take(k).drop_last() =~= es.take(k - 1));
        assert(es.take(k).last() == es[k - 1]);
        lemma_extract_prefix(es, end, a, k - 1);
        let e = es[k - 1];
        assert(entry_ok(e));
        assert(answer(a, j0) is None);
        if calls_for(e) == 2 {
            assert(answer(a, j0 + 1) is None);
        }
    }
}

/// Extracts each entry of an archive through `fs`, stopping at the first
/// error. Where each entry goes is decided by `entry_action`: a directory is
/// created, a file written below its parent. The outcome is what
/// `extract_from` gives over the walk of the archive for the answers that
/// the file system gave to the calls made, which are its own to give.
pub fn extract_archive<F: DirFs>(fs: &F, data: &[u8]) -> (r: Result<(), String>)
    ensures
        exists|a: Seq<Option<Seq<char>>>|
            match #[trigger] extract_from(archive_walk(data@).0, archive_walk(data@).1, a, 0, 0) {
                Ok(()) => r is Ok,
                Err(m) => r matches Err(e) && e@ == m,
            },
        r is Ok ==> archive_walk(data@).1 is Ok && forall|k: int| 0 <= k < archive_walk(data@).0.len() ==> entry_ok(
            #[trigger] archive_walk(data@).0[k],
        ),
{
    let ghost es = archive_walk(data@).0;
    let ghost end = archive_walk(data@).1;
    let mut offset: usize = 0;
    let ghost mut seen: Seq<EntryV> = seq![];
    let ghost mut ans: Seq<Option<Seq<char>>> = seq![];
    assert(archive_walk(data@).0 =~= seen + walk_from(data@, 0).0);
    loop
        invariant
            offset <= data@.len(),
            es == archive_walk(data@).0,
            end == archive_walk(data@).1,
            es == seen + walk_from(data@, offset as nat).0,
            end == walk_from(data@, offset as nat).1,
            forall|k: int| 0 <= k < seen.len() ==> entry_ok(#[trigger] seen[k]),
            ans.len() == calls_total(seen),
            forall|i: int| 0 <= i < ans.len() ==> #[trigger] ans[i] is None,
        decreases data@.len() - offset,
    {
        let ghost at = offset as nat;
        proof {
            lemma_walk_step(data@, at, seen);
            assert(es.take(seen.len() as int) =~= seen);
            assert forall|i: int| 0 <= i < seen.len() implies entry_ok(#[trigger] es[i]) by {
                assert(es[i] == seen[i]);
            }
            assert forall|i: int| 0 <= i < calls_total(es.take(seen.len() as int)) implies #[trigger] answer(ans, i) is None by {
                assert(ans[i] is None);
            }
            lemma_extract_prefix(es, end, ans, seen.len() as int);
        }
        match next_step(data, &mut offset) {
            Err(e) => {
                proof {
                    assert(es == seen);
                    assert(extract_from(es, end, ans, seen.len() as int, ans.len() as int) == end);
                }
                return Err(e);
            },
            Ok(ArchiveStep::Done) => {
                proof {
                    assert(es == seen);
                    assert(extract_from(es, end, ans, seen.len() as int, ans.len() as int) == end);
                }
                return Ok(());
            },
            Ok(ArchiveStep::Skip) => {},
            Ok(ArchiveStep::Item { path, is_file, is_dir, start, end: data_end, next }) => {
                let ghost e = EntryV { path: path@, is_file, is_dir, start: start as nat, end: data_end as nat };
                let ghost ns = seen.push(e);
                let ghost k = seen.len() as int;
                let ghost j = ans.len() as int;
                proof {
                    if next > data.len() {
                        assert(es == ns);
                    } else {
                        assert(es == ns + walk_from(data@, next as nat).0);
                    }
                    assert(es[k] == e);
                }
                let action = entry_action(path.as_slice(), is_file, is_dir);
                match action {
                    Err(x) => {
                        assert(extract_from(es, end, ans, k, j) == Err::<(), Seq<char>>(x@));
                        return Err(x);
                    },
                    Ok(EntryAction::MakeDir(dir)) => {
                        match fs.create_dir_all(dir.as_str()) {
                            Ok(()) => {
                                proof {
                                    ans = ans.push(None);
                                }
                            },
                            Err(x) => {
                                proof {
                                    let a2 = ans.push(Some(x@));
                                    assert(answer(a2, j) == Some(x@));
                                    lemma_extract_prefix(es, end, a2, k);
                                    assert(extract_from(es, end, a2, k, j) == Err::<(), Seq<char>>(x@));
                                }
                                return Err(x);
                            },
                        }
                    },
                    Ok(EntryAction::WriteFile { parent, path }) => {
                        let two = parent.is_some();
                        match parent {
                            Some(d) => {
                                match fs.create_dir_all(d.as_str()) {
                                    Ok(()) => {
                                        proof {
                                            ans = ans.push(None);
                                        }
                                    },
                                    Err(x) => {
                                        proof {
                                            let a2 = ans.push(Some(x@));
                                            assert(answer(a2, j) == Some(x@));
                                            lemma_extract_prefix(es, end, a2, k);
                                            assert(extract_from(es, end, a2, k, j) == Err::<(), Seq<char>>(x@));
                                        }
                                        return Err(x);
                                    },
                                }
                            },
                            None => {},
                        }
                        match fs.write_bytes(path.as_str(), slice_range(data, start, data_end)) {
                            Ok(()) => {
                                proof {
                                    ans = ans.push(None);
                                }
                            },
                            Err(x) => {
                                proof {
                                    let a2 = ans.push(Some(x@));
                                    assert(answer(a2, ans.len() as int) == Some(x@));
                                    if two {
                                        assert(answer(a2, j) is None);
                                    }
                                    lemma_extract_prefix(es, end, a2, k);
                                    assert(extract_from(es, end, a2, k, j) == Err::<(), Seq<char>>(x@));
                                }
                                return Err(x);
                            },
                        }
                    },
                }
                proof {
                    assert(ns.drop_last() =~= seen);
                    assert forall|i: int| 0 <= i < ns.len() implies entry_ok(#[trigger] ns[i]) by {
                        if i < seen.len() {
                            assert(ns[i] == seen[i]);
                        }
                    }
                    assert forall|i: int| 0 <= i < ans.len() implies #[trigger] ans[i] is None by {}
                    seen = ns;
                }
                if next > data.len() {
                    proof {
                        lemma_extract_prefix(es, end, ans, seen.len() as int);
                        assert(es.take(seen.len() as int) =~= seen);
                        assert(extract_from(es, end, ans, seen.len() as int, ans.len() as int) == end);
                    }
                    return Err(owned("truncated tar archive"));
                }
                offset = next;
            },
        }
    }
}

/// Lists (`-tf`) or extracts (`-xf`) an archive read through `fs`.
pub fn run<F: DirFs>(out: &mut String, fs: &F, args: &[String]) -> (r: Result<(), String>)
    ensures
        !(args@.len() == 2 && (args@[0]@ == "-tf"@ || args@[0]@ == "-xf"@)) ==> (r matches Err(e) && e@ == tar_usage()),
        !(args@.len() == 2 && args@[0]@ == "-tf"@) ==> final(out)@ == old(out)@,
        args@.len() == 2 && args@[0]@ == "-tf"@ && r is Ok ==> exists|data: Seq<u8>|
            #[trigger] archive_walk(data).1 is Ok && final(out)@ == old(out)@ + listing_of(entry_paths(archive_walk(data).0)),
        args@.len() == 2 && args@[0]@ == "-xf"@ && r is Ok ==> exists|data: Seq<u8>|
            #[trigger] archive_walk(data).1 is Ok && forall|k: int| 0 <= k < archive_walk(data).0.len() ==> entry_ok(
                #[trigger] archive_walk(data).0[k],
            ),
{
    let (mode, archive) = parse_args(args)?;
    let data = fs.read_bytes(archive.as_str())?;
    match mode {
        Mode::List => list_archive(out, data.as_slice()),
        Mode::Extract => extract_archive(fs, data.as_slice()),
    }
}

} // verus!
