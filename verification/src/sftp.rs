//! File-system inspection over the session: directory-listing shaping and
//! the bounded file read.
//!
//! The transport layer reports raw directory entries and raw byte chunks;
//! everything that decides (dropping `.` and `..`, sorting, the read limit,
//! the truncation probe) lives here.

use vstd::prelude::*;
use vstd::string::StringSliceAdditionalSpecFns;
use crate::session::{FileEntry, ReadFileResult};
use crate::textscan::{bytes_le, lemma_lex_le_total, lex_le, str_eq, string_bytes};

verus! {

broadcast use vstd::seq_lib::group_seq_lib_default, vstd::seq_lib::group_to_multiset_ensures;

/// One directory entry exactly as the transport reports it: the full path,
/// the final name component, and the optional POSIX stat fields.
#[derive(Clone, Debug)]
pub struct RawDirEntry {
    pub path: String,
    pub name: String,
    pub perm: Option<u32>,
    pub size: Option<u64>,
    pub mtime: Option<u64>,
}

/// POSIX file-type test: the type bits (`0o170000`) select a directory
/// (`0o040000`).
pub open spec fn is_dir_mode(p: u32) -> bool {
    p & 0o170000 == 0o040000
}

/// Whether a reported mode names a directory; an absent mode does not.
pub fn stat_is_dir(perm: Option<u32>) -> (r: bool)
    ensures
        r == match perm {
            Option::Some(p) => is_dir_mode(p),
            Option::None => false,
        },
{
    match perm {
        Option::Some(p) => (p & 0o170000) == 0o040000,
        Option::None => false,
    }
}

/// The listing entry a raw entry projects to.
pub open spec fn entry_of(e: RawDirEntry) -> FileEntry {
    FileEntry {
        path: e.path,
        name: e.name,
        is_dir: match e.perm {
            Option::Some(p) => is_dir_mode(p),
            Option::None => false,
        },
        size_bytes: match e.size {
            Option::Some(s) => s,
            Option::None => 0,
        },
        mtime_epoch: e.mtime,
    }
}

/// A raw entry is kept unless it is the self or parent link.
pub open spec fn keep_entry(e: RawDirEntry) -> bool {
    e.name@ != "."@ && e.name@ != ".."@
}

/// Name order of the listing: byte-wise comparison of the UTF-8 names.
pub open spec fn name_le(a: FileEntry, b: FileEntry) -> bool {
    lex_le(string_bytes(a.name), string_bytes(b.name))
}

/// Ascending by name, byte-wise.
pub open spec fn sorted_by_name(s: Seq<FileEntry>) -> bool {
    forall|i: int| 0 <= i < s.len() - 1 ==> name_le(#[trigger] s[i], s[i + 1])
}

/// What a raw listing projects to before sorting: the kept entries, in
/// order, each shaped into a `FileEntry`.
pub open spec fn listing_of(s: Seq<RawDirEntry>) -> Seq<FileEntry> {
    s.filter(|e: RawDirEntry| keep_entry(e)).map_values(|e: RawDirEntry| entry_of(e))
}

proof fn lemma_listing_push(s: Seq<RawDirEntry>, e: RawDirEntry)
    ensures
        listing_of(s.push(e)) == if keep_entry(e) {
            listing_of(s).push(entry_of(e))
        } else {
            listing_of(s)
        },
{
    broadcast use vstd::seq_lib::group_seq_lib_default;

    let pred = |x: RawDirEntry| keep_entry(x);
    let proj = |x: RawDirEntry| entry_of(x);
    assert(s.push(e) =~= s + seq![e]);
    assert((s + seq![e]).filter(pred) == s.filter(pred) + seq![e].filter(pred));
    reveal_with_fuel(Seq::filter, 2);
    assert(seq![e].drop_last() =~= Seq::<RawDirEntry>::empty());
    if pred(e) {
        assert(seq![e].filter(pred) =~= seq![e]);
        assert(s.filter(pred) + seq![e] =~= s.filter(pred).push(e));
        assert((s.filter(pred).push(e)).map_values(proj) =~= s.filter(pred).map_values(
            proj,
        ).push(entry_of(e)));
    } else {
        assert(seq![e].filter(pred) =~= Seq::<RawDirEntry>::empty());
        assert(s.filter(pred) + seq![e].filter(pred) =~= s.filter(pred));
    }
}

/// Inserts an entry into a name-sorted listing, keeping it sorted.
fn insert_sorted(out: &mut Vec<FileEntry>, e: FileEntry)
    requires
        sorted_by_name(old(out)@),
    ensures
        sorted_by_name(final(out)@),
        final(out)@.to_multiset() == old(out)@.to_multiset().insert(e),
        forall|i: int| 0 <= i < final(out)@.len() ==> (#[trigger] final(out)@[i] == e
            || old(out)@.contains(final(out)@[i])),
{
    let ghost orig = out@;
    let mut p: usize = out.len();
    while p > 0 && !bytes_le(out[p - 1].name.as_str().as_bytes(), e.name.as_str().as_bytes())
        invariant
            out@ == orig,
            p <= out@.len(),
            sorted_by_name(out@),
            forall|q: int| p <= q < out@.len() ==> !name_le(#[trigger] out@[q], e),
        decreases p,
    {
        proof {
            assert(!name_le(out@[p - 1], e));
        }
        p = p - 1;
    }
    out.insert(p, e);
    proof {
        assert(out@ == orig.insert(p as int, e));
        assert forall|i: int| 0 <= i < out@.len() - 1 implies name_le(
            #[trigger] out@[i],
            out@[i + 1],
        ) by {
            if i + 1 < p {
                assert(out@[i] == orig[i] && out@[i + 1] == orig[i + 1]);
            } else if i + 1 == p {
                assert(out@[i] == orig[i] && out@[i + 1] == e);
            } else if i == p {
                assert(out@[i] == e && out@[i + 1] == orig[i]);
                lemma_lex_le_total(string_bytes(e.name), string_bytes(orig[i].name));
            } else {
                assert(out@[i] == orig[i - 1] && out@[i + 1] == orig[i]);
            }
        }
        assert forall|i: int| 0 <= i < out@.len() implies (out@[i] == e || orig.contains(
            out@[i],
        )) by {
            if i < p {
                assert(out@[i] == orig[i]);
            } else if i > p {
                assert(out@[i] == orig[i - 1]);
            }
        }
    }
}

/// Shapes a raw listing: drops the `.` and `..` links, projects each entry,
/// and sorts ascending by name (byte-wise). The result holds exactly the
/// kept entries.
pub fn build_listing(entries: Vec<RawDirEntry>) -> (r: Vec<FileEntry>)
    ensures
        sorted_by_name(r@),
        forall|i: int| 0 <= i < r@.len() ==> (#[trigger] r@[i].name@) != "."@ && r@[i].name@
            != ".."@,
        r@.to_multiset() == listing_of(entries@).to_multiset(),
{
    let ghost orig = entries@;
    let mut rest = entries;
    let mut out: Vec<FileEntry> = Vec::new();
    let ghost k: int = 0;
    while rest.len() > 0
        invariant
            0 <= k <= orig.len(),
            rest@ =~= orig.skip(k),
            sorted_by_name(out@),
            forall|i: int| 0 <= i < out@.len() ==> (#[trigger] out@[i].name@) != "."@
                && out@[i].name@ != ".."@,
            out@.to_multiset() == listing_of(orig.take(k)).to_multiset(),
        decreases orig.len() - k,
    {
        let e = rest.remove(0);
        proof {
            assert(e == orig[k]);
            assert(rest@ =~= orig.skip(k + 1));
        }
        proof {
            assert(orig.take(k + 1) =~= orig.take(k).push(e));
            lemma_listing_push(orig.take(k), e);
        }
        let dot = str_eq(e.name.as_str(), ".");
        let dotdot = str_eq(e.name.as_str(), "..");
        if !dot && !dotdot {
            let is_dir = stat_is_dir(e.perm);
            let size_bytes: u64 = match e.size {
                Option::Some(s) => s,
                Option::None => 0,
            };
            let fe = FileEntry {
                path: e.path,
                name: e.name,
                is_dir,
                size_bytes,
                mtime_epoch: e.mtime,
            };
            insert_sorted(&mut out, fe);
        }
        proof {
            k = k + 1;
        }
    }
    proof {
        assert(orig.take(k) =~= orig);
    }
    out
}

/// Default bound on a file read: one mebibyte.
pub const DEFAULT_MAX_READ_BYTES: u64 = 1024 * 1024;

/// The effective read limit for an optional requested maximum.
pub open spec fn spec_effective_limit(max_bytes: Option<u64>) -> u64 {
    match max_bytes {
        Option::Some(m) => m,
        Option::None => DEFAULT_MAX_READ_BYTES,
    }
}

/// Accumulates a bounded file read: chunks arrive from the transport, the
/// accumulator enforces the limit and decides the truncation flag.
pub struct ReadAccumulator {
    pub limit: u64,
    pub bytes: Vec<u8>,
}

impl ReadAccumulator {
    /// The byte count never exceeds the limit.
    pub open spec fn wf(self) -> bool {
        self.bytes@.len() <= self.limit
    }

    /// Starts a read with the requested or default limit.
    pub fn new(max_bytes: Option<u64>) -> (r: ReadAccumulator)
        ensures
            r.wf(),
            r.bytes@ =~= Seq::<u8>::empty(),
            r.limit == spec_effective_limit(max_bytes),
    {
        let limit: u64 = match max_bytes {
            Option::Some(m) => m,
            Option::None => DEFAULT_MAX_READ_BYTES,
        };
        ReadAccumulator { limit, bytes: Vec::new() }
    }

    /// How many bytes to request next: one chunk of at most 8 KiB, never
    /// past the limit.
    pub open spec fn spec_want(self) -> int {
        if self.limit - self.bytes@.len() >= 8192 {
            8192
        } else {
            self.limit - self.bytes@.len()
        }
    }

    /// Size of the next read request; zero exactly when the limit is reached.
    pub fn want(&self) -> (r: usize)
        requires
            self.wf(),
        ensures
            r == self.spec_want(),
            r == 0 <==> self.bytes@.len() == self.limit,
    {
        let rem: u64 = self.limit - self.bytes.len() as u64;
        if rem >= 8192 {
            8192
        } else {
            rem as usize
        }
    }

    /// Appends one chunk handed back by the transport. The chunk respects
    /// the requested size, so the limit holds afterwards.
    pub fn push_chunk(&mut self, chunk: &[u8])
        requires
            old(self).wf(),
            chunk@.len() <= old(self).spec_want(),
        ensures
            final(self).wf(),
            final(self).bytes@ == old(self).bytes@ + chunk@,
            final(self).limit == old(self).limit,
    {
        proof {
            assert(old(self).bytes@.len() + chunk@.len() <= old(self).limit);
        }
        let mut i: usize = 0;
        let n: usize = chunk.len();
        while i < n
            invariant
                n == chunk@.len(),
                i <= n,
                self.limit == old(self).limit,
                self.bytes@ =~= old(self).bytes@ + chunk@.take(i as int),
                old(self).bytes@.len() + n <= self.limit,
            decreases n - i,
        {
            self.bytes.push(chunk[i]);
            proof {
                assert(chunk@.take(i + 1) =~= chunk@.take(i as int).push(chunk@[i as int]));
            }
            i = i + 1;
        }
        proof {
            assert(chunk@.take(n as int) =~= chunk@);
        }
    }

    /// Closes the read. `probe_nonempty` reports whether the one-byte probe
    /// issued at the limit returned data; a read that ended before the limit
    /// is never truncated. The result keeps every accumulated byte:
    /// `bytes` is at most the limit long, and `truncated` implies it is
    /// exactly the limit.
    pub fn finish(self, path: String, probe_nonempty: bool) -> (r: ReadFileResult)
        requires
            self.wf(),
        ensures
            r.bytes@ == self.bytes@,
            r.path == path,
            r.bytes@.len() <= self.limit,
            r.truncated == (self.bytes@.len() == self.limit && probe_nonempty),
            r.truncated ==> r.bytes@.len() == self.limit,
    {
        let full: bool = self.bytes.len() as u64 == self.limit;
        ReadFileResult { path, bytes: self.bytes, truncated: full && probe_nonempty }
    }
}

} // verus!
