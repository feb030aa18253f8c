//! The records that describe an archive and its entries, and the limits that
//! every format shares.
use crate::error::Error;
use crate::formats::sizes_total;
use crate::names::{components, name_error, name_fault, safe_name};
use crate::paths::{path_view, prefix_parts, validate_paths, validate_result};
use crate::text::{
    char_alphanumeric, chars_of, file_stem, is_alphanumeric, path_file_stem, str_upper, to_upper,
};
use vstd::prelude::*;

verus! {

/// At most this many entries are listed, extracted or compressed.
pub const MAX_ENTRIES: usize = 100_000;

/// The size of the read and write buffers.
pub const BUFFER: usize = 256 * 1024;

/// One entry of an archive as it is listed.
#[derive(Clone, Debug)]
pub struct Entry {
    pub name: String,
    /// Uncompressed size in bytes.
    pub size: u64,
    /// Compressed size in bytes, 0 where the format does not tell.
    pub compressed: u64,
    pub directory: bool,
    pub encrypted: bool,
}

/// What listing an archive reports.
#[derive(Debug)]
pub struct Info {
    /// The format in upper case, such as `ZIP` or `TAR.GZ`.
    pub format: String,
    /// False for single compressed streams, whose size shows only on
    /// extraction.
    pub size_known: bool,
    pub path: String,
    pub entries: Vec<Entry>,
    pub total_size: u64,
    pub archive_size: u64,
}

impl Info {
    /// What listing an archive of `format` reports; the format is shown in
    /// upper case.
    pub fn new(
        format: &str,
        size_known: bool,
        path: String,
        entries: Vec<Entry>,
        total_size: u64,
        archive_size: u64,
    ) -> (i: Info)
        ensures
            i.format@ == str_upper(format@),
            i.size_known == size_known,
            i.path == path,
            i.entries == entries,
            i.total_size == total_size,
            i.archive_size == archive_size,
    {
        Info { format: to_upper(format), size_known, path, entries, total_size, archive_size }
    }
}

/// Entries read so far from a ZIP directory, for listing.
pub struct Listing {
    entries: Vec<Entry>,
    total: u64,
}

impl Listing {
    pub closed spec fn spec_entries(&self) -> Seq<Entry> {
        self.entries@
    }

    pub closed spec fn spec_total(&self) -> u64 {
        self.total
    }

    /// Starts a listing of a ZIP directory of `count` entries, refusing more
    /// entries than the library handles.
    pub fn new(count: usize) -> (r: Result<Listing, Error>)
        ensures
            count > MAX_ENTRIES ==> r matches Err(Error::ZipTooManyListed),
            count <= MAX_ENTRIES ==> (r matches Ok(l) && l.spec_entries().len() == 0
                && l.spec_total() == 0),
    {
        if count > MAX_ENTRIES {
            return Err(Error::ZipTooManyListed);
        }
        Ok(Listing { entries: Vec::new(), total: 0 })
    }

    /// Adds the next entry, refusing it when the total size would overflow.
    pub fn push(&mut self, entry: Entry) -> (r: Result<(), Error>)
        requires
            old(self).spec_total() == sizes_total(old(self).spec_entries()),
        ensures
            final(self).spec_total() == sizes_total(final(self).spec_entries()),
            old(self).spec_total() + entry.size > u64::MAX ==> (r matches Err(Error::SizeOverflow)
                && final(self).spec_entries() == old(self).spec_entries()),
            old(self).spec_total() + entry.size <= u64::MAX ==> (r is Ok
                && final(self).spec_entries() == old(self).spec_entries().push(entry)),
    {
        let ghost before = self.entries@;
        match self.total.checked_add(entry.size) {
            Some(t) => {
                self.total = t;
                self.entries.push(entry);
                proof {
                    assert(self.entries@.drop_last() =~= before);
                }
                Ok(())
            },
            None => Err(Error::SizeOverflow),
        }
    }

    /// What listing the ZIP archive at `path` reports.
    pub fn finish(self, path: String, archive_size: u64) -> (info: Info)
        ensures
            info.format@ == "ZIP"@,
            info.size_known,
            info.path == path,
            info.entries@ == self.spec_entries(),
            info.total_size == self.spec_total(),
            info.archive_size == archive_size,
    {
        Info {
            format: String::from_str("ZIP"),
            size_known: true,
            path,
            entries: self.entries,
            total_size: self.total,
            archive_size,
        }
    }
}

/// What the ZIP directory tells of one entry.
pub struct ZipMeta {
    pub name: String,
    pub size: u64,
    pub directory: bool,
    pub symlink: bool,
    /// The Unix mode, when the archive records one.
    pub unix_mode: Option<u32>,
}

/// Regular files and folders, and entries without a recorded type, are
/// extracted; links, devices and the like are not.
pub open spec fn plain_mode(mode: Option<u32>) -> bool {
    let t = match mode {
        Some(m) => m & 0o170000u32,
        None => 0u32,
    };
    t == 0 || t == 0o100000u32 || t == 0o040000u32
}

/// The sum of the sizes.
pub open spec fn sum(sizes: Seq<u64>) -> nat
    decreases sizes.len(),
{
    if sizes.len() == 0 {
        0
    } else {
        sum(sizes.drop_last()) + sizes.last() as nat
    }
}

/// The check of a ZIP directory before any file is written: entry types,
/// the declared sizes against the limit, each name and then all paths
/// together.
pub struct ZipScan {
    limit: u64,
    total: u64,
    paths: Vec<(Vec<String>, bool)>,
    sizes: Vec<u64>,
}

impl ZipScan {
    pub closed spec fn spec_limit(&self) -> u64 {
        self.limit
    }

    pub closed spec fn spec_total(&self) -> u64 {
        self.total
    }

    pub closed spec fn spec_paths(&self) -> Seq<(Seq<Seq<char>>, bool)> {
        path_view(self.paths@)
    }

    pub closed spec fn spec_sizes(&self) -> Seq<u64> {
        self.sizes@
    }

    /// Every scan keeps its total equal to the declared sizes, and within
    /// the limit.
    pub closed spec fn wf(&self) -> bool {
        &&& self.total == sum(self.sizes@)
        &&& self.total <= self.limit
        &&& self.paths@.len() == self.sizes@.len()
    }

    /// The declared sizes of a scan that its steps produce add up to its
    /// total, which is within the limit.
    pub proof fn lemma_within_limit(&self)
        requires
            self.wf(),
        ensures
            self.spec_total() == sum(self.spec_sizes()),
            self.spec_total() <= self.spec_limit(),
            self.spec_paths().len() == self.spec_sizes().len(),
    {
    }

    /// Starts the scan of a ZIP directory of `count` entries.
    pub fn new(count: usize, limit: u64) -> (r: Result<ZipScan, Error>)
        ensures
            count > MAX_ENTRIES ==> r matches Err(Error::ZipTooManyToExtract),
            count <= MAX_ENTRIES ==> (r matches Ok(z) && z.wf() && z.spec_limit() == limit
                && z.spec_paths().len() == 0),
    {
        if count > MAX_ENTRIES {
            return Err(Error::ZipTooManyToExtract);
        }
        let z = ZipScan { limit, total: 0, paths: Vec::new(), sizes: Vec::new() };
        assert(path_view(z.paths@) =~= Seq::<(Seq<Seq<char>>, bool)>::empty());
        Ok(z)
    }

    /// Takes the next entry of the directory, refusing it when the job is
    /// cancelled, when it is a link or a special file, when the declared sizes
    /// overflow or pass the limit, or when its name is refused.
    pub fn add(&mut self, meta: &ZipMeta, cancelled: bool) -> (r: Result<(), Error>)
        requires
            old(self).wf(),
        ensures
            final(self).wf(),
            final(self).spec_limit() == old(self).spec_limit(),
            r is Err ==> *final(self) == *old(self),
            ({
                let t = old(self).spec_total() + meta.size;
                if cancelled {
                    r matches Err(Error::CancelledScan)
                } else if meta.symlink || !plain_mode(meta.unix_mode) {
                    r matches Err(Error::ZipSpecial(s)) && s@ == meta.name@
                } else if t > u64::MAX {
                    r matches Err(Error::SizeOverflow)
                } else if t > old(self).spec_limit() {
                    r matches Err(Error::DeclaredOverLimit)
                } else if name_fault(meta.name@) is Some {
                    r matches Err(e) && name_error(meta.name@, e)
                } else {
                    &&& r is Ok
                    &&& final(self).spec_paths() == old(self).spec_paths().push(
                        (components(meta.name@), meta.directory),
                    )
                    &&& final(self).spec_sizes() == old(self).spec_sizes().push(meta.size)
                }
            }),
    {
        if cancelled {
            return Err(Error::CancelledScan);
        }
        let mode = match meta.unix_mode {
            Some(m) => m & 0o170000u32,
            None => 0u32,
        };
        if meta.symlink || !(mode == 0 || mode == 0o100000u32 || mode == 0o040000u32) {
            return Err(Error::ZipSpecial(meta.name.clone()));
        }
        let total = match self.total.checked_add(meta.size) {
            Some(t) => t,
            None => {
                return Err(Error::SizeOverflow);
            },
        };
        if total > self.limit {
            return Err(Error::DeclaredOverLimit);
        }
        let parts = safe_name(meta.name.as_str())?;
        let ghost before = self.paths@;
        let ghost sizes_before = self.sizes@;
        let ghost pv = parts.deep_view();
        self.paths.push((parts, meta.directory));
        self.sizes.push(meta.size);
        self.total = total;
        proof {
            assert(self.paths@ =~= before.push(self.paths@[before.len() as int]));
            assert(path_view(self.paths@) =~= path_view(before).push((pv, meta.directory)));
            assert(self.sizes@.drop_last() =~= sizes_before);
        }
        Ok(())
    }

    /// Checks the paths of all entries together.
    pub fn finish(&self) -> (r: Result<(), Error>)
        ensures
            validate_result(self.spec_paths(), r),
    {
        validate_paths(self.paths.as_slice())
    }

    /// The paths of the entries, in directory order.
    pub fn paths(&self) -> (r: &Vec<(Vec<String>, bool)>)
        ensures
            path_view(r@) == self.spec_paths(),
    {
        &self.paths
    }

    /// The declared sizes, in directory order.
    pub fn sizes(&self) -> (r: &Vec<u64>)
        ensures
            r@ == self.spec_sizes(),
    {
        &self.sizes
    }

    /// The total of the declared sizes.
    pub fn total(&self) -> (r: u64)
        ensures
            r == self.spec_total(),
    {
        self.total
    }

    /// How many entries are files.
    pub fn file_count(&self) -> (r: usize)
        ensures
            r == self.spec_paths().filter(|e: (Seq<Seq<char>>, bool)| !e.1).len(),
    {
        let mut n: usize = 0;
        let mut i: usize = 0;
        let ghost ps = self.spec_paths();
        proof {
            assert(ps.take(0) =~= Seq::<(Seq<Seq<char>>, bool)>::empty());
            reveal(Seq::filter);
        }
        while i < self.paths.len()
            invariant
                ps == path_view(self.paths@),
                i <= self.paths.len(),
                n == ps.take(i as int).filter(|e: (Seq<Seq<char>>, bool)| !e.1).len(),
                n <= i,
            decreases self.paths.len() - i,
        {
            proof {
                assert(ps.take(i + 1).drop_last() =~= ps.take(i as int));
                reveal(Seq::filter);
            }
            if !self.paths[i].1 {
                n = n + 1;
            }
            i += 1;
        }
        proof {
            assert(ps.take(self.paths.len() as int) =~= ps);
        }
        n
    }
}

/// The folder that must exist before an entry is written: the entry itself
/// for a folder, its parent for a file.
pub open spec fn folder_for(parts: Seq<Seq<char>>, directory: bool) -> Seq<Seq<char>> {
    if directory || parts.len() == 0 {
        parts
    } else {
        parts.drop_last()
    }
}

/// The folders, below the extraction folder, to create before the entries
/// are written side by side: one for each entry, in order.
pub fn folders_to_create(entries: &Vec<(Vec<String>, bool)>) -> (r: Vec<Vec<String>>)
    ensures
        r.len() == entries.len(),
        forall|i: int|
            0 <= i < r.len() ==> #[trigger] r@[i].deep_view() == folder_for(
                entries@[i].0.deep_view(),
                entries@[i].1,
            ),
{
    let mut r: Vec<Vec<String>> = Vec::new();
    let mut i: usize = 0;
    while i < entries.len()
        invariant
            i <= entries.len(),
            r.len() == i,
            forall|k: int|
                0 <= k < i ==> #[trigger] r@[k].deep_view() == folder_for(
                    entries@[k].0.deep_view(),
                    entries@[k].1,
                ),
        decreases entries.len() - i,
    {
        let parts = &entries[i].0;
        let keep = if entries[i].1 || parts.len() == 0 {
            parts.len()
        } else {
            parts.len() - 1
        };
        let folder = prefix_parts(parts, keep);
        proof {
            let dv = parts.deep_view();
            if entries[i as int].1 || parts.len() == 0 {
                assert(dv.take(keep as int) =~= dv);
            } else {
                assert(dv.take(keep as int) =~= dv.drop_last());
            }
        }
        r.push(folder);
        i += 1;
    }
    r
}

/// How many bytes one entry or source file has shown against the size it
/// declared.
pub struct Counted {
    expected: u64,
    seen: u64,
}

impl Counted {
    pub closed spec fn spec_expected(&self) -> u64 {
        self.expected
    }

    pub closed spec fn spec_seen(&self) -> u64 {
        self.seen
    }

    /// Nothing seen yet of a file of `expected` bytes.
    pub fn new(expected: u64) -> (c: Counted)
        ensures
            c.spec_expected() == expected,
            c.spec_seen() == 0,
    {
        Counted { expected, seen: 0 }
    }

    /// Counts `count` more bytes; false, and nothing counted, when they would
    /// pass the declared size.
    pub fn add(&mut self, count: u64) -> (ok: bool)
        requires
            old(self).spec_seen() <= old(self).spec_expected(),
        ensures
            final(self).spec_seen() <= final(self).spec_expected(),
            final(self).spec_expected() == old(self).spec_expected(),
            ok == (old(self).spec_seen() + count <= old(self).spec_expected()),
            ok ==> final(self).spec_seen() == old(self).spec_seen() + count,
            !ok ==> final(self).spec_seen() == old(self).spec_seen(),
    {
        if count > self.expected - self.seen {
            false
        } else {
            self.seen = self.seen + count;
            true
        }
    }

    /// All the declared bytes were seen.
    pub fn complete(&self) -> (r: bool)
        ensures
            r == (self.spec_seen() == self.spec_expected()),
    {
        self.seen == self.expected
    }
}

/// A character kept in the name of a staging folder: a letter, a digit or
/// `-`, and `_` when `underscore`.
pub open spec fn keep_char(c: char, underscore: bool) -> bool {
    char_alphanumeric(c) || c == '-' || (underscore && c == '_')
}

/// The start of the name of the folder that an extraction is staged in: the
/// archive's file stem (or `Archive`) kept to the characters `keep_char`
/// allows, at most 48 of them, then `-`.
pub open spec fn staging_prefix_of(path: Seq<char>, underscore: bool) -> Seq<char> {
    stem_prefix(path_file_stem(path), underscore)
}

/// The prefix of a staging folder made from the stem of an archive's file
/// name, or from `Archive` when it has none.
pub open spec fn stem_prefix(stem: Option<Seq<char>>, underscore: bool) -> Seq<char> {
    let stem = match stem {
        Some(s) => s,
        None => "Archive"@,
    };
    at_most(stem.filter(|c: char| keep_char(c, underscore)), 48).push('-')
}

/// The first `n` elements of `s`, or all of `s` when it is shorter.
pub open spec fn at_most<A>(s: Seq<A>, n: int) -> Seq<A> {
    if s.len() <= n {
        s
    } else {
        s.take(n)
    }
}

/// The prefix of the staging folder for the archive at `path`.
pub fn staging_prefix(path: &str, underscore: bool) -> (r: String)
    ensures
        r@ == staging_prefix_of(path@, underscore),
{
    let stem = file_stem(path);
    match stem {
        Some(s) => prefix_from_stem(Some(s.as_str()), underscore),
        None => prefix_from_stem(None, underscore),
    }
}

/// The prefix of a staging folder made from `stem`, the stem of the
/// archive's file name when it has one.
pub fn prefix_from_stem(stem: Option<&str>, underscore: bool) -> (r: String)
    ensures
        r@ == stem_prefix(
            match stem {
                Some(s) => Some(s@),
                None => None,
            },
            underscore,
        ),
{
    let stem = match stem {
        Some(s) => s.to_owned(),
        None => String::from_str("Archive"),
    };
    let ghost pred = |c: char| keep_char(c, underscore);
    let chars = chars_of(stem.as_str());
    let mut out = String::new();
    let mut kept: usize = 0;
    let mut i: usize = 0;
    proof {
        assert(chars@.take(0) =~= Seq::<char>::empty());
        reveal(Seq::filter);
        assert(out@ =~= chars@.take(0).filter(pred).take(0));
    }
    while i < chars.len() && kept < 48
        invariant
            chars@ == stem@,
            i <= chars.len(),
            kept <= 48,
            kept == chars@.take(i as int).filter(pred).len(),
            out@ == chars@.take(i as int).filter(pred),
            pred == (|c: char| keep_char(c, underscore)),
        decreases chars.len() - i,
    {
        let c = chars[i];
        proof {
            assert(chars@.take(i + 1).drop_last() =~= chars@.take(i as int));
            reveal(Seq::filter);
        }
        if is_alphanumeric(c) || c == '-' || (underscore && c == '_') {
            let one = stem.as_str().substring_char(i, i + 1);
            proof {
                assert(one@ =~= seq![c]);
            }
            out.append(one);
            kept = kept + 1;
        }
        i += 1;
    }
    proof {
        lemma_filter_prefix(chars@, i as int, pred);
        let g = chars@.take(i as int).filter(pred);
        assert(at_most(g, 48) =~= g);
    }
    let dash = "-";
    proof {
        reveal_strlit("-");
    }
    out.append(dash);
    out
}

proof fn lemma_filter_prefix(s: Seq<char>, i: int, pred: spec_fn(char) -> bool)
    requires
        0 <= i <= s.len(),
        i == s.len() || s.take(i).filter(pred).len() == 48,
        s.take(i).filter(pred).len() <= 48,
    ensures
        at_most(s.filter(pred), 48) == s.take(i).filter(pred),
    decreases s.len() - i,
{
    reveal(Seq::filter);
    lemma_filter_prefix_grow(s, i, s.len() as int, pred);
    assert(s.take(s.len() as int) =~= s);
    if i == s.len() {
        assert(s.take(i) =~= s);
    }
}

proof fn lemma_filter_prefix_grow(s: Seq<char>, i: int, j: int, pred: spec_fn(char) -> bool)
    requires
        0 <= i <= j <= s.len(),
    ensures
        s.take(j).filter(pred).len() >= s.take(i).filter(pred).len(),
        s.take(j).filter(pred).take(s.take(i).filter(pred).len() as int) == s.take(i).filter(
            pred,
        ),
    decreases j - i,
{
    reveal(Seq::filter);
    if i == j {
        let f = s.take(i).filter(pred);
        assert(f.take(f.len() as int) =~= f);
    } else {
        lemma_filter_prefix_grow(s, i, j - 1, pred);
        assert(s.take(j).drop_last() =~= s.take(j - 1));
        let a = s.take(j - 1).filter(pred);
        let b = s.take(i).filter(pred);
        if pred(s.take(j).last()) {
            assert(a.push(s.take(j).last()).take(b.len() as int) =~= a.take(b.len() as int));
        }
    }
}

/// Progress of one job: how many of the expected bytes are done. The clock,
/// the cancel flag and the place that progress is shown at stay with the
/// caller, which hands in what they read.
pub struct Task {
    done: u64,
    total: u64,
}

impl Task {
    /// Bytes done so far.
    pub closed spec fn spec_done(&self) -> u64 {
        self.done
    }

    /// Bytes that the job expects.
    pub closed spec fn spec_total(&self) -> u64 {
        self.total
    }

    /// A job that expects `total` bytes and has done none.
    pub fn new(total: u64) -> (t: Task)
        ensures
            t.spec_done() == 0,
            t.spec_total() == total,
    {
        Task { done: 0, total }
    }

    /// Refuses to go on once the job is cancelled.
    pub fn check(&self, cancelled: bool) -> (r: Result<(), Error>)
        ensures
            cancelled ==> r matches Err(Error::Cancelled),
            !cancelled ==> r is Ok,
    {
        if cancelled {
            Err(Error::Cancelled)
        } else {
            Ok(())
        }
    }

    /// Counts `bytes` more as done, wrapping as the shared counter does, and
    /// says whether to report progress now. `since_last_ms` is the time since
    /// the last report, or `None` when another report is under way; a report
    /// is due after 100 ms, or when the count reaches the total.
    pub fn advance(&mut self, bytes: u64, since_last_ms: Option<u128>) -> (emit: bool)
        ensures
            final(self).spec_done() == (if old(self).spec_done() + bytes > u64::MAX {
                (old(self).spec_done() + bytes - 0x1_0000_0000_0000_0000) as u64
            } else {
                (old(self).spec_done() + bytes) as u64
            }),
            final(self).spec_total() == old(self).spec_total(),
            emit == (since_last_ms matches Some(ms) && (ms >= 100 || final(self).spec_done()
                == old(self).spec_total())),
    {
        self.done = self.done.wrapping_add(bytes);
        match since_last_ms {
            Some(ms) => ms >= 100 || self.done == self.total,
            None => false,
        }
    }

    /// Bytes done so far.
    pub fn done(&self) -> (r: u64)
        ensures
            r == self.spec_done(),
    {
        self.done
    }

    /// Bytes that the job expects.
    pub fn total(&self) -> (r: u64)
        ensures
            r == self.spec_total(),
    {
        self.total
    }
}

/// An entry counts as a plain file or folder exactly when it records no
/// type, or its type bits (`mode & 0o170000`) are those of a regular file
/// (`0o100000`) or a folder (`0o040000`); links (`0o120000`), character and
/// block devices (`0o020000`, `0o060000`), pipes (`0o010000`) and sockets
/// (`0o140000`) are not.
pub proof fn lemma_plain_types(m: u32)
    ensures
        plain_mode(None),
        plain_mode(Some(m)) <==> (m & 0o170000 == 0 || m & 0o170000 == 0o100000 || m & 0o170000
            == 0o040000),
        (m & 0o170000 == 0o120000 || m & 0o170000 == 0o020000 || m & 0o170000 == 0o060000 || m
            & 0o170000 == 0o010000 || m & 0o170000 == 0o140000) ==> !plain_mode(Some(m)),
{
}

} // verus!
