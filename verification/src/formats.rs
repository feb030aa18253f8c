//! The formats other than ZIP: how a file name selects a format, and the
//! checks applied to the entries that a format lists.
use crate::archive::{plain_mode, Entry, Task, MAX_ENTRIES};
use crate::error::Error;
use crate::names::{components, name_error, name_fault, safe_name};
use crate::paths::{path_view, validate_paths, validate_result};
use crate::text::{
    chars_of, ends_with, ends_with_str, extension, file_stem, path_extension, path_file_stem,
    starts_with, starts_with_str, str_equal, str_lower, to_lower,
};
use vstd::prelude::*;

verus! {

/// The format that a lower-cased file name selects: a compressed TAR by its
/// double suffix, otherwise `lower_ext`, the lower-cased extension.
pub open spec fn suffix_kind(name: Seq<char>, lower_ext: Seq<char>) -> Seq<char> {
    if ends_with(name, ".tar.gz"@) {
        "tar.gz"@
    } else if ends_with(name, ".tgz"@) {
        "tar.gz"@
    } else if ends_with(name, ".tar.bz2"@) {
        "tar.bz2"@
    } else if ends_with(name, ".tbz2"@) {
        "tar.bz2"@
    } else if ends_with(name, ".tar.xz"@) {
        "tar.xz"@
    } else if ends_with(name, ".txz"@) {
        "tar.xz"@
    } else if ends_with(name, ".tar.zst"@) {
        "tar.zst"@
    } else {
        lower_ext
    }
}

/// The format that a file name selects, in lower case. `ext` is what
/// `Path::extension` gives for the path.
pub open spec fn kind_of(path: Seq<char>, ext: Option<Seq<char>>) -> Seq<char> {
    suffix_kind(
        str_lower(path),
        str_lower(
            match ext {
                Some(e) => e,
                None => Seq::<char>::empty(),
            },
        ),
    )
}

/// The format that the lower-cased path `lower` selects, given the
/// lower-cased extension `lower_ext` of the path.
pub fn kind_from(lower: &str, lower_ext: &str) -> (r: String)
    ensures
        r@ == suffix_kind(lower@, lower_ext@),
{
    let name = chars_of(lower);
    if ends_with_str(&name, ".tar.gz") {
        return String::from_str("tar.gz");
    }
    if ends_with_str(&name, ".tgz") {
        return String::from_str("tar.gz");
    }
    if ends_with_str(&name, ".tar.bz2") {
        return String::from_str("tar.bz2");
    }
    if ends_with_str(&name, ".tbz2") {
        return String::from_str("tar.bz2");
    }
    if ends_with_str(&name, ".tar.xz") {
        return String::from_str("tar.xz");
    }
    if ends_with_str(&name, ".txz") {
        return String::from_str("tar.xz");
    }
    if ends_with_str(&name, ".tar.zst") {
        return String::from_str("tar.zst");
    }
    lower_ext.to_owned()
}

proof fn lemma_end_chars(s: Seq<char>, suffix: Seq<char>)
    requires
        ends_with(s, suffix),
    ensures
        forall|d: int|
            0 <= d < suffix.len() ==> #[trigger] s[s.len() - 1 - d] == suffix[suffix.len() - 1
                - d],
{
    assert forall|d: int| 0 <= d < suffix.len() implies #[trigger] s[s.len() - 1 - d]
        == suffix[suffix.len() - 1 - d] by {
        assert(s.subrange(s.len() - suffix.len(), s.len() as int)[suffix.len() - 1 - d] == s[s.len()
            - 1 - d]);
    }
}

/// Each double suffix selects its compressed TAR format, whatever the
/// extension: `.tar.gz` and `.tgz` select `tar.gz`, `.tar.bz2` and `.tbz2`
/// select `tar.bz2`, `.tar.xz` and `.txz` select `tar.xz`, and `.tar.zst`
/// selects `tar.zst`; a name with none of them selects its extension.
pub proof fn lemma_double_suffixes(name: Seq<char>, lower_ext: Seq<char>)
    ensures
        ends_with(name, ".tar.gz"@) || ends_with(name, ".tgz"@) ==> suffix_kind(name, lower_ext)
            == "tar.gz"@,
        ends_with(name, ".tar.bz2"@) || ends_with(name, ".tbz2"@) ==> suffix_kind(
            name,
            lower_ext,
        ) == "tar.bz2"@,
        ends_with(name, ".tar.xz"@) || ends_with(name, ".txz"@) ==> suffix_kind(name, lower_ext)
            == "tar.xz"@,
        ends_with(name, ".tar.zst"@) ==> suffix_kind(name, lower_ext) == "tar.zst"@,
        !(ends_with(name, ".tar.gz"@) || ends_with(name, ".tgz"@) || ends_with(name, ".tar.bz2"@)
            || ends_with(name, ".tbz2"@) || ends_with(name, ".tar.xz"@) || ends_with(name, ".txz"@)
            || ends_with(name, ".tar.zst"@)) ==> suffix_kind(name, lower_ext) == lower_ext,
{
    reveal_strlit(".tar.gz");
    reveal_strlit(".tgz");
    reveal_strlit(".tar.bz2");
    reveal_strlit(".tbz2");
    reveal_strlit(".tar.xz");
    reveal_strlit(".txz");
    reveal_strlit(".tar.zst");
    if ends_with(name, ".tar.gz"@) {
        lemma_end_chars(name, ".tar.gz"@);
    }
    if ends_with(name, ".tgz"@) {
        lemma_end_chars(name, ".tgz"@);
    }
    if ends_with(name, ".tar.bz2"@) {
        lemma_end_chars(name, ".tar.bz2"@);
    }
    if ends_with(name, ".tbz2"@) {
        lemma_end_chars(name, ".tbz2"@);
    }
    if ends_with(name, ".tar.xz"@) {
        lemma_end_chars(name, ".tar.xz"@);
    }
    if ends_with(name, ".txz"@) {
        lemma_end_chars(name, ".txz"@);
    }
    if ends_with(name, ".tar.zst"@) {
        lemma_end_chars(name, ".tar.zst"@);
    }
    let n = name.len() as int;
    if n >= 4 {
        // The last four characters tell the suffixes apart.
        assert(name[n - 1 - 0] == name[n - 1] && name[n - 1 - 1] == name[n - 2] && name[n - 1 - 2]
            == name[n - 3] && name[n - 1 - 3] == name[n - 4]);
    }
}

/// The format of the archive at `path`, as `kind_of` states it.
pub fn kind(path: &str) -> (r: String)
    ensures
        r@ == kind_of(path@, path_extension(path@)),
{
    let lower = to_lower(path);
    let lower_ext = match extension(path) {
        Some(e) => to_lower(e.as_str()),
        None => {
            let empty = "";
            proof {
                reveal_strlit("");
                assert(empty@ =~= Seq::<char>::empty());
            }
            to_lower(empty)
        },
    };
    kind_from(lower.as_str(), lower_ext.as_str())
}

/// The reader that lists and extracts an archive of a format.
#[derive(Debug, PartialEq, Eq, Structural, Clone, Copy)]
pub enum Handler {
    Zip,
    SevenZip,
    Rar,
    /// A TAR archive, plain or inside one compressed stream.
    Tar,
    /// One compressed file that is not an archive.
    Stream,
    Unsupported,
}

/// The handler for a format.
pub open spec fn handler_of(format: Seq<char>) -> Handler {
    if format == "zip"@ || format == "zipx"@ {
        Handler::Zip
    } else if format == "7z"@ {
        Handler::SevenZip
    } else if format == "rar"@ {
        Handler::Rar
    } else if starts_with(format, "tar"@) {
        Handler::Tar
    } else if format == "gz"@ || format == "bz2"@ || format == "xz"@ || format == "zst"@ {
        Handler::Stream
    } else {
        Handler::Unsupported
    }
}

/// Chooses the reader for a format that `kind` gave.
pub fn handler(format: &str) -> (r: Handler)
    ensures
        r == handler_of(format@),
{
    if str_equal(format, "zip") || str_equal(format, "zipx") {
        Handler::Zip
    } else if str_equal(format, "7z") {
        Handler::SevenZip
    } else if str_equal(format, "rar") {
        Handler::Rar
    } else if starts_with_str(&chars_of(format), "tar") {
        Handler::Tar
    } else if str_equal(format, "gz") || str_equal(format, "bz2") || str_equal(format, "xz")
        || str_equal(format, "zst") {
        Handler::Stream
    } else {
        Handler::Unsupported
    }
}

/// The decompressor in front of a TAR reader or of a single stream.
#[derive(Debug, PartialEq, Eq, Structural, Clone, Copy)]
pub enum Codec {
    Gzip,
    Bzip2,
    Xz,
    Zstd,
    /// No compression: the bytes of the file as they are.
    Plain,
}

/// The part of `s` after its last `.`, or all of `s` when it has none.
pub open spec fn last_segment(s: Seq<char>) -> Seq<char>
    decreases s.len(),
{
    if s.len() == 0 {
        s
    } else if s.last() == '.' {
        Seq::<char>::empty()
    } else {
        last_segment(s.drop_last()).push(s.last())
    }
}

/// The codec that the last segment of a format names.
pub open spec fn codec_of(format: Seq<char>) -> Option<Codec> {
    let seg = last_segment(format);
    if seg == "gz"@ {
        Some(Codec::Gzip)
    } else if seg == "bz2"@ {
        Some(Codec::Bzip2)
    } else if seg == "xz"@ {
        Some(Codec::Xz)
    } else if seg == "zst"@ {
        Some(Codec::Zstd)
    } else if seg == "tar"@ {
        Some(Codec::Plain)
    } else {
        None
    }
}

/// Which reader each format gets: `zip` and `zipx` the ZIP reader, `7z` and
/// `rar` their own, every format that starts with `tar` the TAR reader, and a
/// compressed single file (`gz`, `bz2`, `xz` or `zst`, the formats that
/// `kind` gives for such a file) is read as one stream; every format read as
/// a stream names a decompressor.
pub proof fn lemma_single_streams(f: Seq<char>)
    ensures
        (f == "gz"@ || f == "bz2"@ || f == "xz"@ || f == "zst"@) ==> handler_of(f)
            == Handler::Stream,
        handler_of(f) == Handler::Stream ==> codec_of(f) is Some,
        (f == "zip"@ || f == "zipx"@) ==> handler_of(f) == Handler::Zip,
        f == "7z"@ ==> handler_of(f) == Handler::SevenZip,
        f == "rar"@ ==> handler_of(f) == Handler::Rar,
        (f.len() >= 3 && f[0] == 't' && f[1] == 'a' && f[2] == 'r') ==> handler_of(f)
            == Handler::Tar,
{
    reveal_strlit("zip");
    reveal_strlit("zipx");
    reveal_strlit("7z");
    reveal_strlit("rar");
    reveal_strlit("tar");
    reveal_strlit("gz");
    reveal_strlit("bz2");
    reveal_strlit("xz");
    reveal_strlit("zst");
    if f.len() >= 3 && f[0] == 't' && f[1] == 'a' && f[2] == 'r' {
        assert(f.take(3) =~= "tar"@);
        assert(f != "zip"@ && f != "zipx"@ && f != "7z"@ && f != "rar"@);
    }
    if f == "gz"@ || f == "bz2"@ || f == "xz"@ || f == "zst"@ {
        if f.len() == 3 {
            assert(f.take(3) =~= f);
            assert(f[0] != "tar"@[0]);
        }
        assert(!starts_with(f, "tar"@));
        assert(f[1] != "zip"@[1] || f[0] != "zip"@[0] || f.len() != 3);
        assert(f[0] != "rar"@[0] || f.len() != 3);
        assert(f[0] != "7z"@[0] || f.len() != 2);
        assert(f != "zip"@ && f != "zipx"@ && f != "7z"@ && f != "rar"@);
        lemma_last_segment(f, 0);
        assert(f.subrange(0, f.len() as int) =~= f);
    }
}

proof fn lemma_last_segment(s: Seq<char>, start: int)
    requires
        0 <= start <= s.len(),
        start == 0 || s[start - 1] == '.',
        forall|k: int| start <= k < s.len() ==> s[k] != '.',
    ensures
        last_segment(s) == s.subrange(start, s.len() as int),
    decreases s.len(),
{
    if s.len() > 0 {
        if start == s.len() {
            assert(s.subrange(start, s.len() as int) =~= Seq::<char>::empty());
        } else {
            lemma_last_segment(s.drop_last(), start);
            assert(s.drop_last().subrange(start, s.len() - 1).push(s.last()) =~= s.subrange(
                start,
                s.len() as int,
            ));
        }
    } else {
        assert(s.subrange(0, 0) =~= s);
    }
}

/// Chooses the decompressor for a TAR or stream format.
pub fn codec(format: &str) -> (r: Result<Codec, Error>)
    ensures
        match codec_of(format@) {
            Some(c) => r == Ok::<Codec, Error>(c),
            None => r matches Err(Error::UnsupportedCompression),
        },
{
    let chars = chars_of(format);
    let mut start = chars.len();
    while start > 0 && chars[start - 1] != '.'
        invariant
            chars@ == format@,
            start <= chars.len(),
            forall|k: int| start <= k < chars.len() ==> chars@[k] != '.',
        decreases start,
    {
        start -= 1;
    }
    proof {
        lemma_last_segment(format@, start as int);
    }
    let seg = format.substring_char(start, chars.len());
    if str_equal(seg, "gz") {
        Ok(Codec::Gzip)
    } else if str_equal(seg, "bz2") {
        Ok(Codec::Bzip2)
    } else if str_equal(seg, "xz") {
        Ok(Codec::Xz)
    } else if str_equal(seg, "zst") {
        Ok(Codec::Zstd)
    } else if str_equal(seg, "tar") {
        Ok(Codec::Plain)
    } else {
        Err(Error::UnsupportedCompression)
    }
}

/// The single entry that a compressed stream is listed as: named after the
/// file without its last extension, with the file's size as compressed size
/// and its real size unknown.
pub fn stream_entry(path: &str, compressed: u64) -> (r: Entry)
    ensures
        r.name@ == match path_file_stem(path@) {
            Some(s) => s,
            None => "file"@,
        },
        r.size == 0,
        r.compressed == compressed,
        !r.directory,
        !r.encrypted,
{
    let name = match file_stem(path) {
        Some(s) => s,
        None => String::from_str("file"),
    };
    Entry { name, size: 0, compressed, directory: false, encrypted: false }
}

/// The sum of the sizes of the entries.
pub open spec fn sizes_total(es: Seq<Entry>) -> nat
    decreases es.len(),
{
    if es.len() == 0 {
        0
    } else {
        sizes_total(es.drop_last()) + es.last().size as nat
    }
}

/// Why an entry stops the listing check.
pub enum EntryFault {
    /// The running total of sizes does not fit in 64 bits.
    Overflow,
    /// The running total of sizes is above the limit.
    OverLimit,
    /// The entry name is refused.
    Name,
}

/// The fault found at entry `i`, with the sizes up to and including it.
pub open spec fn entry_fault(es: Seq<Entry>, limit: u64, i: int) -> Option<EntryFault> {
    let t = sizes_total(es.take(i + 1));
    if t > u64::MAX {
        Some(EntryFault::Overflow)
    } else if t > limit {
        Some(EntryFault::OverLimit)
    } else if name_fault(es[i].name@) is Some {
        Some(EntryFault::Name)
    } else {
        None
    }
}

/// Entry `i` is the first with a fault.
pub open spec fn first_entry_fault(es: Seq<Entry>, limit: u64, i: int) -> bool {
    &&& 0 <= i < es.len()
    &&& entry_fault(es, limit, i) is Some
    &&& forall|ii: int| 0 <= ii < i ==> entry_fault(es, limit, ii) is None
}

/// Each entry as the components of its name and whether it is a folder.
pub open spec fn entry_paths(es: Seq<Entry>) -> Seq<(Seq<Seq<char>>, bool)> {
    es.map_values(|e: Entry| (components(e.name@), e.directory))
}

/// What `check_entries` returns.
pub open spec fn check_entries_result(es: Seq<Entry>, limit: u64, r: Result<u64, Error>) -> bool {
    if es.len() > MAX_ENTRIES {
        r matches Err(Error::TooManyEntries)
    } else if exists|i: int| 0 <= i < es.len() && entry_fault(es, limit, i) is Some {
        exists|i: int|
            first_entry_fault(es, limit, i) && match entry_fault(es, limit, i) {
                Some(EntryFault::Overflow) => r matches Err(Error::SizeOverflow),
                Some(EntryFault::OverLimit) => r matches Err(Error::LimitExceeded),
                Some(EntryFault::Name) => r matches Err(e) && name_error(es[i].name@, e),
                None => false,
            }
    } else {
        match r {
            Ok(t) => t == sizes_total(es) && validate_result(entry_paths(es), Ok(())),
            Err(e) => validate_result(entry_paths(es), Err(e)),
        }
    }
}

/// When `check_entries` accepts a listing, the listing has at most
/// `MAX_ENTRIES` entries, their sizes add up to the returned total, which is
/// within the limit, every name is accepted, and no two names clash.
pub proof fn lemma_checked_listing(es: Seq<Entry>, limit: u64, total: u64)
    requires
        check_entries_result(es, limit, Ok(total)),
    ensures
        es.len() <= MAX_ENTRIES,
        total == sizes_total(es),
        total <= limit,
        forall|i: int| 0 <= i < es.len() ==> name_fault(#[trigger] es[i].name@) is None,
        validate_result(entry_paths(es), Ok(())),
{
    assert(!(exists|i: int| 0 <= i < es.len() && entry_fault(es, limit, i) is Some));
    if es.len() > 0 {
        let last = es.len() - 1;
        assert(entry_fault(es, limit, last) is None);
        assert(es.take(last + 1) =~= es);
    }
    assert forall|i: int| 0 <= i < es.len() implies name_fault(#[trigger] es[i].name@) is None by {
        assert(entry_fault(es, limit, i) is None);
    }
}

/// Checks the entries that an archive lists before anything is extracted:
/// their number, the total of their sizes against `limit`, each name, and
/// the names together. Returns the total size.
pub fn check_entries(entries: &[Entry], limit: u64) -> (r: Result<u64, Error>)
    ensures
        check_entries_result(entries@, limit, r),
{
    if entries.len() > MAX_ENTRIES {
        return Err(Error::TooManyEntries);
    }
    let ghost es = entries@;
    let mut total: u64 = 0;
    let mut paths: Vec<(Vec<String>, bool)> = Vec::new();
    let mut i: usize = 0;
    proof {
        assert(es.take(0) =~= Seq::<Entry>::empty());
        assert(path_view(paths@) =~= entry_paths(es.take(0)));
    }
    while i < entries.len()
        invariant
            es == entries@,
            es.len() <= MAX_ENTRIES,
            i <= es.len(),
            total == sizes_total(es.take(i as int)),
            forall|ii: int| 0 <= ii < i ==> entry_fault(es, limit, ii) is None,
            path_view(paths@) == entry_paths(es.take(i as int)),
            paths@.len() == i,
        decreases es.len() - i,
    {
        let entry = &entries[i];
        proof {
            assert(es.take(i + 1).drop_last() =~= es.take(i as int));
        }
        let next = total.checked_add(entry.size);
        let next = match next {
            Some(t) => t,
            None => {
                proof {
                    assert(first_entry_fault(es, limit, i as int));
                }
                return Err(Error::SizeOverflow);
            },
        };
        total = next;
        if total > limit {
            proof {
                assert(first_entry_fault(es, limit, i as int));
            }
            return Err(Error::LimitExceeded);
        }
        let parts = safe_name(entry.name.as_str());
        match parts {
            Ok(parts) => {
                let ghost before = paths@;
                let ghost pv = parts.deep_view();
                paths.push((parts, entry.directory));
                proof {
                    assert(pv == components(es[i as int].name@));
                    assert(paths@ =~= before.push(paths@[i as int]));
                    assert(paths@[i as int].0.deep_view() == pv);
                    assert(path_view(paths@) =~= path_view(before).push((pv, es[i as int].directory)));
                    assert(es.take(i + 1) =~= es.take(i as int).push(es[i as int]));
                    assert(path_view(paths@) =~= entry_paths(es.take(i + 1)));
                }
            },
            Err(e) => {
                proof {
                    assert(first_entry_fault(es, limit, i as int));
                }
                return Err(e);
            },
        }
        i += 1;
    }
    proof {
        assert(es.take(es.len() as int) =~= es);
    }
    match validate_paths(paths.as_slice()) {
        Ok(()) => Ok(total),
        Err(e) => Err(e),
    }
}

/// The bookkeeping of extracting the entries of one archive, one after the
/// other, into a fresh folder: which paths were made, how many bytes were
/// written against the limit, and whether the entry being written keeps to
/// the size that the archive declared. Creating folders and files and
/// writing their bytes is left to the caller, after each step here allows
/// it.
pub struct Sink {
    task: Task,
    limit: u64,
    bytes: u64,
    files: usize,
    open: bool,
    expected: Option<u64>,
    current: u64,
    name: String,
    paths: Vec<(Vec<String>, bool)>,
}

impl Sink {
    pub closed spec fn spec_task(&self) -> Task {
        self.task
    }

    pub closed spec fn spec_limit(&self) -> u64 {
        self.limit
    }

    /// Bytes written over all entries.
    pub closed spec fn spec_bytes(&self) -> u64 {
        self.bytes
    }

    /// Files started, folders not counted.
    pub closed spec fn spec_files(&self) -> usize {
        self.files
    }

    /// A file entry is open for data.
    pub closed spec fn spec_open(&self) -> bool {
        self.open
    }

    /// The size that the current entry must have, when the format tells it.
    pub closed spec fn spec_expected(&self) -> Option<u64> {
        self.expected
    }

    /// Bytes written to the current entry.
    pub closed spec fn spec_current(&self) -> u64 {
        self.current
    }

    pub closed spec fn spec_name(&self) -> Seq<char> {
        self.name@
    }

    /// Every entry started so far, as its components and whether it is a
    /// folder.
    pub closed spec fn spec_paths(&self) -> Seq<(Seq<Seq<char>>, bool)> {
        path_view(self.paths@)
    }

    /// What every step keeps: the bytes written stay within the limit, the
    /// current entry within its declared size, and the entries within the
    /// count that the library handles.
    pub closed spec fn wf(&self) -> bool {
        &&& self.bytes <= self.limit
        &&& self.paths@.len() <= MAX_ENTRIES
        &&& self.files <= self.paths@.len()
        &&& (self.expected matches Some(n) ==> self.current <= n)
    }

    /// What every step keeps holds of any sink that the steps produce: the
    /// bytes written are within the limit and the current entry within the
    /// size that binds it.
    pub proof fn lemma_within_limit(&self)
        requires
            self.wf(),
        ensures
            self.spec_bytes() <= self.spec_limit(),
            self.spec_expected() matches Some(n) ==> self.spec_current() <= n,
            self.spec_paths().len() <= MAX_ENTRIES,
    {
    }

    /// All but the current entry's counters and the task stay as they were.
    pub open spec fn same_entries(&self, other: &Sink) -> bool {
        &&& self.spec_limit() == other.spec_limit()
        &&& self.spec_paths() == other.spec_paths()
        &&& self.spec_files() == other.spec_files()
    }

    /// A sink for an archive whose entries declare `total` bytes, allowed to
    /// write `limit` bytes.
    pub fn new(total: u64, limit: u64) -> (s: Sink)
        ensures
            s.wf(),
            s.spec_task().spec_total() == total,
            s.spec_task().spec_done() == 0,
            s.spec_limit() == limit,
            s.spec_bytes() == 0,
            s.spec_files() == 0,
            !s.spec_open(),
            s.spec_paths() == Seq::<(Seq<Seq<char>>, bool)>::empty(),
    {
        let s = Sink {
            task: Task::new(total),
            limit,
            bytes: 0,
            files: 0,
            open: false,
            expected: None,
            current: 0,
            name: String::new(),
            paths: Vec::new(),
        };
        assert(path_view(s.paths@) =~= Seq::<(Seq<Seq<char>>, bool)>::empty());
        s
    }

    /// Starts the next entry. Returns the components of its path, which the
    /// caller creates below the extraction folder: a folder, or a new file
    /// that takes the data. `known` says whether the entry's declared size
    /// binds what is written. Nothing changes when it fails.
    pub fn start(&mut self, entry: &Entry, known: bool, cancelled: bool) -> (r: Result<
        Vec<String>,
        Error,
    >)
        requires
            old(self).wf(),
        ensures
            final(self).wf(),
            cancelled ==> (r matches Err(Error::Cancelled) && *final(self) == *old(self)),
            !cancelled && name_fault(entry.name@) is Some ==> (r matches Err(e) && name_error(
                entry.name@,
                e,
            ) && *final(self) == *old(self)),
            !cancelled && name_fault(entry.name@) is None && old(self).spec_paths().len()
                >= MAX_ENTRIES ==> (r matches Err(Error::TooManyItems)
                && *final(self) == *old(self)),
            !cancelled && name_fault(entry.name@) is None && old(self).spec_paths().len()
                < MAX_ENTRIES ==> {
                &&& r matches Ok(v) && v.deep_view() == components(entry.name@)
                &&& final(self).spec_paths() == old(self).spec_paths().push(
                    (components(entry.name@), entry.directory),
                )
                &&& final(self).spec_files() == old(self).spec_files() + if entry.directory {
                    0int
                } else {
                    1int
                }
                &&& final(self).spec_open() == !entry.directory
                &&& final(self).spec_current() == 0
                &&& final(self).spec_expected() == if known {
                    Some(entry.size)
                } else {
                    None
                }
                &&& final(self).spec_name() == entry.name@
                &&& final(self).spec_bytes() == old(self).spec_bytes()
                &&& final(self).spec_limit() == old(self).spec_limit()
                &&& final(self).spec_task() == old(self).spec_task()
            },
    {
        self.task.check(cancelled)?;
        let relative = match safe_name(entry.name.as_str()) {
            Ok(v) => v,
            Err(e) => {
                return Err(e);
            },
        };
        if self.paths.len() >= MAX_ENTRIES {
            return Err(Error::TooManyItems);
        }
        let ghost before = self.paths@;
        let ghost pv = relative.deep_view();
        let kept = relative.clone();
        proof {
            assert(kept.deep_view() =~= pv);
        }
        self.paths.push((kept, entry.directory));
        proof {
            assert(self.paths@ =~= before.push(self.paths@[before.len() as int]));
            assert(path_view(self.paths@) =~= path_view(before).push((pv, entry.directory)));
        }
        self.name = entry.name.clone();
        self.current = 0;
        self.expected = if known {
            Some(entry.size)
        } else {
            None
        };
        if entry.directory {
            self.open = false;
        } else {
            self.open = true;
            self.files = self.files + 1;
        }
        Ok(relative)
    }

    /// Allows `len` more bytes of data for the current entry, or refuses them:
    /// when the job is cancelled, when a count would overflow, when the bytes
    /// over all entries would pass the limit or the entry would pass its
    /// declared size, or when the entry is a folder. Nothing changes when it
    /// refuses.
    pub fn write(&mut self, len: usize, cancelled: bool) -> (r: Result<(), Error>)
        requires
            old(self).wf(),
        ensures
            final(self).wf(),
            ({
                let c = old(self).spec_current() + len;
                let b = old(self).spec_bytes() + len;
                if cancelled {
                    r matches Err(Error::Cancelled) && *final(self) == *old(self)
                } else if c > u64::MAX || b > u64::MAX {
                    r matches Err(Error::WrittenSizeOverflow) && *final(self) == *old(self)
                } else if b > old(self).spec_limit() || (old(self).spec_expected() matches Some(n)
                    && c > n) {
                    r matches Err(Error::WrittenOverLimit) && *final(self) == *old(self)
                } else if !old(self).spec_open() {
                    r matches Err(Error::DataInFolder) && *final(self) == *old(self)
                } else {
                    &&& r is Ok
                    &&& final(self).spec_current() == c
                    &&& final(self).spec_bytes() == b
                    &&& final(self).same_entries(old(self))
                    &&& final(self).spec_open() == old(self).spec_open()
                    &&& final(self).spec_expected() == old(self).spec_expected()
                    &&& final(self).spec_name() == old(self).spec_name()
                    &&& final(self).spec_task() == old(self).spec_task()
                }
            }),
    {
        self.task.check(cancelled)?;
        let n = len as u64;
        let current = match self.current.checked_add(n) {
            Some(c) => c,
            None => {
                return Err(Error::WrittenSizeOverflow);
            },
        };
        let bytes = match self.bytes.checked_add(n) {
            Some(b) => b,
            None => {
                return Err(Error::WrittenSizeOverflow);
            },
        };
        let over_entry = match self.expected {
            Some(e) => current > e,
            None => false,
        };
        if bytes > self.limit || over_entry {
            return Err(Error::WrittenOverLimit);
        }
        if !self.open {
            return Err(Error::DataInFolder);
        }
        self.current = current;
        self.bytes = bytes;
        Ok(())
    }

    /// Counts `len` written bytes as progress; says whether to report it, as
    /// `Task::advance` does.
    pub fn advance(&mut self, len: u64, since_last_ms: Option<u128>) -> (emit: bool)
        requires
            old(self).wf(),
        ensures
            final(self).wf(),
            final(self).spec_bytes() == old(self).spec_bytes(),
            final(self).spec_current() == old(self).spec_current(),
            final(self).same_entries(old(self)),
            final(self).spec_open() == old(self).spec_open(),
            final(self).spec_expected() == old(self).spec_expected(),
            final(self).spec_name() == old(self).spec_name(),
            final(self).spec_task().spec_total() == old(self).spec_task().spec_total(),
            final(self).spec_task().spec_done() == (if old(self).spec_task().spec_done() + len
                > u64::MAX {
                (old(self).spec_task().spec_done() + len - 0x1_0000_0000_0000_0000) as u64
            } else {
                (old(self).spec_task().spec_done() + len) as u64
            }),
            emit == (since_last_ms matches Some(ms) && (ms >= 100
                || final(self).spec_task().spec_done() == old(self).spec_task().spec_total())),
    {
        self.task.advance(len, since_last_ms)
    }

    /// Closes the current entry. Returns whether a file was open, which the
    /// caller then flushes; refuses a file whose size differs from the size
    /// that binds it.
    pub fn finish_entry(&mut self) -> (r: Result<bool, Error>)
        requires
            old(self).wf(),
        ensures
            final(self).wf(),
            !final(self).spec_open(),
            final(self).same_entries(old(self)),
            final(self).spec_bytes() == old(self).spec_bytes(),
            final(self).spec_task() == old(self).spec_task(),
            old(self).spec_open() && (old(self).spec_expected() matches Some(n)
                && old(self).spec_current() != n) ==> (r matches Err(Error::SizeMismatch)),
            old(self).spec_open() && !(old(self).spec_expected() matches Some(n)
                && old(self).spec_current() != n) ==> r == Ok::<bool, Error>(true),
            !old(self).spec_open() ==> r == Ok::<bool, Error>(false),
    {
        if self.open {
            self.open = false;
            let mismatch = match self.expected {
                Some(n) => self.current != n,
                None => false,
            };
            if mismatch {
                return Err(Error::SizeMismatch);
            }
            Ok(true)
        } else {
            Ok(false)
        }
    }

    /// Refuses to go on once the job is cancelled.
    pub fn check(&self, cancelled: bool) -> (r: Result<(), Error>)
        ensures
            cancelled ==> r matches Err(Error::Cancelled),
            !cancelled ==> r is Ok,
    {
        self.task.check(cancelled)
    }

    /// Checks the paths of all entries together, once every entry is written.
    pub fn finish(&self) -> (r: Result<(), Error>)
        ensures
            validate_result(self.spec_paths(), r),
    {
        validate_paths(self.paths.as_slice())
    }

    pub fn bytes(&self) -> (r: u64)
        ensures
            r == self.spec_bytes(),
    {
        self.bytes
    }

    pub fn files(&self) -> (r: usize)
        ensures
            r == self.spec_files(),
    {
        self.files
    }

    /// The name of the current entry, for progress reports.
    pub fn name(&self) -> (r: &str)
        ensures
            r@ == self.spec_name(),
    {
        self.name.as_str()
    }

    pub fn task(&self) -> (r: &Task)
        ensures
            *r == self.spec_task(),
    {
        &self.task
    }
}

/// The bytes that a decompressed stream may still give: the limit with a
/// margin for TAR headers. A read past it fails the extraction.
pub struct ReadBudget {
    remaining: u64,
}

impl ReadBudget {
    pub closed spec fn spec_remaining(&self) -> u64 {
        self.remaining
    }

    /// The budget for an extraction limited to `limit` bytes: 64 MiB more,
    /// for the TAR headers, saturating at the top of 64 bits.
    pub fn for_limit(limit: u64) -> (b: ReadBudget)
        ensures
            b.spec_remaining() == if limit + 0x400_0000 > u64::MAX {
                u64::MAX as int
            } else {
                limit + 0x400_0000
            },
    {
        ReadBudget { remaining: limit.saturating_add(64 * 1024 * 1024) }
    }

    /// How much of a buffer of `len` bytes the next read may fill: one byte
    /// more than the budget, so that a stream that goes on is noticed.
    pub fn window(&self, len: usize) -> (r: usize)
        ensures
            ({
                let cap = if self.spec_remaining() == u64::MAX {
                    u64::MAX
                } else {
                    (self.spec_remaining() + 1) as u64
                };
                r == if (len as int) < (cap as usize) as int {
                    len
                } else {
                    cap as usize
                }
            }),
    {
        let cap = self.remaining.saturating_add(1) as usize;
        if len < cap {
            len
        } else {
            cap
        }
    }

    /// Takes `n` bytes that a read gave; refuses them when they pass the
    /// budget, and then takes nothing.
    pub fn take(&mut self, n: usize) -> (r: Result<(), Error>)
        ensures
            n > old(self).spec_remaining() ==> (r matches Err(Error::DecodedOverLimit)
                && final(self).spec_remaining() == old(self).spec_remaining()),
            n <= old(self).spec_remaining() ==> (r is Ok && final(self).spec_remaining()
                == old(self).spec_remaining() - n),
    {
        if n as u64 > self.remaining {
            return Err(Error::DecodedOverLimit);
        }
        self.remaining = self.remaining - n as u64;
        Ok(())
    }
}

/// The bytes that a source file being compressed has still to give, as its
/// size said when the sources were listed.
pub struct SourceBudget {
    remaining: u64,
}

impl SourceBudget {
    pub closed spec fn spec_remaining(&self) -> u64 {
        self.remaining
    }

    pub fn new(size: u64) -> (b: SourceBudget)
        ensures
            b.spec_remaining() == size,
    {
        SourceBudget { remaining: size }
    }

    /// Takes the `count` bytes that a read gave. Refuses, taking nothing,
    /// when the file gives more than its size, or ends before it: either way
    /// the file changed while it was compressed.
    pub fn take(&mut self, count: usize) -> (r: Result<(), Error>)
        ensures
            (count > old(self).spec_remaining() || (count == 0 && old(self).spec_remaining() != 0))
                ==> (r matches Err(Error::SourceChanged) && final(self).spec_remaining() == old(
                self,
            ).spec_remaining()),
            !(count > old(self).spec_remaining() || (count == 0 && old(self).spec_remaining()
                != 0)) ==> (r is Ok && final(self).spec_remaining() == old(self).spec_remaining()
                - count),
    {
        if count as u64 > self.remaining || (count == 0 && self.remaining != 0) {
            return Err(Error::SourceChanged);
        }
        self.remaining = self.remaining - count as u64;
        Ok(())
    }
}

/// Refuses a listing once it has more entries than the library handles.
pub fn within_entry_count(count: usize) -> (r: Result<(), Error>)
    ensures
        count > MAX_ENTRIES ==> (r matches Err(Error::TooManyItems)),
        count <= MAX_ENTRIES ==> r is Ok,
{
    if count > MAX_ENTRIES {
        Err(Error::TooManyItems)
    } else {
        Ok(())
    }
}

/// What a 7z archive tells of one entry.
pub struct SevenMeta {
    pub name: String,
    pub size: u64,
    pub compressed_size: u64,
    pub is_directory: bool,
    pub is_anti_item: bool,
    pub windows_attributes: u32,
}

/// The Windows attribute of a reparse point, which is how links show.
pub const ATTRIBUTE_REPARSE_POINT: u32 = 0x400;

/// A 7z entry that is a deletion marker, a reparse point, or has a Unix type
/// other than file or folder in the high half of its attributes.
pub open spec fn seven_special(m: SevenMeta) -> bool {
    m.is_anti_item || m.windows_attributes & ATTRIBUTE_REPARSE_POINT != 0 || !plain_mode(
        Some(m.windows_attributes >> 16u32),
    )
}

/// The entry that a 7z record describes; refuses links and special entries.
/// Whether it is encrypted is decided for the archive as a whole, by the
/// caller.
pub fn seven_entry(file: &SevenMeta) -> (r: Result<Entry, Error>)
    ensures
        seven_special(*file) ==> (r matches Err(Error::SpecialEntry(s)) && s@ == file.name@),
        !seven_special(*file) ==> (r matches Ok(e) && e.name@ == file.name@ && e.size == file.size
            && e.compressed == file.compressed_size && e.directory == file.is_directory
            && !e.encrypted),
{
    let mode = file.windows_attributes >> 16u32 & 0o170000u32;
    if file.is_anti_item || file.windows_attributes & ATTRIBUTE_REPARSE_POINT != 0 || !(mode == 0
        || mode == 0o100000u32 || mode == 0o040000u32) {
        return Err(Error::SpecialEntry(file.name.clone()));
    }
    Ok(
        Entry {
            name: file.name.clone(),
            size: file.size,
            compressed: file.compressed_size,
            directory: file.is_directory,
            encrypted: false,
        },
    )
}

/// The entry that a TAR header describes. `path` is the entry's path as
/// text, `None` when it is not UTF-8; a leading `./` is dropped. Refuses
/// links and other special types.
pub fn tar_entry(is_file: bool, is_dir: bool, path: Option<&str>, size: u64) -> (r: Result<
    Entry,
    Error,
>)
    ensures
        !is_file && !is_dir ==> (r matches Err(Error::TarSpecial)),
        (is_file || is_dir) && path is None ==> (r matches Err(Error::TarNameEncoding)),
        (is_file || is_dir) && path is Some ==> (r matches Ok(e) && {
            let p = path.unwrap()@;
            &&& e.name@ == if starts_with(p, "./"@) {
                p.skip(2)
            } else {
                p
            }
            &&& e.size == size
            &&& e.compressed == 0
            &&& e.directory == is_dir
            &&& !e.encrypted
        }),
{
    if !is_file && !is_dir {
        return Err(Error::TarSpecial);
    }
    let p = match path {
        Some(p) => p,
        None => {
            return Err(Error::TarNameEncoding);
        },
    };
    let chars = chars_of(p);
    let name = if starts_with_str(&chars, "./") {
        proof {
            reveal_strlit("./");
        }
        p.substring_char(2, chars.len()).to_owned()
    } else {
        p.to_owned()
    };
    proof {
        assert(p@.subrange(2, p@.len() as int) =~= p@.skip(2));
    }
    Ok(Entry { name, size, compressed: 0, directory: is_dir, encrypted: false })
}

/// The entry for the TAR root folder itself, which is skipped.
pub fn is_root_folder(entry: &Entry) -> (r: bool)
    ensures
        r == (entry.name@.len() == 0 && entry.directory),
{
    entry.name.unicode_len() == 0 && entry.directory
}

/// A 7z entry is accepted only when it is no deletion marker, no reparse
/// point, and the Unix type in the high half of its attributes is none, a
/// regular file or a folder.
pub proof fn lemma_seven_plain(m: SevenMeta)
    ensures
        !seven_special(m) ==> {
            let t = (m.windows_attributes >> 16u32) & 0o170000;
            &&& !m.is_anti_item
            &&& m.windows_attributes & 0x400 == 0
            &&& (t == 0 || t == 0o100000 || t == 0o040000)
        },
{
    crate::archive::lemma_plain_types(m.windows_attributes >> 16u32);
}

/// The decompressor of a format is chosen by the text after its last dot
/// alone: `gz` gzip, `bz2` bzip2, `xz` xz, `zst` zstd, and `tar` none; so
/// `tar.gz` and `gz` share gzip, and so on.
pub proof fn lemma_codec_by_last_segment(prefix: Seq<char>, seg: Seq<char>)
    requires
        forall|k: int| 0 <= k < seg.len() ==> seg[k] != '.',
    ensures
        codec_of(prefix + seq!['.'] + seg) == codec_of(seg),
        seg == "gz"@ ==> codec_of(seg) == Some(Codec::Gzip),
        seg == "bz2"@ ==> codec_of(seg) == Some(Codec::Bzip2),
        seg == "xz"@ ==> codec_of(seg) == Some(Codec::Xz),
        seg == "zst"@ ==> codec_of(seg) == Some(Codec::Zstd),
        seg == "tar"@ ==> codec_of(seg) == Some(Codec::Plain),
{
    let f = prefix + seq!['.'] + seg;
    let start = prefix.len() + 1;
    lemma_last_segment(f, start as int);
    assert(f.subrange(start as int, f.len() as int) =~= seg);
    lemma_last_segment(seg, 0);
    assert(seg.subrange(0, seg.len() as int) =~= seg);
    reveal_strlit("gz");
    reveal_strlit("bz2");
    reveal_strlit("xz");
    reveal_strlit("zst");
    reveal_strlit("tar");
    if seg.len() == 3 {
        assert(seg[0] == 'b' ==> seg != "zst"@ && seg != "tar"@);
    }
    if seg.len() == 2 {
        assert(seg[0] == 'x' ==> seg != "gz"@);
    }
}

} // verus!
