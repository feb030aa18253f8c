//! The checks of a request to compress: the output name and options, each
//! source, and each file and folder found below the sources.
use crate::archive::MAX_ENTRIES;
use crate::error::Error;
use crate::names::{
    components, lemma_normalize_idempotent, name_error, name_fault, normalize, safe_name,
};
use crate::paths::{path_view, validate_paths, validate_result};
use crate::text::{
    chars_of, ends_with, ends_with_str, parent, path_parent, path_starts_with, starts_with_path,
    str_equal, str_lower, to_lower,
};
use vstd::prelude::*;

verus! {

/// The output formats that can be written.
pub open spec fn output_format(format: Seq<char>) -> bool {
    format == "zip"@ || format == "7z"@ || format == "tar.gz"@
}

/// The compression levels offered: stored, fast, normal and best.
pub open spec fn offered_level(level: i64) -> bool {
    level == 0 || level == 1 || level == 6 || level == 9
}

/// The formats that compression writes.
#[derive(Debug, PartialEq, Eq, Structural, Clone, Copy)]
pub enum OutputFormat {
    Zip,
    SevenZip,
    TarGz,
}

/// The output format that a format name stands for.
pub open spec fn output_format_of(format: Seq<char>) -> OutputFormat {
    if format == "zip"@ {
        OutputFormat::Zip
    } else if format == "7z"@ {
        OutputFormat::SevenZip
    } else {
        OutputFormat::TarGz
    }
}

/// What `check_request` returns.
pub open spec fn request_result(
    output: Seq<char>,
    format: Seq<char>,
    sources: usize,
    level: i64,
    r: Result<OutputFormat, Error>,
) -> bool {
    lowered_request_result(str_lower(output), format, sources, level, r)
}

/// What `check_lowered_request` returns for the output name in lower case.
pub open spec fn lowered_request_result(
    lower: Seq<char>,
    format: Seq<char>,
    sources: usize,
    level: i64,
    r: Result<OutputFormat, Error>,
) -> bool {
    if !ends_with(lower, seq!['.'] + format) {
        r matches Err(Error::WrongExtension(f)) && f@ == format
    } else if !output_format(format) {
        r matches Err(Error::UnsupportedOutputFormat)
    } else if sources == 0 {
        r matches Err(Error::NoSources)
    } else if !offered_level(level) {
        r matches Err(Error::UnsupportedLevel)
    } else {
        r == Ok::<OutputFormat, Error>(output_format_of(format))
    }
}

/// Checks a request to compress `sources` many sources into `output` in
/// `format` at `level`: the output name must end in the format's extension,
/// in any case, and the format and level must be offered. Returns the
/// format to write.
pub fn check_request(output: &str, format: &str, sources: usize, level: i64) -> (r: Result<
    OutputFormat,
    Error,
>)
    ensures
        request_result(output@, format@, sources, level, r),
{
    let lower = to_lower(output);
    check_lowered_request(lower.as_str(), format, sources, level)
}

/// Checks a request as `check_request` does, given the output name in lower
/// case.
pub fn check_lowered_request(lower: &str, format: &str, sources: usize, level: i64) -> (r: Result<
    OutputFormat,
    Error,
>)
    ensures
        lowered_request_result(lower@, format@, sources, level, r),
{
    let mut want = String::from_str(".");
    proof {
        reveal_strlit(".");
    }
    want.append(format);
    assert(want@ =~= seq!['.'] + format@);
    let chars = chars_of(lower);
    if !ends_with_str(&chars, want.as_str()) {
        return Err(Error::WrongExtension(format.to_owned()));
    }
    let chosen = if str_equal(format, "zip") {
        OutputFormat::Zip
    } else if str_equal(format, "7z") {
        OutputFormat::SevenZip
    } else if str_equal(format, "tar.gz") {
        OutputFormat::TarGz
    } else {
        return Err(Error::UnsupportedOutputFormat);
    };
    if sources == 0 {
        return Err(Error::NoSources);
    }
    if !(level == 0 || level == 1 || level == 6 || level == 9) {
        return Err(Error::UnsupportedLevel);
    }
    Ok(chosen)
}

/// Checks one source: it must not be a symbolic link, and once made
/// absolute (as `output` is) the output must not lie inside it, nor may it be
/// the root of the file system.
pub fn check_source(is_symlink: bool, output: &str, source: &str) -> (r: Result<(), Error>)
    ensures
        is_symlink ==> (r matches Err(Error::SymlinkSource)),
        !is_symlink && path_starts_with(output@, source@) ==> (r matches Err(
            Error::OutputInsideSource,
        )),
        !is_symlink && !path_starts_with(output@, source@) && path_parent(source@) is None ==> (r matches Err(
            Error::RootSource,
        )),
        !is_symlink && !path_starts_with(output@, source@) && path_parent(source@) is Some ==> r is Ok,
{
    if is_symlink {
        return Err(Error::SymlinkSource);
    }
    if starts_with_path(output, source) {
        return Err(Error::OutputInsideSource);
    }
    if parent(source).is_none() {
        return Err(Error::RootSource);
    }
    Ok(())
}

/// The name with every `\` written as `/`.
pub fn slashes(name: &str) -> (r: String)
    ensures
        r@ == normalize(name@),
{
    let chars = chars_of(name);
    let mut r = String::new();
    let mut i: usize = 0;
    proof {
        assert(normalize(name@).take(0) =~= r@);
    }
    while i < chars.len()
        invariant
            chars@ == name@,
            i <= chars.len(),
            r@ == normalize(name@).take(i as int),
        decreases chars.len() - i,
    {
        if chars[i] == '\\' {
            let sep = "/";
            proof {
                reveal_strlit("/");
            }
            r.append(sep);
        } else {
            let one = name.substring_char(i, i + 1);
            r.append(one);
        }
        proof {
            assert(r@ =~= normalize(name@).take(i + 1));
        }
        i += 1;
    }
    proof {
        assert(normalize(name@).take(chars.len() as int) =~= normalize(name@));
    }
    r
}

/// The files and folders found below the sources so far.
pub struct Collection {
    total: u64,
    paths: Vec<(Vec<String>, bool)>,
}

impl Collection {
    pub closed spec fn spec_total(&self) -> u64 {
        self.total
    }

    pub closed spec fn spec_paths(&self) -> Seq<(Seq<Seq<char>>, bool)> {
        path_view(self.paths@)
    }

    pub fn new() -> (c: Collection)
        ensures
            c.spec_total() == 0,
            c.spec_paths().len() == 0,
    {
        let c = Collection { total: 0, paths: Vec::new() };
        assert(path_view(c.paths@) =~= Seq::<(Seq<Seq<char>>, bool)>::empty());
        c
    }

    /// Takes the next item found below a source and returns its name in the
    /// archive. Refuses it when the job is cancelled, when it is neither a
    /// file nor a folder (`shown` names it then), when its path relative to
    /// the source's parent (`relative`) is not UTF-8 or not a safe entry name,
    /// when the total size overflows, or when there are more items than the
    /// library handles. Folders count as 0 bytes.
    pub fn add(
        &mut self,
        cancelled: bool,
        is_file: bool,
        is_dir: bool,
        shown: &str,
        relative: Option<&str>,
        size: u64,
    ) -> (r: Result<String, Error>)
        ensures
            ({
                let n = normalize(relative.unwrap()@);
                let s = if is_file {
                    size as int
                } else {
                    0
                };
                if cancelled {
                    r matches Err(Error::CancelledScan) && *final(self) == *old(self)
                } else if !is_file && !is_dir {
                    r matches Err(Error::SpecialSource(p)) && p@ == shown@ && *final(self) == *old(self)
                } else if relative is None {
                    r matches Err(Error::NameEncoding) && *final(self) == *old(self)
                } else if name_fault(n) is Some {
                    r matches Err(e) && name_error(n, e) && *final(self) == *old(self)
                } else if old(self).spec_total() + s > u64::MAX {
                    r matches Err(Error::SizeOverflow) && *final(self) == *old(self)
                } else {
                    &&& final(self).spec_total() == old(self).spec_total() + s
                    &&& final(self).spec_paths() == old(self).spec_paths().push(
                        (components(n), !is_file),
                    )
                    &&& if final(self).spec_paths().len() > MAX_ENTRIES {
                        r matches Err(Error::TooManyEntries)
                    } else {
                        r matches Ok(name) && name@ == n
                    }
                }
            }),
    {
        if cancelled {
            return Err(Error::CancelledScan);
        }
        if !is_file && !is_dir {
            return Err(Error::SpecialSource(shown.to_owned()));
        }
        let relative = match relative {
            Some(r) => r,
            None => {
                return Err(Error::NameEncoding);
            },
        };
        let name = slashes(relative);
        let parts = safe_name(name.as_str())?;
        let size = if is_file {
            size
        } else {
            0
        };
        let total = match self.total.checked_add(size) {
            Some(t) => t,
            None => {
                return Err(Error::SizeOverflow);
            },
        };
        let ghost before = self.paths@;
        let ghost pv = parts.deep_view();
        self.paths.push((parts, !is_file));
        self.total = total;
        proof {
            assert(self.paths@ =~= before.push(self.paths@[before.len() as int]));
            assert(path_view(self.paths@) =~= path_view(before).push((pv, !is_file)));
        }
        if self.paths.len() > MAX_ENTRIES {
            return Err(Error::TooManyEntries);
        }
        Ok(name)
    }

    /// Checks the paths of all items together.
    pub fn finish(&self) -> (r: Result<(), Error>)
        ensures
            validate_result(self.spec_paths(), r),
    {
        validate_paths(self.paths.as_slice())
    }

    /// The total size of the files.
    pub fn total(&self) -> (r: u64)
        ensures
            r == self.spec_total(),
    {
        self.total
    }
}

/// How a ZIP entry is written at a level: stored at level 0, otherwise
/// deflated at that level; and whether a file of `size` bytes needs ZIP64.
pub fn zip_method(level: i64) -> (r: Option<i64>)
    ensures
        level == 0 ==> r is None,
        level != 0 ==> r == Some(level),
{
    if level == 0 {
        None
    } else {
        Some(level)
    }
}

/// A file of `size` bytes needs the ZIP64 extension.
pub fn needs_zip64(size: u64) -> (r: bool)
    ensures
        r == (size >= u32::MAX),
{
    size >= u32::MAX as u64
}

/// The name that compression stores for a file (its relative path with `\`
/// written as `/`) is judged on extraction as the relative path itself was
/// judged when the archive was written: accepted or refused for the same
/// reason, and read back as the same components.
pub proof fn lemma_stored_name_reads_back(relative: Seq<char>)
    ensures
        name_fault(normalize(relative)) == name_fault(relative),
        components(normalize(relative)) == components(relative),
{
    lemma_normalize_idempotent(relative);
}

/// A request is accepted exactly when the lower-cased output name ends in
/// `.` and the format, the format is `zip`, `7z` or `tar.gz`, there is a
/// source, and the level is 0, 1, 6 or 9: any other level is refused.
pub proof fn lemma_accepted_requests(
    lower: Seq<char>,
    format: Seq<char>,
    sources: usize,
    level: i64,
    r: Result<OutputFormat, Error>,
)
    requires
        lowered_request_result(lower, format, sources, level, r),
    ensures
        r is Ok <==> {
            &&& ends_with(lower, seq!['.'] + format)
            &&& (format == "zip"@ || format == "7z"@ || format == "tar.gz"@)
            &&& sources > 0
            &&& (level == 0 || level == 1 || level == 6 || level == 9)
        },
        !(level == 0 || level == 1 || level == 6 || level == 9) ==> r is Err,
{
}

/// The same, for a request given with the output name as it stands.
pub proof fn lemma_accepted_levels(
    output: Seq<char>,
    format: Seq<char>,
    sources: usize,
    level: i64,
    r: Result<OutputFormat, Error>,
)
    requires
        request_result(output, format, sources, level, r),
    ensures
        r is Ok ==> (level == 0 || level == 1 || level == 6 || level == 9),
        r is Ok ==> (format == "zip"@ || format == "7z"@ || format == "tar.gz"@) && sources > 0,
{
    lemma_accepted_requests(str_lower(output), format, sources, level, r);
}

} // verus!
