//! What the application's commands decide before they hand work to the
//! archive code: limits, the files it was opened with, the file types it may
//! register for, and the name it suggests for a new archive.
use crate::create::{output_format, output_format_of, OutputFormat};
use crate::error::Error;
use crate::text::{
    file_name, file_stem, join, parent, path_file_name, path_file_stem, path_join, path_parent,
    str_equal,
};
use vstd::prelude::*;

verus! {

/// One GiB in bytes.
pub const GIB: u64 = 1_073_741_824;

/// The extraction limit when listing, in bytes: the setting in GiB kept
/// between 1 and 2048.
pub fn inspect_limit(limit_gib: u64) -> (r: u64)
    ensures
        r == (if limit_gib < 1 {
            1
        } else if limit_gib > 2048 {
            2048
        } else {
            limit_gib
        }) * GIB,
{
    let gib = if limit_gib < 1 {
        1
    } else if limit_gib > 2048 {
        2048
    } else {
        limit_gib
    };
    gib * GIB
}

/// The extraction limit when extracting, in bytes; refuses a setting outside
/// 1 to 2048 GiB.
pub fn extract_limit(limit_gib: u64) -> (r: Result<u64, Error>)
    ensures
        1 <= limit_gib <= 2048 ==> r == Ok::<u64, Error>((limit_gib * GIB) as u64),
        !(1 <= limit_gib <= 2048) ==> (r matches Err(Error::LimitRange)),
{
    if limit_gib < 1 || limit_gib > 2048 {
        return Err(Error::LimitRange);
    }
    Ok(limit_gib * GIB)
}

/// Files handed to the application, and what to do with them.
#[derive(Debug)]
pub struct OpenRequest {
    pub paths: Vec<String>,
    pub compress: bool,
    pub extract: bool,
}

/// An argument that is a flag rather than a file.
pub open spec fn is_flag(a: Seq<char>) -> bool {
    a == "--compress"@ || a == "--extract"@
}

/// The request that command-line arguments (the program name left out) make:
/// the flags anywhere among them, and the other arguments as files in order.
/// `None` when they name no file.
pub fn open_request(args: &Vec<String>) -> (r: Option<OpenRequest>)
    ensures
        ({
            let files = args.deep_view().filter(|a: Seq<char>| !is_flag(a));
            match r {
                Some(q) => {
                    &&& files.len() > 0
                    &&& q.paths.deep_view() == files
                    &&& q.compress == args.deep_view().contains("--compress"@)
                    &&& q.extract == args.deep_view().contains("--extract"@)
                },
                None => files.len() == 0,
            }
        }),
{
    let ghost pred = |a: Seq<char>| !is_flag(a);
    let ghost av = args.deep_view();
    let mut paths: Vec<String> = Vec::new();
    let mut compress = false;
    let mut extract = false;
    let mut i: usize = 0;
    proof {
        reveal(Seq::filter);
        assert(av.take(0) =~= Seq::<Seq<char>>::empty());
        assert(paths.deep_view() =~= av.take(0).filter(pred));
    }
    while i < args.len()
        invariant
            av == args.deep_view(),
            pred == (|a: Seq<char>| !is_flag(a)),
            i <= args.len(),
            paths.deep_view() == av.take(i as int).filter(pred),
            compress == av.take(i as int).contains("--compress"@),
            extract == av.take(i as int).contains("--extract"@),
        decreases args.len() - i,
    {
        let a = args[i].as_str();
        let c = str_equal(a, "--compress");
        let e = str_equal(a, "--extract");
        let ghost before = paths.deep_view();
        proof {
            reveal(Seq::filter);
            assert(av.take(i + 1).drop_last() =~= av.take(i as int));
            assert(av.take(i + 1) =~= av.take(i as int).push(av[i as int]));
        }
        proof {
            lemma_push_contains(av.take(i as int), av[i as int], "--compress"@);
            lemma_push_contains(av.take(i as int), av[i as int], "--extract"@);
        }
        if c {
            compress = true;
        }
        if e {
            extract = true;
        }
        if !c && !e {
            paths.push(args[i].clone());
            proof {
                assert(paths.deep_view() =~= before.push(av[i as int]));
            }
        }
        i += 1;
    }
    proof {
        assert(av.take(args.len() as int) =~= av);
    }
    if paths.len() == 0 {
        return None;
    }
    Some(OpenRequest { paths, compress, extract })
}

proof fn lemma_push_contains<A>(s: Seq<A>, x: A, y: A)
    ensures
        s.push(x).contains(y) == (s.contains(y) || x == y),
{
    if x == y {
        assert(s.push(x)[s.len() as int] == y);
    }
    if s.contains(y) {
        let k = choose|k: int| 0 <= k < s.len() && s[k] == y;
        assert(s.push(x)[k] == y);
    }
    if s.push(x).contains(y) {
        let k = choose|k: int| 0 <= k < s.push(x).len() && s.push(x)[k] == y;
        if k < s.len() {
            assert(s[k] == y);
        }
    }
}

/// The file types that the application registers for.
pub open spec fn registrable(e: Seq<char>) -> bool {
    ||| e == "zip"@
    ||| e == "zipx"@
    ||| e == "7z"@
    ||| e == "rar"@
    ||| e == "tar"@
    ||| e == "gz"@
    ||| e == "tgz"@
    ||| e == "bz2"@
    ||| e == "tbz2"@
    ||| e == "xz"@
    ||| e == "txz"@
    ||| e == "zst"@
}

/// Whether the application registers for the extension `e`.
pub fn is_registrable(e: &str) -> (r: bool)
    ensures
        r == registrable(e@),
{
    str_equal(e, "zip") || str_equal(e, "zipx") || str_equal(e, "7z") || str_equal(e, "rar")
        || str_equal(e, "tar") || str_equal(e, "gz") || str_equal(e, "tgz") || str_equal(e, "bz2")
        || str_equal(e, "tbz2") || str_equal(e, "xz") || str_equal(e, "txz") || str_equal(e, "zst")
}

/// The extensions that the application registers for are exactly `zip`,
/// `zipx`, `7z`, `rar`, `tar`, `gz`, `tgz`, `bz2`, `tbz2`, `xz`, `txz` and
/// `zst`.
pub proof fn lemma_registered_extensions(e: Seq<char>)
    ensures
        registrable(e) <==> (e == "zip"@ || e == "zipx"@ || e == "7z"@ || e == "rar"@ || e
            == "tar"@ || e == "gz"@ || e == "tgz"@ || e == "bz2"@ || e == "tbz2"@ || e == "xz"@
            || e == "txz"@ || e == "zst"@),
{
}

/// Refuses a request to become the default application for no extension,
/// or for one that it does not handle.
pub fn check_extensions(extensions: &Vec<String>) -> (r: Result<(), Error>)
    ensures
        (extensions.len() > 0 && forall|i: int|
            0 <= i < extensions.len() ==> registrable(#[trigger] extensions@[i]@)) ==> r is Ok,
        !(extensions.len() > 0 && forall|i: int|
            0 <= i < extensions.len() ==> registrable(#[trigger] extensions@[i]@)) ==> (r matches Err(
            Error::NoExtensions,
        )),
{
    if extensions.len() == 0 {
        return Err(Error::NoExtensions);
    }
    let mut i: usize = 0;
    while i < extensions.len()
        invariant
            i <= extensions.len(),
            forall|j: int| 0 <= j < i ==> registrable(#[trigger] extensions@[j]@),
        decreases extensions.len() - i,
    {
        if !is_registrable(extensions[i].as_str()) {
            return Err(Error::NoExtensions);
        }
        i += 1;
    }
    Ok(())
}

/// Refuses a suggestion for an output format that cannot be written, and
/// otherwise names the format.
pub fn check_output_format(format: &str) -> (r: Result<OutputFormat, Error>)
    ensures
        output_format(format@) ==> r == Ok::<OutputFormat, Error>(output_format_of(format@)),
        !output_format(format@) ==> (r matches Err(Error::UnsupportedOutputFormat)),
{
    if str_equal(format, "zip") {
        Ok(OutputFormat::Zip)
    } else if str_equal(format, "7z") {
        Ok(OutputFormat::SevenZip)
    } else if str_equal(format, "tar.gz") {
        Ok(OutputFormat::TarGz)
    } else {
        Err(Error::UnsupportedOutputFormat)
    }
}

/// The name suggested for an archive of the first chosen item, given as an
/// absolute path: next to it, named after the folder, or after the file
/// without its extension, with the format's extension.
pub fn output_beside(first: &str, is_dir: bool, format: &str) -> (r: Result<String, Error>)
    ensures
        ({
            let stem = if is_dir {
                path_file_name(first@)
            } else {
                path_file_stem(first@)
            };
            match stem {
                None => r matches Err(Error::NoFileName),
                Some(s) => match path_parent(first@) {
                    None => r matches Err(Error::NoParent),
                    Some(p) => r matches Ok(o) && o@ == path_join(p, s + seq!['.'] + format@),
                },
            }
        }),
{
    let stem = if is_dir {
        file_name(first)
    } else {
        file_stem(first)
    };
    let mut name = match stem {
        Some(s) => s,
        None => {
            return Err(Error::NoFileName);
        },
    };
    let up = match parent(first) {
        Some(p) => p,
        None => {
            return Err(Error::NoParent);
        },
    };
    let dot = ".";
    proof {
        reveal_strlit(".");
    }
    let ghost s0 = name@;
    name.append(dot);
    name.append(format);
    assert(name@ =~= s0 + seq!['.'] + format@);
    Ok(join(up.as_str(), name.as_str()))
}

} // verus!
