use dalzip::commands::{
    check_extensions, check_output_format, extract_limit, inspect_limit, open_request,
    output_beside,
};
use dalzip::create::{OutputFormat, check_request, check_source, needs_zip64, slashes, zip_method, Collection};
use dalzip::error::Error;
use dalzip::jobs::{begin, Jobs};
use dalzip::updater::{check_pending, AvailableUpdate};
use dalzip::verification::{before_trash, compare, Digester, Manifest};
use dalzip::zip_reader::{clone_position, seek_target, SeekFrom};

#[test]
fn one_job_at_a_time() {
    let mut jobs = Jobs::new();
    assert_eq!(begin(&mut jobs), Ok(()));
    assert!(jobs.is_busy());
    jobs.cancel_job();
    assert!(jobs.is_cancelled());
    assert_eq!(begin(&mut jobs), Err(Error::Busy));
    assert!(jobs.is_cancelled());
    jobs.finish();
    assert!(!jobs.is_busy());
    assert_eq!(begin(&mut jobs), Ok(()));
    assert!(!jobs.is_cancelled());
}

#[test]
fn seek_positions() {
    assert_eq!(seek_target(5, 100, SeekFrom::Start(7)), Ok(7));
    assert_eq!(seek_target(5, 100, SeekFrom::Current(-5)), Ok(0));
    assert_eq!(seek_target(5, 100, SeekFrom::Current(-6)), Err(Error::BadSeek));
    assert_eq!(seek_target(5, 100, SeekFrom::End(-22)), Ok(78));
    assert_eq!(seek_target(5, 100, SeekFrom::End(-101)), Err(Error::BadSeek));
    assert_eq!(seek_target(u64::MAX, 0, SeekFrom::Current(1)), Err(Error::BadSeek));
    assert_eq!(clone_position(100, 30), 70);
}

#[test]
fn compression_requests() {
    assert_eq!(check_request("/x/out.ZIP", "zip", 1, 6), Ok(OutputFormat::Zip));
    assert_eq!(check_request("/x/out.tar.gz", "tar.gz", 2, 0), Ok(OutputFormat::TarGz));
    assert_eq!(check_request("/x/out.7z", "7z", 2, 9), Ok(OutputFormat::SevenZip));
    assert_eq!(check_request("/x/out.zip", "7z", 1, 1), Err(Error::WrongExtension("7z".into())));
    assert_eq!(check_request("/x/out.rar", "rar", 1, 1), Err(Error::UnsupportedOutputFormat));
    assert_eq!(check_request("/x/out.7z", "7z", 0, 1), Err(Error::NoSources));
    assert_eq!(check_request("/x/out.7z", "7z", 1, 5), Err(Error::UnsupportedLevel));
    assert_eq!(check_source(false, "/a/src/out.zip", "/a/src"), Err(Error::OutputInsideSource));
    assert_eq!(check_source(false, "/a/srcout.zip", "/a/src"), Ok(()));
    assert_eq!(check_source(false, "x.zip", "/"), Err(Error::RootSource));
    assert_eq!(check_source(true, "x.zip", "/a"), Err(Error::SymlinkSource));
    assert_eq!(slashes("a\\b/c\\"), "a/b/c/");
    assert_eq!(zip_method(0), None);
    assert_eq!(zip_method(9), Some(9));
    assert!(needs_zip64(u32::MAX as u64));
    assert!(!needs_zip64(u32::MAX as u64 - 1));
}

#[test]
fn collection_names_and_checks_items() {
    let mut c = Collection::new();
    assert_eq!(c.add(false, false, true, "/s/원본", Some("원본"), 4096), Ok("원본".to_string()));
    assert_eq!(c.add(false, true, false, "/s/원본/a", Some("원본\\a.txt"), 10), Ok("원본/a.txt".to_string()));
    assert_eq!(c.total(), 10);
    assert_eq!(c.add(false, false, false, "/s/원본/l", Some("원본/l"), 0), Err(Error::SpecialSource("/s/원본/l".into())));
    assert_eq!(c.add(false, true, false, "/s/x", None, 1), Err(Error::NameEncoding));
    assert_eq!(c.add(true, true, false, "/s/x", Some("x"), 1), Err(Error::CancelledScan));
    assert_eq!(c.add(false, true, false, "/s/nul", Some("nul"), 1), Err(Error::ReservedName("nul".into())));
    assert_eq!(c.add(false, true, false, "/s/big", Some("big"), u64::MAX), Err(Error::SizeOverflow));
    assert_eq!(c.finish(), Ok(()));
    assert_eq!(c.add(false, true, false, "/s/A", Some("원본/A.TXT"), 1), Ok("원본/A.TXT".to_string()));
    assert_eq!(c.finish(), Err(Error::DuplicateName(vec!["원본".to_string(), "A.TXT".to_string()])));
}

#[test]
fn command_limits_and_requests() {
    assert_eq!(inspect_limit(0), 1 << 30);
    assert_eq!(inspect_limit(20), 20 << 30);
    assert_eq!(inspect_limit(5000), 2048 << 30);
    assert_eq!(extract_limit(1), Ok(1 << 30));
    assert_eq!(extract_limit(2048), Ok(2048 << 30));
    assert_eq!(extract_limit(0), Err(Error::LimitRange));
    assert_eq!(extract_limit(2049), Err(Error::LimitRange));
    let args: Vec<String> = ["a.zip", "--extract", "b.7z"].iter().map(|s| s.to_string()).collect();
    let q = open_request(&args).unwrap();
    assert_eq!(q.paths, vec!["a.zip".to_string(), "b.7z".to_string()]);
    assert!(q.extract && !q.compress);
    assert!(open_request(&vec!["--compress".to_string()]).is_none());
    assert!(open_request(&vec![]).is_none());
    assert_eq!(check_extensions(&vec!["zip".into(), "tbz2".into()]), Ok(()));
    assert_eq!(check_extensions(&vec![]), Err(Error::NoExtensions));
    assert_eq!(check_extensions(&vec!["zip".into(), "exe".into()]), Err(Error::NoExtensions));
    assert_eq!(check_output_format("tar.gz"), Ok(OutputFormat::TarGz));
    assert_eq!(check_output_format("7z"), Ok(OutputFormat::SevenZip));
    assert_eq!(check_output_format("zip"), Ok(OutputFormat::Zip));
    assert_eq!(check_output_format("rar"), Err(Error::UnsupportedOutputFormat));
    assert_eq!(output_beside("/home/u/photos", true, "zip"), Ok("/home/u/photos.zip".to_string()));
    assert_eq!(output_beside("/home/u/a.tar.txt", false, "7z"), Ok("/home/u/a.tar.7z".to_string()));
    assert_eq!(output_beside("/", true, "zip"), Err(Error::NoFileName));
}

fn digest(data: &[&[u8]]) -> Digester {
    let mut d = Digester::new();
    for chunk in data {
        d.update(chunk);
    }
    d
}

fn hex(bytes: &[u8]) -> String {
    bytes.iter().map(|b| format!("{b:02x}")).collect()
}

#[test]
fn digests_are_blake3_of_all_pieces() {
    assert_eq!(
        hex(&digest(&[]).finish()),
        "af1349b9f5f9a1a6a0404dea36dcc9499bcb25c9adc112b7cc9a93cae41f3262"
    );
    let whole = digest(&[b"abc"]).finish();
    assert_eq!(hex(&whole), "6437b3ac38465133ffb63b75273a8db548c558465d79db03fd359c6cd5bd9d85");
    assert_eq!(digest(&[b"a", b"", b"bc"]).finish(), whole);
    assert_eq!(whole.len(), 32);
    assert_ne!(digest(&[b"original"]).finish(), digest(&[b"modified"]).finish());
}

#[test]
fn changed_source_is_never_eligible_for_trash_by_manifest() {
    let mut saved = Manifest::new();
    saved.add(b"source.txt", true, false, &digest(&[b"original"])).unwrap();
    let mut current = Manifest::new();
    current.add(b"source.txt", true, false, &digest(&[b"orig", b"inal"])).unwrap();
    assert_eq!(compare(&saved, &current), Ok(()));
    let mut changed = Manifest::new();
    changed.add(b"source.txt", true, false, &digest(&[b"modified"])).unwrap();
    assert_eq!(compare(&saved, &changed), Err(Error::ContentMismatch));
}

#[test]
fn manifests_compare_as_path_to_digest_maps() {
    let mut saved = Manifest::new();
    assert_eq!(saved.add(b"", false, true, &Digester::new()), Ok(()));
    assert_eq!(saved.add(b"dir", false, true, &Digester::new()), Ok(()));
    assert_eq!(saved.add(b"dir/a", true, false, &digest(&[b"x"])), Ok(()));
    assert_eq!(saved.add(b"dir/a", true, false, &digest(&[b"y"])), Err(Error::DuplicateSource));
    assert_eq!(saved.add(b"dir/l", false, false, &Digester::new()), Err(Error::SpecialInSource));
    let mut current = Manifest::new();
    current.add(b"dir/a", true, false, &digest(&[b"x"])).unwrap();
    current.add(b"dir", false, true, &Digester::new()).unwrap();
    assert_eq!(compare(&saved, &current), Ok(()));
    let mut changed = Manifest::new();
    changed.add(b"dir/a", true, false, &digest(&[b"z"])).unwrap();
    changed.add(b"dir", false, true, &Digester::new()).unwrap();
    assert_eq!(compare(&saved, &changed), Err(Error::ContentMismatch));
    let mut more = Manifest::new();
    more.add(b"dir/a", true, false, &digest(&[b"x"])).unwrap();
    assert_eq!(compare(&saved, &more), Err(Error::ContentMismatch));
    let mut raw = Manifest::new();
    assert_eq!(raw.add(&[0xff, 0x2f], true, false, &digest(&[b"1"])), Ok(()));
    assert_eq!(raw.add(&[0xfe, 0x2f], true, false, &digest(&[b"1"])), Ok(()));
    assert_eq!(before_trash(true, &[]), Err(Error::TrashCancelled));
    assert_eq!(before_trash(false, &[false, true]), Err(Error::SourceMoved));
    assert_eq!(before_trash(false, &[false]), Ok(()));
}

#[test]
fn updates_are_reported_and_matched() {
    let u = AvailableUpdate::new("0.1.2".into(), None);
    assert_eq!((u.version(), u.notes()), ("0.1.2", ""));
    let u = AvailableUpdate::new("0.1.2".into(), Some("fixes".into()));
    assert_eq!(u.notes(), "fixes");
    assert_eq!(check_pending(Some("0.1.2"), "0.1.2"), Ok(()));
    assert_eq!(check_pending(Some("0.1.3"), "0.1.2"), Err(Error::UpdateStale));
    assert_eq!(check_pending(None, "0.1.2"), Err(Error::UpdateStale));
}

#[test]
fn lowered_requests_are_checked_as_given() {
    assert_eq!(dalzip::create::check_lowered_request("/x/out.zip", "zip", 1, 6), Ok(OutputFormat::Zip));
    assert_eq!(
        dalzip::create::check_lowered_request("/x/out.ZIP", "zip", 1, 6),
        Err(Error::WrongExtension("zip".into()))
    );
}
