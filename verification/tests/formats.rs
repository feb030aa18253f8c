use dalzip::archive::Entry;
use dalzip::error::Error;
use dalzip::formats::{
    check_entries, codec, handler, is_root_folder, kind, seven_entry, stream_entry, tar_entry,
    within_entry_count, Codec, Handler, ReadBudget, SevenMeta, Sink, SourceBudget,
};

fn entry(name: &str, size: u64, directory: bool) -> Entry {
    Entry { name: name.into(), size, compressed: 0, directory, encrypted: false }
}

#[test]
fn kind_reads_double_suffixes_and_extensions() {
    assert_eq!(kind("/tmp/data.tar.gz"), "tar.gz");
    assert_eq!(kind("/tmp/DATA.TGZ"), "tar.gz");
    assert_eq!(kind("a.tar.bz2"), "tar.bz2");
    assert_eq!(kind("a.TBZ2"), "tar.bz2");
    assert_eq!(kind("a.tar.xz"), "tar.xz");
    assert_eq!(kind("a.txz"), "tar.xz");
    assert_eq!(kind("a.tar.zst"), "tar.zst");
    assert_eq!(kind("/x/Archive.ZIP"), "zip");
    assert_eq!(kind("a.7z"), "7z");
    assert_eq!(kind("data.bin.gz"), "gz");
    assert_eq!(kind("noext"), "");
    assert_eq!(kind(".hidden"), "");
}

#[test]
fn handler_and_codec_follow_the_format() {
    assert_eq!(handler("zip"), Handler::Zip);
    assert_eq!(handler("zipx"), Handler::Zip);
    assert_eq!(handler("7z"), Handler::SevenZip);
    assert_eq!(handler("rar"), Handler::Rar);
    assert_eq!(handler("tar"), Handler::Tar);
    assert_eq!(handler("tar.zst"), Handler::Tar);
    assert_eq!(handler("zst"), Handler::Stream);
    assert_eq!(handler("bz2"), Handler::Stream);
    assert_eq!(handler("doc"), Handler::Unsupported);
    assert_eq!(codec("tar.gz"), Ok(Codec::Gzip));
    assert_eq!(codec("gz"), Ok(Codec::Gzip));
    assert_eq!(codec("tar.bz2"), Ok(Codec::Bzip2));
    assert_eq!(codec("xz"), Ok(Codec::Xz));
    assert_eq!(codec("tar.zst"), Ok(Codec::Zstd));
    assert_eq!(codec("tar"), Ok(Codec::Plain));
    assert_eq!(codec("rar"), Err(Error::UnsupportedCompression));
}

#[test]
fn check_entries_totals_and_refuses() {
    let ok = vec![entry("dir", 0, true), entry("dir/a", 10, false), entry("dir/b", 20, false)];
    assert_eq!(check_entries(&ok, 30), Ok(30));
    assert_eq!(check_entries(&ok, 29), Err(Error::LimitExceeded));
    let overflow = vec![entry("a", u64::MAX, false), entry("b", 1, false)];
    assert_eq!(check_entries(&overflow, u64::MAX), Err(Error::SizeOverflow));
    let bad = vec![entry("a", 1, false), entry("../b", 1, false)];
    assert_eq!(check_entries(&bad, 100), Err(Error::UnsafePath("../b".into())));
    let dup = vec![entry("A.txt", 1, false), entry("a.txt", 1, false)];
    assert_eq!(check_entries(&dup, 100), Err(Error::DuplicateName(vec!["a.txt".to_string()])));
    let many: Vec<Entry> = (0..100_001).map(|i| entry(&format!("f{i}"), 0, false)).collect();
    assert_eq!(check_entries(&many, 100), Err(Error::TooManyEntries));
    assert_eq!(within_entry_count(100_000), Ok(()));
    assert_eq!(within_entry_count(100_001), Err(Error::TooManyItems));
}

#[test]
fn stream_entry_is_named_after_the_stem() {
    let e = stream_entry("/tmp/data.bin.gz", 77);
    assert_eq!(e.name, "data.bin");
    assert_eq!((e.size, e.compressed, e.directory, e.encrypted), (0, 77, false, false));
    assert_eq!(stream_entry("/", 1).name, "file");
}

#[test]
fn seven_and_tar_entries_refuse_links() {
    let meta = |attrs: u32, anti: bool| SevenMeta {
        name: "x".into(),
        size: 5,
        compressed_size: 3,
        is_directory: false,
        is_anti_item: anti,
        windows_attributes: attrs,
    };
    let e = seven_entry(&meta(0o100644 << 16, false)).unwrap();
    assert_eq!((e.size, e.compressed, e.encrypted), (5, 3, false));
    assert!(seven_entry(&meta(0, false)).is_ok());
    assert!(matches!(seven_entry(&meta(0o120777 << 16, false)), Err(Error::SpecialEntry(n)) if n == "x"));
    assert!(seven_entry(&meta(0x400, false)).is_err());
    assert!(seven_entry(&meta(0, true)).is_err());

    let t = tar_entry(true, false, Some("./dir/a.txt"), 9).unwrap();
    assert_eq!(t.name, "dir/a.txt");
    assert_eq!((t.size, t.directory), (9, false));
    assert_eq!(tar_entry(false, true, Some("./"), 0).unwrap().name, "");
    assert!(is_root_folder(&tar_entry(false, true, Some("./"), 0).unwrap()));
    assert!(!is_root_folder(&t));
    assert!(matches!(tar_entry(false, false, Some("link"), 0), Err(Error::TarSpecial)));
    assert!(matches!(tar_entry(true, false, None, 0), Err(Error::TarNameEncoding)));
}

#[test]
fn sink_keeps_to_the_limit_and_declared_sizes() {
    let mut sink = Sink::new(15, 15);
    assert_eq!(sink.start(&entry("d", 0, true), true, false).unwrap(), vec!["d".to_string()]);
    assert_eq!(sink.write(1, false), Err(Error::WrittenOverLimit));
    assert_eq!(sink.write(0, false), Err(Error::DataInFolder));
    assert_eq!(sink.finish_entry(), Ok(false));
    assert_eq!(sink.start(&entry("d/a", 10, false), true, false).unwrap(), vec!["d".to_string(), "a".to_string()]);
    assert_eq!(sink.write(6, false), Ok(()));
    assert_eq!(sink.write(5, false), Err(Error::WrittenOverLimit));
    assert_eq!(sink.write(4, false), Ok(()));
    assert!(sink.advance(4, Some(0)) == false);
    assert_eq!(sink.finish_entry(), Ok(true));
    assert_eq!(sink.start(&entry("d/b", 3, false), true, false).unwrap().len(), 2);
    assert_eq!(sink.write(2, false), Ok(()));
    assert_eq!(sink.finish_entry(), Err(Error::SizeMismatch));
    assert_eq!(sink.bytes(), 12);
    assert_eq!(sink.files(), 2);
    assert_eq!(sink.finish(), Ok(()));
    assert!(matches!(sink.start(&entry("../x", 1, false), true, false), Err(Error::UnsafePath(_))));
    assert!(matches!(sink.start(&entry("e", 1, false), true, true), Err(Error::Cancelled)));
    assert_eq!(sink.check(true), Err(Error::Cancelled));
    assert_eq!(sink.check(false), Ok(()));
}

#[test]
fn sink_without_known_size_stops_at_the_limit() {
    let mut sink = Sink::new(0, 4);
    sink.start(&entry("s", 0, false), false, false).unwrap();
    assert_eq!(sink.write(4, false), Ok(()));
    assert_eq!(sink.write(1, false), Err(Error::WrittenOverLimit));
    assert_eq!(sink.finish_entry(), Ok(true));
    assert!(sink.advance(4, Some(150)));
    assert!(!sink.advance(0, None));
    sink.start(&entry("S", 0, false), false, false).unwrap();
    assert_eq!(sink.finish(), Err(Error::DuplicateName(vec!["S".to_string()])));
}

#[test]
fn budgets_catch_streams_that_run_over_or_short() {
    let mut b = ReadBudget::for_limit(10);
    assert_eq!(b.window(usize::MAX), 10 + 64 * 1024 * 1024 + 1);
    assert_eq!(b.window(8), 8);
    assert_eq!(b.take(64 * 1024 * 1024 + 10), Ok(()));
    assert_eq!(b.window(8), 1);
    assert_eq!(b.take(1), Err(Error::DecodedOverLimit));
    assert_eq!(ReadBudget::for_limit(u64::MAX).window(5), 5);

    let mut s = SourceBudget::new(5);
    assert_eq!(s.take(3), Ok(()));
    assert_eq!(s.take(3), Err(Error::SourceChanged));
    assert_eq!(s.take(0), Err(Error::SourceChanged));
    assert_eq!(s.take(2), Ok(()));
    assert_eq!(s.take(0), Ok(()));
}

#[test]
fn kind_from_lowered_names() {
    assert_eq!(dalzip::formats::kind_from("/a/b.tgz", "tgz"), "tar.gz");
    assert_eq!(dalzip::formats::kind_from("/a/b.tar.zst", "zst"), "tar.zst");
    assert_eq!(dalzip::formats::kind_from("/a/b.zip", "zip"), "zip");
    assert_eq!(dalzip::formats::kind_from("/a/b", ""), "");
}
