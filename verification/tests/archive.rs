use dalzip::archive::{staging_prefix, Counted, Entry, Listing, Task, ZipMeta, ZipScan};
use dalzip::error::Error;

fn meta(name: &str, size: u64, directory: bool, symlink: bool, unix_mode: Option<u32>) -> ZipMeta {
    ZipMeta { name: name.into(), size, directory, symlink, unix_mode }
}

#[test]
fn listing_totals_the_zip_directory() {
    assert!(matches!(Listing::new(100_001), Err(Error::ZipTooManyListed)));
    let mut l = Listing::new(2).unwrap();
    let e = |n: &str, s: u64| Entry { name: n.into(), size: s, compressed: 1, directory: false, encrypted: true };
    assert_eq!(l.push(e("a", 5)), Ok(()));
    assert_eq!(l.push(e("b", u64::MAX)), Err(Error::SizeOverflow));
    assert_eq!(l.push(e("c", 7)), Ok(()));
    let info = l.finish("/x/a.zip".into(), 99);
    assert_eq!(info.format, "ZIP");
    assert!(info.size_known);
    assert_eq!((info.total_size, info.archive_size, info.entries.len()), (12, 99, 2));
    assert!(info.entries[0].encrypted);
}

#[test]
fn zip_scan_refuses_links_bombs_and_traversal() {
    assert!(matches!(ZipScan::new(100_001, 10), Err(Error::ZipTooManyToExtract)));
    let mut z = ZipScan::new(3, 100).unwrap();
    assert_eq!(z.add(&meta("dir/", 0, true, false, Some(0o040755)), false), Ok(()));
    assert_eq!(z.add(&meta("dir/a", 60, false, false, None), false), Ok(()));
    assert_eq!(z.add(&meta("link", 0, false, true, None), false), Err(Error::ZipSpecial("link".into())));
    assert_eq!(z.add(&meta("fifo", 0, false, false, Some(0o010644)), false), Err(Error::ZipSpecial("fifo".into())));
    assert_eq!(z.add(&meta("dir/b", 41, false, false, Some(0o100644)), false), Err(Error::DeclaredOverLimit));
    assert_eq!(z.add(&meta("../c", 1, false, false, None), false), Err(Error::UnsafePath("../c".into())));
    assert_eq!(z.add(&meta("c", 1, false, false, None), true), Err(Error::CancelledScan));
    assert_eq!(z.add(&meta("dir/b", 40, false, false, Some(0o100644)), false), Ok(()));
    assert_eq!(z.total(), 100);
    assert_eq!(z.sizes(), &vec![0, 60, 40]);
    assert_eq!(z.file_count(), 2);
    assert_eq!(z.paths()[1].0, vec!["dir".to_string(), "a".to_string()]);
    assert_eq!(z.finish(), Ok(()));

    let mut big = ZipScan::new(1, 100).unwrap();
    assert_eq!(big.add(&meta("large", 101, false, false, None), false), Err(Error::DeclaredOverLimit));
    let mut clash = ZipScan::new(2, 100).unwrap();
    clash.add(&meta("a", 1, false, false, None), false).unwrap();
    clash.add(&meta("a/b", 1, false, false, None), false).unwrap();
    assert_eq!(clash.finish(), Err(Error::PathConflict(vec!["a".to_string()])));
}

#[test]
fn counted_compares_with_the_declared_size() {
    let mut c = Counted::new(10);
    assert!(c.add(6));
    assert!(!c.complete());
    assert!(!c.add(5));
    assert!(c.add(4));
    assert!(c.complete());
    assert!(!c.add(1));
}

#[test]
fn staging_prefix_keeps_letters_digits_and_dashes() {
    assert_eq!(staging_prefix("/tmp/My archive_v2!.zip", false), "Myarchivev2-");
    assert_eq!(staging_prefix("/tmp/My archive_v2!.zip", true), "Myarchive_v2-");
    assert_eq!(staging_prefix("/tmp/한글-압축.7z", false), "한글-압축-");
    assert_eq!(staging_prefix("/", false), "Archive-");
    let long = format!("/tmp/{}.zip", "a".repeat(60));
    assert_eq!(staging_prefix(&long, false), format!("{}-", "a".repeat(48)));
}

#[test]
fn task_counts_and_reports() {
    let mut t = Task::new(10);
    assert_eq!(t.check(false), Ok(()));
    assert_eq!(t.check(true), Err(Error::Cancelled));
    assert!(!t.advance(4, Some(10)));
    assert!(t.advance(1, Some(100)));
    assert!(!t.advance(1, None));
    assert!(t.advance(4, Some(0)));
    assert_eq!((t.done(), t.total()), (10, 10));
    let mut w = Task::new(0);
    w.advance(u64::MAX, None);
    w.advance(2, None);
    assert_eq!(w.done(), 1);
}

#[test]
fn staging_prefix_from_a_stem() {
    assert_eq!(dalzip::archive::prefix_from_stem(Some("my file_1!"), true), "myfile_1-");
    assert_eq!(dalzip::archive::prefix_from_stem(Some("my file_1!"), false), "myfile1-");
    assert_eq!(dalzip::archive::prefix_from_stem(None, true), "Archive-");
}

#[test]
fn folders_come_before_parallel_writes() {
    let e = |p: &[&str], d: bool| (p.iter().map(|s| s.to_string()).collect::<Vec<String>>(), d);
    let f = dalzip::archive::folders_to_create(&vec![e(&["a", "b.txt"], false), e(&["c"], true), e(&["top.txt"], false)]);
    assert_eq!(f, vec![vec!["a".to_string()], vec!["c".to_string()], Vec::<String>::new()]);
}
