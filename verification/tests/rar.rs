use dalzip::error::Error;
use dalzip::rar::{after_process, after_read, HeaderRead, check_archive_flags, password_reply, rar_entry, rar_error, wide, RarHeader};

fn header(name: &str, flags: u32) -> RarHeader {
    let mut name_units: Vec<u32> = name.chars().map(|c| c as u32).collect();
    name_units.extend([0, 77, 88]);
    RarHeader {
        name_units,
        flags,
        pack_size: 3,
        pack_size_high: 1,
        unp_size: 5,
        unp_size_high: 2,
        host_os: 3,
        file_attr: 0o100644,
        dict_size: 4096,
        redir_type: 0,
        utf16: false,
    }
}

fn header16(name: &str) -> RarHeader {
    let mut h = header("", 0);
    h.name_units = name.encode_utf16().map(|u| u as u32).collect();
    h.name_units.extend([0, 77]);
    h.utf16 = true;
    h
}

#[test]
fn rar_utf16_names_decode_surrogate_pairs() {
    assert_eq!(rar_entry(&header16("a/😀.txt")).unwrap().name, "a/😀.txt");
    assert_eq!(rar_entry(&header16("폴더/VERSION")).unwrap().name, "폴더/VERSION");
    let mut lone = header16("x");
    lone.name_units = vec![0x78, 0xD83D, 0];
    assert!(matches!(rar_entry(&lone), Err(Error::RarNameEncoding)));
    let mut wide = header16("x");
    wide.name_units = vec![0x1F600, 0];
    assert!(matches!(rar_entry(&wide), Err(Error::RarNameEncoding)));
    let mut utf32 = header("", 0);
    utf32.name_units = vec![0x1F600, 0];
    assert_eq!(rar_entry(&utf32).unwrap().name, "😀");
}

#[test]
fn rar_header_becomes_an_entry() {
    let e = rar_entry(&header("폴더/VERSION", 0x04)).unwrap();
    assert_eq!(e.name, "폴더/VERSION");
    assert_eq!(e.size, (2u64 << 32) | 5);
    assert_eq!(e.compressed, (1u64 << 32) | 3);
    assert!(e.encrypted);
    assert!(!e.directory);
    assert!(rar_entry(&header("d", 0x20)).unwrap().directory);
}

#[test]
fn rar_headers_that_are_refused() {
    let mut h = header("l", 0);
    h.redir_type = 1;
    assert!(matches!(rar_entry(&h), Err(Error::RarSpecial)));
    let mut h = header("l", 0);
    h.file_attr = 0o120777;
    assert!(matches!(rar_entry(&h), Err(Error::RarSpecial)));
    h.host_os = 2;
    assert!(rar_entry(&h).is_ok());
    assert!(matches!(rar_entry(&header("s", 0x01)), Err(Error::SplitRar)));
    assert!(matches!(rar_entry(&header("s", 0x02)), Err(Error::SplitRar)));
    let mut h = header("d", 0);
    h.dict_size = 512 * 1024 + 1;
    assert!(matches!(rar_entry(&h), Err(Error::RarDictionary)));
    let mut h = header("", 0);
    h.name_units = vec![0x61, 0xD800, 0];
    assert!(matches!(rar_entry(&h), Err(Error::RarNameEncoding)));
}

#[test]
fn rar_codes_and_passwords() {
    assert_eq!(rar_error(22), Error::PasswordRequired);
    assert_eq!(rar_error(24), Error::RarBadPassword);
    assert_eq!(rar_error(12), Error::RarBadData);
    assert_eq!(rar_error(13), Error::RarFailed(13));
    assert_eq!(check_archive_flags(0x01), Err(Error::SplitRar));
    assert_eq!(check_archive_flags(0x08), Ok(()));
    assert_eq!(password_reply("", 1, 10), Err(Error::PasswordRequired));
    assert_eq!(password_reply("pw", 3, 0), Err(Error::PasswordRequired));
    assert_eq!(password_reply("pw", 3, 3), Ok(true));
    assert_eq!(password_reply("pw", 3, 2), Ok(false));
    assert_eq!(wide("aé"), vec![0x61, 0xE9, 0]);
}

#[test]
fn rar_walk_steps() {
    assert_eq!(after_read(10), HeaderRead::End);
    assert_eq!(after_read(0), HeaderRead::Header);
    assert_eq!(after_read(22), HeaderRead::Failed(Error::PasswordRequired));
    assert_eq!(after_process(0), Ok(()));
    assert_eq!(after_process(12), Err(Error::RarBadData));
    assert_eq!(after_process(5), Err(Error::RarFailed(5)));
}
