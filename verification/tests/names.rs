use dalzip::error::Error;
use dalzip::names::safe_name;

#[test]
fn blocks_unsafe_paths() {
    for name in [
        "../escape",
        "/etc/passwd",
        "C:\\bad",
        "a\\..\\b",
        "a/./b",
        "NUL.txt",
        "a:stream",
        "a./b",
        "a//b",
        "CONIN$",
    ] {
        assert!(safe_name(name).is_err(), "{name}");
    }
    assert!(safe_name("한글/파일.txt").is_ok());
}

#[test]
fn accepted_name_is_split_into_components() {
    assert_eq!(
        safe_name("dir\\sub/file.txt/").unwrap(),
        vec!["dir".to_string(), "sub".to_string(), "file.txt".to_string()]
    );
    assert_eq!(safe_name("한글/파일.txt").unwrap(), vec!["한글".to_string(), "파일.txt".to_string()]);
    assert_eq!(safe_name("a").unwrap(), vec!["a".to_string()]);
}

#[test]
fn absolute_names_are_refused_with_their_reason() {
    assert_eq!(safe_name("/etc/passwd"), Err(Error::AbsolutePath("/etc/passwd".into())));
    assert_eq!(safe_name("\\server\\share"), Err(Error::AbsolutePath("\\server\\share".into())));
}

#[test]
fn unsafe_components_are_refused() {
    for name in ["", "/", "a/..", "..", ".", "a /b", "x.", "tab\there", "a<b", "q?", "star*", "p|q", "\"q\""] {
        let r = safe_name(name);
        assert!(
            matches!(r, Err(Error::UnsafePath(_)) | Err(Error::AbsolutePath(_))),
            "{name}: {r:?}"
        );
    }
    assert_eq!(safe_name("a:b"), Err(Error::UnsafePath("a:b".into())));
}

#[test]
fn reserved_device_names_are_refused_in_any_case() {
    for name in ["con", "PRN.txt", "dir/aux.tar.gz", "Nul", "com1", "LPT9.log", "com¹", "conout$", "COM³.x"] {
        assert_eq!(safe_name(name), Err(Error::ReservedName(name.into())), "{name}");
    }
    for name in ["console", "com0", "com10", "lpt", "nul_", "aux1"] {
        assert!(safe_name(name).is_ok(), "{name}");
    }
}

#[test]
fn the_first_faulty_component_decides_the_reason() {
    assert_eq!(safe_name("nul/../x"), Err(Error::ReservedName("nul/../x".into())));
    assert_eq!(safe_name("../nul"), Err(Error::UnsafePath("../nul".into())));
}

#[test]
fn reserved_bases_are_known() {
    let chars = |s: &str| s.chars().collect::<Vec<char>>();
    assert!(dalzip::names::is_reserved_base(&chars("CONOUT$")));
    assert!(dalzip::names::is_reserved_base(&chars("LPT²")));
    assert!(!dalzip::names::is_reserved_base(&chars("COM0")));
    assert!(!dalzip::names::is_reserved_base(&chars("con")));
}
