//! The decisions around the UnRAR library: which headers describe entries
//! that are extracted, what its codes mean, and when a password is handed to
//! it. The calls into the library themselves stay with the caller.
use crate::archive::{plain_mode, Entry};
use crate::error::Error;
use crate::text::{char_from_u32, scalar_value, string_from_chars, string_from_utf16, utf16_decode};
use vstd::prelude::*;

verus! {

/// What a RAR file header tells of one entry.
pub struct RarHeader {
    /// The name as the library fills it, up to its first 0: UTF-16 code
    /// units where `utf16` (the library's wide characters on Windows),
    /// UTF-32 otherwise.
    pub name_units: Vec<u32>,
    pub utf16: bool,
    pub flags: u32,
    pub pack_size: u32,
    pub pack_size_high: u32,
    pub unp_size: u32,
    pub unp_size_high: u32,
    pub host_os: u32,
    pub file_attr: u32,
    /// Dictionary size in KiB.
    pub dict_size: u32,
    pub redir_type: u32,
}

/// The entry continues from the previous volume.
pub const RHDF_SPLITBEFORE: u32 = 0x01;
/// The entry continues in the next volume.
pub const RHDF_SPLITAFTER: u32 = 0x02;
pub const RHDF_ENCRYPTED: u32 = 0x04;
pub const RHDF_DIRECTORY: u32 = 0x20;
/// The archive is a volume of a multi-volume set.
pub const ROADF_VOLUME: u32 = 0x01;
/// The host system code of Unix.
pub const HOST_UNIX: u32 = 3;
/// The largest dictionary accepted, in KiB (512 MiB).
pub const MAX_DICTIONARY: u32 = 512 * 1024;

/// The units of a name up to the first 0.
pub open spec fn until_nul(units: Seq<u32>) -> Seq<u32>
    decreases units.len(),
{
    if units.len() == 0 {
        units
    } else if units[0] == 0 {
        Seq::<u32>::empty()
    } else {
        seq![units[0]] + until_nul(units.drop_first())
    }
}

/// Units that each fit in 16 bits, taken as such.
pub open spec fn narrow_units(units: Seq<u32>) -> Seq<u16> {
    units.map_values(|x: u32| x as u16)
}

/// Every unit fits in 16 bits.
pub open spec fn fits_u16(units: Seq<u32>) -> bool {
    forall|i: int| 0 <= i < units.len() ==> #[trigger] units[i] <= 0xFFFF
}

/// The name's units do not encode text: in UTF-16, a unit above 16 bits or
/// an unpaired surrogate; in UTF-32, a unit that is not a Unicode scalar
/// value.
pub open spec fn bad_name(units: Seq<u32>, utf16: bool) -> bool {
    if utf16 {
        !fits_u16(units) || utf16_decode(narrow_units(units)) is None
    } else {
        exists|i: int| 0 <= i < units.len() && !scalar_value(#[trigger] units[i])
    }
}

/// A 64-bit size given as its high and low 32-bit halves.
pub open spec fn wide_size(high: u32, low: u32) -> u64 {
    (high as int * 0x1_0000_0000 + low as int) as u64
}

/// Why a header is refused.
pub enum RarFault {
    Special,
    Split,
    Dictionary,
    Encoding,
}

/// What is wrong with a header, checked in this order: a link or special
/// file, a part of a split file, a dictionary too large, a name that is not
/// valid text; `None` when it is accepted.
pub open spec fn rar_fault(h: RarHeader) -> Option<RarFault> {
    let name = until_nul(h.name_units@);
    if h.redir_type != 0 || (h.host_os == HOST_UNIX && !plain_mode(Some(h.file_attr))) {
        Some(RarFault::Special)
    } else if h.flags & (RHDF_SPLITBEFORE | RHDF_SPLITAFTER) != 0 {
        Some(RarFault::Split)
    } else if h.dict_size > MAX_DICTIONARY {
        Some(RarFault::Dictionary)
    } else if bad_name(name, h.utf16) {
        Some(RarFault::Encoding)
    } else {
        None
    }
}

proof fn lemma_until_nul(units: Seq<u32>, j: int)
    requires
        0 <= j <= units.len(),
        forall|k: int| 0 <= k < j ==> units[k] != 0,
        j == units.len() || units[j] == 0,
    ensures
        until_nul(units) == units.take(j),
    decreases units.len(),
{
    if j > 0 {
        lemma_until_nul(units.drop_first(), j - 1);
        assert(seq![units[0]] + units.drop_first().take(j - 1) =~= units.take(j));
    } else {
        assert(units.take(0) =~= Seq::<u32>::empty());
    }
}

proof fn lemma_split_size(high: u32, low: u32)
    ensures
        ((high as u64) << 32u64) | (low as u64) == wide_size(high, low),
{
    assert(((high as u64) << 32u64) | (low as u64) == (high as u64) * 0x1_0000_0000u64 + (
    low as u64)) by (bit_vector);
}

/// The entry that a RAR header describes; refuses links and special files,
/// entries split across volumes, dictionaries above 512 MiB, and names that
/// are not Unicode.
pub fn rar_entry(h: &RarHeader) -> (r: Result<Entry, Error>)
    ensures
        match rar_fault(*h) {
            Some(RarFault::Special) => r matches Err(Error::RarSpecial),
            Some(RarFault::Split) => r matches Err(Error::SplitRar),
            Some(RarFault::Dictionary) => r matches Err(Error::RarDictionary),
            Some(RarFault::Encoding) => r matches Err(Error::RarNameEncoding),
            None => r matches Ok(e) && {
                &&& h.utf16 ==> utf16_decode(narrow_units(until_nul(h.name_units@))) == Some(
                    e.name@,
                )
                &&& !h.utf16 ==> e.name@.len() == until_nul(h.name_units@).len()
                &&& !h.utf16 ==> forall|i: int|
                    0 <= i < e.name@.len() ==> #[trigger] e.name@[i] as u32 == until_nul(
                        h.name_units@,
                    )[i]
                &&& e.size == wide_size(h.unp_size_high, h.unp_size)
                &&& e.compressed == wide_size(h.pack_size_high, h.pack_size)
                &&& e.directory == (h.flags & RHDF_DIRECTORY != 0)
                &&& e.encrypted == (h.flags & RHDF_ENCRYPTED != 0)
            },
        },
{
    let mode = h.file_attr & 0o170000u32;
    if h.redir_type != 0 || (h.host_os == HOST_UNIX && !(mode == 0 || mode == 0o100000u32 || mode
        == 0o040000u32)) {
        return Err(Error::RarSpecial);
    }
    if h.flags & (RHDF_SPLITBEFORE | RHDF_SPLITAFTER) != 0 {
        return Err(Error::SplitRar);
    }
    if h.dict_size > MAX_DICTIONARY {
        return Err(Error::RarDictionary);
    }
    let mut end: usize = 0;
    while end < h.name_units.len() && h.name_units[end] != 0
        invariant
            end <= h.name_units.len(),
            forall|k: int| 0 <= k < end ==> h.name_units@[k] != 0,
        decreases h.name_units.len() - end,
    {
        end += 1;
    }
    proof {
        lemma_until_nul(h.name_units@, end as int);
    }
    let ghost name = until_nul(h.name_units@);
    let name_string = if h.utf16 {
        match utf16_name(h, end) {
            Some(s) => s,
            None => {
                return Err(Error::RarNameEncoding);
            },
        }
    } else {
        match utf32_name(h, end) {
            Some(s) => s,
            None => {
                return Err(Error::RarNameEncoding);
            },
        }
    };
    proof {
        lemma_split_size(h.unp_size_high, h.unp_size);
        lemma_split_size(h.pack_size_high, h.pack_size);
    }
    Ok(
        Entry {
            name: name_string,
            size: ((h.unp_size_high as u64) << 32u64) | h.unp_size as u64,
            compressed: ((h.pack_size_high as u64) << 32u64) | h.pack_size as u64,
            directory: h.flags & RHDF_DIRECTORY != 0,
            encrypted: h.flags & RHDF_ENCRYPTED != 0,
        },
    )
}

/// The name of a header with UTF-16 units `name_units[..end]`, decoded.
fn utf16_name(h: &RarHeader, end: usize) -> (r: Option<String>)
    requires
        end <= h.name_units.len(),
        h.name_units@.take(end as int) == until_nul(h.name_units@),
    ensures
        match r {
            Some(s) => !bad_name(until_nul(h.name_units@), true) && utf16_decode(
                narrow_units(until_nul(h.name_units@)),
            ) == Some(s@),
            None => bad_name(until_nul(h.name_units@), true),
        },
{
    let ghost name = until_nul(h.name_units@);
    let mut narrow: Vec<u16> = Vec::new();
    let mut i: usize = 0;
    while i < end
        invariant
            i <= end <= h.name_units.len(),
            name == h.name_units@.take(end as int),
            name == until_nul(h.name_units@),
            narrow@ == narrow_units(name.take(i as int)),
            forall|k: int| 0 <= k < i ==> #[trigger] name[k] <= 0xFFFF,
        decreases end - i,
    {
        let u = h.name_units[i];
        if u > 0xFFFF {
            assert(name[i as int] == u);
            assert(!fits_u16(name));
            return None;
        }
        narrow.push(u as u16);
        i += 1;
        proof {
            assert(narrow@ =~= narrow_units(name.take(i as int)));
        }
    }
    proof {
        assert(name.take(end as int) =~= name);
        assert(fits_u16(name));
    }
    string_from_utf16(narrow.as_slice())
}

/// The name of a header with UTF-32 units `name_units[..end]`, decoded.
fn utf32_name(h: &RarHeader, end: usize) -> (r: Option<String>)
    requires
        end <= h.name_units.len(),
        h.name_units@.take(end as int) == until_nul(h.name_units@),
    ensures
        match r {
            Some(s) => !bad_name(until_nul(h.name_units@), false) && s@.len() == until_nul(
                h.name_units@,
            ).len() && forall|i: int|
                0 <= i < s@.len() ==> #[trigger] s@[i] as u32 == until_nul(h.name_units@)[i],
            None => bad_name(until_nul(h.name_units@), false),
        },
{
    let ghost name = until_nul(h.name_units@);
    let mut chars: Vec<char> = Vec::new();
    let mut i: usize = 0;
    while i < end
        invariant
            i <= end <= h.name_units.len(),
            name == h.name_units@.take(end as int),
            name == until_nul(h.name_units@),
            chars.len() == i,
            forall|k: int| 0 <= k < i ==> scalar_value(#[trigger] name[k]),
            forall|k: int| 0 <= k < i ==> #[trigger] chars@[k] as u32 == name[k],
        decreases end - i,
    {
        match char_from_u32(h.name_units[i]) {
            Some(c) => {
                chars.push(c);
            },
            None => {
                assert(name[i as int] == h.name_units@[i as int]);
                assert(!scalar_value(name[i as int]));
                return None;
            },
        }
        i += 1;
    }
    Some(string_from_chars(chars.as_slice()))
}

/// The error that a UnRAR result code stands for.
pub open spec fn rar_error_of(code: i32) -> Error {
    if code == 22 {
        Error::PasswordRequired
    } else if code == 24 {
        Error::RarBadPassword
    } else if code == 12 {
        Error::RarBadData
    } else {
        Error::RarFailed(code)
    }
}

/// The error that a UnRAR result code stands for.
pub fn rar_error(code: i32) -> (e: Error)
    ensures
        e == rar_error_of(code),
        code == 22 ==> e matches Error::PasswordRequired,
        code == 24 ==> e matches Error::RarBadPassword,
        code == 12 ==> e matches Error::RarBadData,
        code != 22 && code != 24 && code != 12 ==> e == Error::RarFailed(code),
{
    if code == 22 {
        Error::PasswordRequired
    } else if code == 24 {
        Error::RarBadPassword
    } else if code == 12 {
        Error::RarBadData
    } else {
        Error::RarFailed(code)
    }
}

/// The code with which reading a header reports the end of the archive.
pub const ERAR_END_ARCHIVE: i32 = 10;

/// What reading the next header came to.
#[derive(Debug, PartialEq, Eq)]
pub enum HeaderRead {
    /// No header is left.
    End,
    /// A header was read.
    Header,
    /// Reading failed.
    Failed(Error),
}

/// The next step of a walk over a RAR archive after the library read a
/// header and returned `code`: stop at the end, go on with the header on
/// success, fail with what the code means otherwise.
pub fn after_read(code: i32) -> (r: HeaderRead)
    ensures
        code == ERAR_END_ARCHIVE ==> r == HeaderRead::End,
        code == 0 ==> r == HeaderRead::Header,
        code != ERAR_END_ARCHIVE && code != 0 ==> r == HeaderRead::Failed(rar_error_of(code)),
{
    if code == ERAR_END_ARCHIVE {
        HeaderRead::End
    } else if code == 0 {
        HeaderRead::Header
    } else {
        HeaderRead::Failed(rar_error(code))
    }
}

/// The step after the library processed (skipped, or tested while its data
/// was handed over) one entry and returned `code`.
pub fn after_process(code: i32) -> (r: Result<(), Error>)
    ensures
        code == 0 ==> r is Ok,
        code != 0 ==> r == Err::<(), Error>(rar_error_of(code)),
{
    if code == 0 {
        Ok(())
    } else {
        Err(rar_error(code))
    }
}

/// Refuses an archive that is one volume of a set.
pub fn check_archive_flags(flags: u32) -> (r: Result<(), Error>)
    ensures
        flags & ROADF_VOLUME != 0 ==> r matches Err(Error::SplitRar),
        flags & ROADF_VOLUME == 0 ==> r is Ok,
{
    if flags & ROADF_VOLUME != 0 {
        Err(Error::SplitRar)
    } else {
        Ok(())
    }
}

/// Answers the library's request for a password: refuses when none was
/// given or the buffer has no room at all; declines, with no error of its
/// own, when the password and its closing 0 (`units` in all) do not fit the
/// `capacity` of the buffer; otherwise the caller copies it.
pub fn password_reply(password: &str, units: usize, capacity: i64) -> (r: Result<bool, Error>)
    ensures
        (password@.len() == 0 || capacity <= 0) ==> (r matches Err(Error::PasswordRequired)),
        !(password@.len() == 0 || capacity <= 0) ==> r == Ok::<bool, Error>(
            units as int <= capacity,
        ),
{
    if password.unicode_len() == 0 || capacity <= 0 {
        return Err(Error::PasswordRequired);
    }
    Ok(units as i128 <= capacity as i128)
}

/// The password as UTF-32 code units with a closing 0, as the library's wide
/// interface takes it outside Windows.
pub fn wide(value: &str) -> (r: Vec<u32>)
    ensures
        r.len() == value@.len() + 1,
        forall|i: int| 0 <= i < value@.len() ==> #[trigger] r@[i] == value@[i] as u32,
        r@[value@.len() as int] == 0,
{
    let mut r: Vec<u32> = Vec::new();
    for c in it: value.chars()
        invariant
            it.seq() == value@,
            r.len() == it.index(),
            forall|i: int| 0 <= i < r.len() ==> #[trigger] r@[i] == value@[i] as u32,
    {
        r.push(c as u32);
    }
    r.push(0);
    r
}

/// A RAR header is accepted only when it is no link, and, when it comes
/// from Unix, its type bits are none, a regular file or a folder.
pub proof fn lemma_rar_plain(h: RarHeader)
    ensures
        rar_fault(h) is None ==> h.redir_type == 0,
        rar_fault(h) is None && h.host_os == 3 ==> (h.file_attr & 0o170000 == 0 || h.file_attr
            & 0o170000 == 0o100000 || h.file_attr & 0o170000 == 0o040000),
{
    crate::archive::lemma_plain_types(h.file_attr);
}

} // verus!
