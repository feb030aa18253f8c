//! Character-level helpers over strings, and the string operations of std
//! that this library uses without proving them.
use unicode_normalization::UnicodeNormalization;
use vstd::prelude::*;

verus! {

/// What `str::to_uppercase` returns for a string with these characters.
pub uninterp spec fn str_upper(s: Seq<char>) -> Seq<char>;

/// What `str::to_lowercase` returns for a string with these characters.
pub uninterp spec fn str_lower(s: Seq<char>) -> Seq<char>;

/// What `unicode_normalization` returns as the NFC form of these characters.
pub uninterp spec fn nfc_form(s: Seq<char>) -> Seq<char>;

/// What `Path::extension` gives for a path with these characters, as text.
pub uninterp spec fn path_extension(p: Seq<char>) -> Option<Seq<char>>;

/// What `Path::file_stem` gives for a path with these characters, as text.
pub uninterp spec fn path_file_stem(p: Seq<char>) -> Option<Seq<char>>;

/// What `char::is_alphanumeric` returns for `c`.
pub uninterp spec fn char_alphanumeric(c: char) -> bool;

/// `s` ends with `suffix`.
pub open spec fn ends_with(s: Seq<char>, suffix: Seq<char>) -> bool {
    s.len() >= suffix.len() && s.subrange(s.len() - suffix.len(), s.len() as int) == suffix
}

/// `s` starts with `prefix`.
pub open spec fn starts_with(s: Seq<char>, prefix: Seq<char>) -> bool {
    s.len() >= prefix.len() && s.take(prefix.len() as int) == prefix
}

/// The characters of `s`, in order.
pub fn chars_of(s: &str) -> (v: Vec<char>)
    ensures
        v@ == s@,
{
    let mut v: Vec<char> = Vec::new();
    for c in it: s.chars()
        invariant
            it.seq() == s@,
            v@ == s@.take(it.index() as int),
    {
        v.push(c);
    }
    v
}

/// Whether two strings hold the same characters.
pub fn str_equal(a: &str, b: &str) -> (r: bool)
    ensures
        r == (a@ == b@),
{
    let x = chars_of(a);
    let y = chars_of(b);
    if x.len() != y.len() {
        return false;
    }
    let mut i: usize = 0;
    while i < x.len()
        invariant
            x@ == a@,
            y@ == b@,
            x.len() == y.len(),
            i <= x.len(),
            forall|j: int| 0 <= j < i ==> x@[j] == y@[j],
        decreases x.len() - i,
    {
        if x[i] != y[i] {
            return false;
        }
        i += 1;
    }
    assert(a@ =~= b@);
    true
}

/// Whether the characters `s` end with the characters of `suffix`.
pub fn ends_with_str(s: &Vec<char>, suffix: &str) -> (r: bool)
    ensures
        r == ends_with(s@, suffix@),
{
    let t = chars_of(suffix);
    if t.len() > s.len() {
        return false;
    }
    let off = s.len() - t.len();
    let mut i: usize = 0;
    while i < t.len()
        invariant
            t@ == suffix@,
            off + t.len() == s.len(),
            i <= t.len(),
            forall|j: int| 0 <= j < i ==> s@[off + j] == t@[j],
        decreases t.len() - i,
    {
        if s[off + i] != t[i] {
            assert(s@.subrange(off as int, s.len() as int)[i as int] != suffix@[i as int]);
            return false;
        }
        i += 1;
    }
    assert(s@.subrange(off as int, s.len() as int) =~= suffix@);
    true
}

/// Whether the characters `s` start with the characters of `prefix`.
pub fn starts_with_str(s: &Vec<char>, prefix: &str) -> (r: bool)
    ensures
        r == starts_with(s@, prefix@),
{
    let t = chars_of(prefix);
    if t.len() > s.len() {
        return false;
    }
    let mut i: usize = 0;
    while i < t.len()
        invariant
            t@ == prefix@,
            t.len() <= s.len(),
            i <= t.len(),
            forall|j: int| 0 <= j < i ==> s@[j] == t@[j],
        decreases t.len() - i,
    {
        if s[i] != t[i] {
            assert(s@.take(t.len() as int)[i as int] != prefix@[i as int]);
            return false;
        }
        i += 1;
    }
    assert(s@.take(t.len() as int) =~= prefix@);
    true
}

/// Calls `str::to_uppercase`. Its result is only named here: the Unicode case
/// mapping that std applies is not restated.
#[verifier::external_body]
pub(crate) fn to_upper(s: &str) -> (r: String)
    ensures
        r@ == str_upper(s@),
{
    s.to_uppercase()
}

/// Calls `str::to_lowercase`. Its result is only named here, as for
/// `to_upper`.
#[verifier::external_body]
pub(crate) fn to_lower(s: &str) -> (r: String)
    ensures
        r@ == str_lower(s@),
{
    s.to_lowercase()
}

/// Calls `UnicodeNormalization::nfc` of the `unicode-normalization` crate and
/// collects the composed characters. The composition tables are not restated:
/// the result is only named.
#[verifier::external_body]
pub(crate) fn nfc(s: &str) -> (r: String)
    ensures
        r@ == nfc_form(s@),
{
    s.nfc().collect()
}

/// A Unicode scalar value: a code point that is not a surrogate.
pub open spec fn scalar_value(u: u32) -> bool {
    u <= 0x10FFFF && !(0xD800 <= u && u <= 0xDFFF)
}

/// Calls `char::from_u32`, which std documents to give the `char` of a
/// Unicode scalar value and `None` for any other number.
#[verifier::external_body]
pub(crate) fn char_from_u32(u: u32) -> (r: Option<char>)
    ensures
        r is Some <==> scalar_value(u),
        r matches Some(c) ==> c as u32 == u,
{
    char::from_u32(u)
}

/// The characters that UTF-16 code units encode, or `None` when a surrogate
/// stands unpaired: a unit outside `0xD800..=0xDFFF` is a character of its
/// own, and a high surrogate followed by a low one encodes one character
/// above `0xFFFF`.
pub open spec fn utf16_decode(u: Seq<u16>) -> Option<Seq<char>>
    decreases u.len(),
{
    if u.len() == 0 {
        Some(Seq::<char>::empty())
    } else if u[0] < 0xD800 || u[0] > 0xDFFF {
        match utf16_decode(u.drop_first()) {
            Some(rest) => Some(seq![u[0] as char] + rest),
            None => None,
        }
    } else if u[0] <= 0xDBFF && u.len() >= 2 && 0xDC00 <= u[1] <= 0xDFFF {
        match utf16_decode(u.subrange(2, u.len() as int)) {
            Some(rest) => Some(
                seq![(0x10000 + (u[0] - 0xD800) * 0x400 + (u[1] - 0xDC00)) as char] + rest,
            ),
            None => None,
        }
    } else {
        None
    }
}

/// Calls `String::from_utf16`, which std documents to decode UTF-16 and to
/// fail when the units hold invalid data, that is an unpaired surrogate.
#[verifier::external_body]
pub(crate) fn string_from_utf16(units: &[u16]) -> (r: Option<String>)
    ensures
        match r {
            Some(s) => utf16_decode(units@) == Some(s@),
            None => utf16_decode(units@) is None,
        },
{
    String::from_utf16(units).ok()
}

/// Collects characters into a `String` with `FromIterator`, which keeps them
/// in order.
#[verifier::external_body]
pub(crate) fn string_from_chars(v: &[char]) -> (r: String)
    ensures
        r@ == v@,
{
    v.iter().collect()
}

/// What `Path::starts_with` says of two paths with these characters: whether
/// the components of `base` begin the components of `p`.
pub uninterp spec fn path_starts_with(p: Seq<char>, base: Seq<char>) -> bool;

/// Calls `Path::starts_with`, which compares whole components; the parsing
/// of components is not restated.
#[verifier::external_body]
pub(crate) fn starts_with_path(p: &str, base: &str) -> (r: bool)
    ensures
        r == path_starts_with(p@, base@),
{
    std::path::Path::new(p).starts_with(base)
}

/// What `Path::file_name` gives for a path with these characters, as text.
pub uninterp spec fn path_file_name(p: Seq<char>) -> Option<Seq<char>>;

/// What `Path::parent` gives for a path with these characters, as text.
pub uninterp spec fn path_parent(p: Seq<char>) -> Option<Seq<char>>;

/// What `Path::join` gives for two paths with these characters, as text.
pub uninterp spec fn path_join(p: Seq<char>, q: Seq<char>) -> Seq<char>;

/// Calls `Path::file_name` on `p` and gives the name as text (lossily, as
/// `to_string_lossy` does); the result is only named.
#[verifier::external_body]
pub(crate) fn file_name(p: &str) -> (r: Option<String>)
    ensures
        r matches Some(e) ==> path_file_name(p@) == Some(e@),
        r is None ==> path_file_name(p@) is None,
{
    std::path::Path::new(p).file_name().map(|v| v.to_string_lossy().into_owned())
}

/// Calls `Path::parent` on `p` and gives the parent as text; the result is
/// only named.
#[verifier::external_body]
pub(crate) fn parent(p: &str) -> (r: Option<String>)
    ensures
        r matches Some(e) ==> path_parent(p@) == Some(e@),
        r is None ==> path_parent(p@) is None,
{
    std::path::Path::new(p).parent().map(|v| v.to_string_lossy().into_owned())
}

/// Calls `Path::join`; the result is only named.
#[verifier::external_body]
pub(crate) fn join(p: &str, q: &str) -> (r: String)
    ensures
        r@ == path_join(p@, q@),
{
    std::path::Path::new(p).join(q).to_string_lossy().into_owned()
}

/// Calls `Path::extension` on `p` and gives the extension as text. Which part
/// of the path std takes as the extension is not restated: the result is only
/// named.
#[verifier::external_body]
pub(crate) fn extension(p: &str) -> (r: Option<String>)
    ensures
        r matches Some(e) ==> path_extension(p@) == Some(e@),
        r is None ==> path_extension(p@) is None,
{
    std::path::Path::new(p).extension().and_then(|e| e.to_str()).map(String::from)
}

/// Calls `Path::file_stem` on `p` and gives the stem as text; the result is
/// only named, as for `extension`.
#[verifier::external_body]
pub(crate) fn file_stem(p: &str) -> (r: Option<String>)
    ensures
        r matches Some(e) ==> path_file_stem(p@) == Some(e@),
        r is None ==> path_file_stem(p@) is None,
{
    std::path::Path::new(p).file_stem().and_then(|e| e.to_str()).map(String::from)
}

/// Calls `char::is_alphanumeric`; the Unicode properties it consults are not
/// restated.
#[verifier::external_body]
pub(crate) fn is_alphanumeric(c: char) -> (r: bool)
    ensures
        r == char_alphanumeric(c),
{
    c.is_alphanumeric()
}

} // verus!
