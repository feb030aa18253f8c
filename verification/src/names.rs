//! Entry names inside an archive, and the check that turns one into a
//! relative path that cannot leave the extraction folder and means the same
//! thing on Windows and on Unix.
use crate::error::Error;
use crate::text::{chars_of, str_upper, to_upper};
use vstd::prelude::*;

verus! {

/// Both `/` and `\` separate the components of an entry name.
pub open spec fn is_sep(c: char) -> bool {
    c == '/' || c == '\\'
}

/// The name with every `\` written as `/`.
pub open spec fn normalize(s: Seq<char>) -> Seq<char> {
    s.map_values(|c: char| if c == '\\' { '/' } else { c })
}

/// The name without its trailing `/` characters.
pub open spec fn trim_end_slashes(s: Seq<char>) -> Seq<char>
    decreases s.len(),
{
    if s.len() > 0 && s.last() == '/' {
        trim_end_slashes(s.drop_last())
    } else {
        s
    }
}

/// The pieces of `s` between `/` characters, empty pieces included; a string
/// without `/` is one piece.
pub open spec fn split_slashes(s: Seq<char>) -> Seq<Seq<char>>
    decreases s.len(),
{
    if s.len() == 0 {
        seq![Seq::<char>::empty()]
    } else {
        let init = split_slashes(s.drop_last());
        if s.last() == '/' {
            init.push(Seq::<char>::empty())
        } else {
            init.update(init.len() - 1, init.last().push(s.last()))
        }
    }
}

/// Characters that Windows does not allow in a file name.
pub open spec fn forbidden_char(c: char) -> bool {
    c < ' ' || c == ':' || c == '<' || c == '>' || c == '"' || c == '|' || c == '?' || c == '*'
}

/// A component that is empty, `.` or `..`, ends in a space or a dot, or holds
/// a forbidden character.
pub open spec fn unsafe_component(p: Seq<char>) -> bool {
    ||| p.len() == 0
    ||| p == seq!['.']
    ||| p == seq!['.', '.']
    ||| p.last() == ' '
    ||| p.last() == '.'
    ||| exists|j: int| 0 <= j < p.len() && forbidden_char(#[trigger] p[j])
}

/// The part of a component before its first `.`.
pub open spec fn before_dot(p: Seq<char>) -> Seq<char>
    decreases p.len(),
{
    if p.len() == 0 {
        p
    } else if p[0] == '.' {
        Seq::<char>::empty()
    } else {
        seq![p[0]] + before_dot(p.drop_first())
    }
}

/// Digits that Windows accepts after `COM` and `LPT` in a device name.
pub open spec fn device_digit(c: char) -> bool {
    ('1' <= c && c <= '9') || c == '¹' || c == '²' || c == '³'
}

/// An upper-case base name that Windows reserves for a device.
pub open spec fn reserved_base(b: Seq<char>) -> bool {
    ||| b == seq!['C', 'O', 'N']
    ||| b == seq!['P', 'R', 'N']
    ||| b == seq!['A', 'U', 'X']
    ||| b == seq!['N', 'U', 'L']
    ||| b == seq!['C', 'O', 'N', 'I', 'N', '$']
    ||| b == seq!['C', 'O', 'N', 'O', 'U', 'T', '$']
    ||| (b.len() == 4 && ((b[0] == 'C' && b[1] == 'O' && b[2] == 'M') || (b[0] == 'L' && b[1]
        == 'P' && b[2] == 'T')) && device_digit(b[3]))
}

/// Why an entry name is refused.
pub enum NameFault {
    Absolute,
    Unsafe,
    Reserved,
}

/// What is wrong with one component, if anything: the unsafe forms are
/// checked first, then the reserved device names.
pub open spec fn component_fault(p: Seq<char>) -> Option<NameFault> {
    if unsafe_component(p) {
        Some(NameFault::Unsafe)
    } else if reserved_base(str_upper(before_dot(p))) {
        Some(NameFault::Reserved)
    } else {
        None
    }
}

/// The fault of the first faulty component, in order.
pub open spec fn first_fault(parts: Seq<Seq<char>>) -> Option<NameFault>
    decreases parts.len(),
{
    if parts.len() == 0 {
        None
    } else {
        match first_fault(parts.drop_last()) {
            Some(f) => Some(f),
            None => component_fault(parts.last()),
        }
    }
}

/// The components that an entry name stands for.
pub open spec fn components(name: Seq<char>) -> Seq<Seq<char>> {
    split_slashes(trim_end_slashes(normalize(name)))
}

/// Why `name` is refused as an entry name, or `None` when it is accepted.
pub open spec fn name_fault(name: Seq<char>) -> Option<NameFault> {
    let n = normalize(name);
    if n.len() > 0 && n[0] == '/' {
        Some(NameFault::Absolute)
    } else {
        first_fault(components(name))
    }
}

/// `e` is the error that `safe_name` reports for `name`.
pub open spec fn name_error(name: Seq<char>, e: Error) -> bool {
    match name_fault(name) {
        None => false,
        Some(NameFault::Absolute) => e matches Error::AbsolutePath(s) && s@ == name,
        Some(NameFault::Unsafe) => e matches Error::UnsafePath(s) && s@ == name,
        Some(NameFault::Reserved) => e matches Error::ReservedName(s) && s@ == name,
    }
}

/// What `safe_name` returns for `name`.
pub open spec fn safe_name_result(name: Seq<char>, r: Result<Vec<String>, Error>) -> bool {
    match r {
        Ok(v) => name_fault(name) is None && v.deep_view() == components(name),
        Err(e) => name_error(name, e),
    }
}

proof fn lemma_split_nonempty(s: Seq<char>)
    ensures
        split_slashes(s).len() >= 1,
    decreases s.len(),
{
    if s.len() > 0 {
        lemma_split_nonempty(s.drop_last());
    }
}

/// Extending the split string keeps every piece but the last one of the
/// shorter split.
proof fn lemma_split_prefix(s: Seq<char>, j: int, k: int)
    requires
        0 <= j <= k <= s.len(),
    ensures
        split_slashes(s.take(j)).len() <= split_slashes(s.take(k)).len(),
        forall|m: int|
            0 <= m < split_slashes(s.take(j)).len() - 1 ==> #[trigger] split_slashes(s.take(k))[m]
                == split_slashes(s.take(j))[m],
    decreases k - j,
{
    if j < k {
        lemma_split_prefix(s, j, k - 1);
        let t = s.take(k);
        assert(t.drop_last() =~= s.take(k - 1));
        lemma_split_nonempty(s.take(k - 1));
    }
}

/// A fault in a prefix is the fault of the whole.
proof fn lemma_first_fault_prefix(q: Seq<Seq<char>>, p: Seq<Seq<char>>)
    requires
        q.len() <= p.len(),
        forall|m: int| 0 <= m < q.len() ==> #[trigger] p[m] == q[m],
        first_fault(q) is Some,
    ensures
        first_fault(p) == first_fault(q),
    decreases p.len(),
{
    if p.len() == q.len() {
        assert(p =~= q);
    } else {
        lemma_first_fault_prefix(q, p.drop_last());
    }
}

proof fn lemma_first_fault_push(parts: Seq<Seq<char>>, p: Seq<char>)
    ensures
        first_fault(parts.push(p)) == match first_fault(parts) {
            Some(f) => Some(f),
            None => component_fault(p),
        },
{
    assert(parts.push(p).drop_last() =~= parts);
}

proof fn lemma_before_dot(p: Seq<char>, j: int)
    requires
        0 <= j <= p.len(),
        forall|k: int| 0 <= k < j ==> p[k] != '.',
        j == p.len() || p[j] == '.',
    ensures
        before_dot(p) == p.take(j),
    decreases p.len(),
{
    if p.len() > 0 && j > 0 {
        lemma_before_dot(p.drop_first(), j - 1);
        assert(seq![p[0]] + p.drop_first().take(j - 1) =~= p.take(j));
    }
    if j == 0 {
        assert(p.take(0) =~= Seq::<char>::empty());
    }
}

/// Whether the upper-cased base name `b` is one that Windows reserves for a
/// device.
pub fn is_reserved_base(b: &Vec<char>) -> (r: bool)
    ensures
        r == reserved_base(b@),
{
    let n = b.len();
    let three = n == 3;
    let r = (three && b[0] == 'C' && b[1] == 'O' && b[2] == 'N') || (three && b[0] == 'P' && b[1]
        == 'R' && b[2] == 'N') || (three && b[0] == 'A' && b[1] == 'U' && b[2] == 'X') || (three
        && b[0] == 'N' && b[1] == 'U' && b[2] == 'L') || (n == 6 && b[0] == 'C' && b[1] == 'O'
        && b[2] == 'N' && b[3] == 'I' && b[4] == 'N' && b[5] == '$') || (n == 7 && b[0] == 'C'
        && b[1] == 'O' && b[2] == 'N' && b[3] == 'O' && b[4] == 'U' && b[5] == 'T' && b[6] == '$')
        || (n == 4 && ((b[0] == 'C' && b[1] == 'O' && b[2] == 'M') || (b[0] == 'L' && b[1] == 'P'
        && b[2] == 'T')) && (('1' <= b[3] && b[3] <= '9') || b[3] == '¹' || b[3] == '²' || b[3]
        == '³'));
    proof {
        if n == 3 {
            if b[0] == 'C' && b[1] == 'O' && b[2] == 'N' {
                assert(b@ =~= seq!['C', 'O', 'N']);
            }
            if b[0] == 'P' && b[1] == 'R' && b[2] == 'N' {
                assert(b@ =~= seq!['P', 'R', 'N']);
            }
            if b[0] == 'A' && b[1] == 'U' && b[2] == 'X' {
                assert(b@ =~= seq!['A', 'U', 'X']);
            }
            if b[0] == 'N' && b[1] == 'U' && b[2] == 'L' {
                assert(b@ =~= seq!['N', 'U', 'L']);
            }
        }
        if n == 6 && b[0] == 'C' && b[1] == 'O' && b[2] == 'N' && b[3] == 'I' && b[4] == 'N'
            && b[5] == '$' {
            assert(b@ =~= seq!['C', 'O', 'N', 'I', 'N', '$']);
        }
        if n == 7 && b[0] == 'C' && b[1] == 'O' && b[2] == 'N' && b[3] == 'O' && b[4] == 'U'
            && b[5] == 'T' && b[6] == '$' {
            assert(b@ =~= seq!['C', 'O', 'N', 'O', 'U', 'T', '$']);
        }
    }
    r
}

/// Checks the component `chars[start..stop]` of `name`, which holds no
/// separator, and returns it as a string.
fn check_component(name: &str, chars: &Vec<char>, start: usize, stop: usize) -> (r: Result<
    String,
    Error,
>)
    requires
        chars@ == name@,
        start <= stop <= chars.len(),
        forall|k: int| start <= k < stop ==> !is_sep(#[trigger] chars@[k]),
    ensures
        ({
            let p = chars@.subrange(start as int, stop as int);
            match component_fault(p) {
                None => r matches Ok(s) && s@ == p,
                Some(NameFault::Unsafe) => r matches Err(Error::UnsafePath(s)) && s@ == name@,
                Some(NameFault::Reserved) => r matches Err(Error::ReservedName(s)) && s@ == name@,
                Some(NameFault::Absolute) => false,
            }
        }),
{
    let ghost p = chars@.subrange(start as int, stop as int);
    let len = stop - start;
    // `.` and `..` end in a dot, so the test of the last character covers them.
    let mut bad = len == 0 || chars[stop - 1] == ' ' || chars[stop - 1] == '.';
    let mut k = start;
    while k < stop
        invariant
            start <= k <= stop <= chars.len(),
            p == chars@.subrange(start as int, stop as int),
            bad == (len == 0 || chars@[stop - 1] == ' ' || chars@[stop - 1] == '.' || exists|
                j: int,
            | 0 <= j < k - start && forbidden_char(#[trigger] p[j])),
        decreases stop - k,
    {
        let c = chars[k];
        if c < ' ' || c == ':' || c == '<' || c == '>' || c == '"' || c == '|' || c == '?' || c
            == '*' {
            assert(forbidden_char(p[k - start]));
            bad = true;
        }
        k += 1;
    }
    proof {
        if len > 0 {
            assert(p.last() == chars@[stop - 1]);
        }
        if p == seq!['.'] || p == seq!['.', '.'] {
            assert(p.last() == '.');
        }
    }
    if bad {
        return Err(Error::UnsafePath(name.to_owned()));
    }
    let mut dot = start;
    while dot < stop && chars[dot] != '.'
        invariant
            start <= dot <= stop <= chars.len(),
            forall|k: int| start <= k < dot ==> chars@[k] != '.',
        decreases stop - dot,
    {
        dot += 1;
    }
    proof {
        lemma_before_dot(p, dot - start);
        assert(p.take(dot - start) =~= name@.subrange(start as int, dot as int));
    }
    let base = name.substring_char(start, dot);
    let upper = to_upper(base);
    let upper_chars = chars_of(upper.as_str());
    if is_reserved_base(&upper_chars) {
        return Err(Error::ReservedName(name.to_owned()));
    }
    let part = name.substring_char(start, stop).to_owned();
    Ok(part)
}

/// Turns an entry name into the components of a relative path, refusing any
/// name that could leave the extraction folder or clash with Windows rules.
/// `\` counts as a separator and trailing separators are ignored.
pub fn safe_name(name: &str) -> (r: Result<Vec<String>, Error>)
    ensures
        safe_name_result(name@, r),
{
    let chars = chars_of(name);
    let n = chars.len();
    let ghost norm = normalize(name@);
    if n > 0 && (chars[0] == '/' || chars[0] == '\\') {
        return Err(Error::AbsolutePath(name.to_owned()));
    }
    let mut end = n;
    proof {
        assert(norm.take(n as int) =~= norm);
    }
    while end > 0 && (chars[end - 1] == '/' || chars[end - 1] == '\\')
        invariant
            end <= n == chars.len() == norm.len(),
            chars@ == name@,
            norm == normalize(name@),
            trim_end_slashes(norm) == trim_end_slashes(norm.take(end as int)),
        decreases end,
    {
        assert(norm.take(end as int).drop_last() =~= norm.take(end - 1));
        end -= 1;
    }
    let ghost t = norm.take(end as int);
    proof {
        assert(norm.take(n as int) =~= norm);
    }
    assert(trim_end_slashes(norm) == t);
    let mut parts: Vec<String> = Vec::new();
    let mut start: usize = 0;
    let mut i: usize = 0;
    proof {
        assert(t.take(0) =~= Seq::<char>::empty());
        assert(parts.deep_view().push(t.subrange(0, 0)) =~= seq![Seq::<char>::empty()]);
    }
    while i < end
        invariant
            start <= i <= end <= n == chars.len(),
            chars@ == name@,
            norm == normalize(name@),
            t == norm.take(end as int),
            norm.len() == n,
            !(n > 0 && norm[0] == '/'),
            trim_end_slashes(norm) == t,
            split_slashes(t.take(i as int)) == parts.deep_view().push(
                t.subrange(start as int, i as int),
            ),
            first_fault(parts.deep_view()) is None,
            forall|k: int| start <= k < i ==> !is_sep(#[trigger] chars@[k]),
        decreases end - i,
    {
        proof {
            assert(t.take(i + 1).drop_last() =~= t.take(i as int));
        }
        if chars[i] == '/' || chars[i] == '\\' {
            let ghost before = parts.deep_view();
            let ghost old_start = start;
            let part = check_component(name, &chars, start, i);
            proof {
                let p = chars@.subrange(start as int, i as int);
                assert(t.subrange(start as int, i as int) =~= p);
                lemma_first_fault_push(before, p);
                lemma_split_prefix(t, i + 1, end as int);
                assert(t.take(end as int) =~= t);
                lemma_split_nonempty(t.take(i as int));
                if component_fault(p) is Some {
                    let q = before.push(p);
                    assert(split_slashes(t.take(i + 1)) == q.push(Seq::<char>::empty()));
                    lemma_first_fault_prefix(q, split_slashes(t));
                }
            }
            match part {
                Ok(s) => {
                    parts.push(s);
                },
                Err(e) => {
                    return Err(e);
                },
            }
            start = i + 1;
            proof {
                assert(parts.deep_view() =~= before.push(chars@.subrange(old_start as int, i as int)));
                assert(t.subrange(start as int, i + 1) =~= Seq::<char>::empty());
            }
        } else {
            proof {
                assert(t.subrange(start as int, i + 1) =~= t.subrange(start as int, i as int).push(t[i as int]));
            }
        }
        i += 1;
    }
    proof {
        assert(t.take(end as int) =~= t);
    }
    let ghost before = parts.deep_view();
    let last = check_component(name, &chars, start, end);
    proof {
        let p = chars@.subrange(start as int, end as int);
        assert(t.subrange(start as int, end as int) =~= p);
        lemma_first_fault_push(before, p);
    }
    match last {
        Ok(s) => {
            parts.push(s);
        },
        Err(e) => {
            return Err(e);
        },
    }
    proof {
        assert(parts.deep_view() =~= split_slashes(t));
    }
    if parts.len() == 0 {
        return Err(Error::EmptyPath);
    }
    Ok(parts)
}

proof fn lemma_split_chars(s: Seq<char>)
    ensures
        forall|i: int, j: int|
            0 <= i < split_slashes(s).len() && 0 <= j < split_slashes(s)[i].len() ==> {
                let c = #[trigger] split_slashes(s)[i][j];
                c != '/' && s.contains(c)
            },
    decreases s.len(),
{
    if s.len() > 0 {
        let t = s.drop_last();
        lemma_split_chars(t);
        lemma_split_nonempty(t);
        assert forall|i: int, j: int|
            0 <= i < split_slashes(s).len() && 0 <= j < split_slashes(s)[i].len() implies {
            let c = #[trigger] split_slashes(s)[i][j];
            c != '/' && s.contains(c)
        } by {
            let c = split_slashes(s)[i][j];
            if s.last() != '/' && i == split_slashes(t).len() - 1 && j == split_slashes(t)[i].len() {
                assert(s[s.len() - 1] == c);
            } else {
                assert(split_slashes(t)[i][j] == c);
                let k = choose|k: int| 0 <= k < t.len() && t[k] == c;
                assert(s[k] == c);
            }
        }
    }
}

proof fn lemma_trim_is_prefix(s: Seq<char>)
    ensures
        trim_end_slashes(s).len() <= s.len(),
        trim_end_slashes(s) == s.take(trim_end_slashes(s).len() as int),
    decreases s.len(),
{
    if s.len() > 0 && s.last() == '/' {
        lemma_trim_is_prefix(s.drop_last());
        assert(s.drop_last().take(trim_end_slashes(s).len() as int) =~= s.take(
            trim_end_slashes(s).len() as int,
        ));
    } else {
        assert(s.take(s.len() as int) =~= s);
    }
}

proof fn lemma_no_fault_each(parts: Seq<Seq<char>>)
    requires
        first_fault(parts) is None,
    ensures
        forall|i: int| 0 <= i < parts.len() ==> component_fault(#[trigger] parts[i]) is None,
    decreases parts.len(),
{
    if parts.len() > 0 {
        lemma_no_fault_each(parts.drop_last());
        assert forall|i: int| 0 <= i < parts.len() implies component_fault(
            #[trigger] parts[i],
        ) is None by {
            if i < parts.len() - 1 {
                assert(parts.drop_last()[i] == parts[i]);
            }
        }
    }
}

/// An accepted entry name is a relative path that stays inside the folder it
/// is extracted to: it has at least one component, and no component is empty,
/// `.` or `..`, holds `/` or `\` or a character that Windows forbids, ends in
/// a space or a dot, or is a reserved device name.
pub proof fn lemma_accepted_name_is_contained(name: Seq<char>)
    requires
        name_fault(name) is None,
    ensures
        components(name).len() >= 1,
        forall|i: int|
            0 <= i < components(name).len() ==> {
                let p = #[trigger] components(name)[i];
                &&& p.len() > 0
                &&& p != seq!['.']
                &&& p != seq!['.', '.']
                &&& p.last() != ' ' && p.last() != '.'
                &&& forall|j: int|
                    0 <= j < p.len() ==> p[j] != '/' && p[j] != '\\' && !(p[j] < ' ' || p[j] == ':'
                        || p[j] == '<' || p[j] == '>' || p[j] == '"' || p[j] == '|' || p[j] == '?'
                        || p[j] == '*')
                &&& !reserved_base(str_upper(before_dot(p)))
            },
{
    let n = normalize(name);
    let t = trim_end_slashes(n);
    lemma_split_nonempty(t);
    lemma_split_chars(t);
    lemma_trim_is_prefix(n);
    lemma_no_fault_each(components(name));
    assert forall|i: int| 0 <= i < components(name).len() implies {
        let p = #[trigger] components(name)[i];
        &&& p.len() > 0
        &&& p != seq!['.']
        &&& p != seq!['.', '.']
        &&& p.last() != ' ' && p.last() != '.'
        &&& forall|j: int|
                    0 <= j < p.len() ==> p[j] != '/' && p[j] != '\\' && !(p[j] < ' ' || p[j] == ':'
                        || p[j] == '<' || p[j] == '>' || p[j] == '"' || p[j] == '|' || p[j] == '?'
                        || p[j] == '*')
        &&& !reserved_base(str_upper(before_dot(p)))
    } by {
        let p = components(name)[i];
        assert(component_fault(p) is None);
        assert forall|j: int| 0 <= j < p.len() implies !is_sep(p[j]) && !forbidden_char(p[j]) by {
            let c = split_slashes(t)[i][j];
            assert(c != '/' && t.contains(c));
            let k = choose|k: int| 0 <= k < t.len() && t[k] == c;
            assert(n[k] == c);
            assert(c != '\\');
        }
    }
}

proof fn lemma_join_push_char(ps: Seq<Seq<char>>, c: char)
    requires
        ps.len() >= 1,
    ensures
        crate::paths::join_slash(ps.update(ps.len() - 1, ps.last().push(c)))
            == crate::paths::join_slash(ps).push(c),
{
    let q = ps.update(ps.len() - 1, ps.last().push(c));
    if ps.len() > 1 {
        assert(q.drop_last() =~= ps.drop_last());
    }
}

/// Writing `\` as `/` a second time changes nothing.
pub proof fn lemma_normalize_idempotent(s: Seq<char>)
    ensures
        normalize(normalize(s)) == normalize(s),
{
    assert(normalize(normalize(s)) =~= normalize(s));
}

/// Joining the pieces of a split with `/` gives back the string.
pub proof fn lemma_join_split(s: Seq<char>)
    ensures
        crate::paths::join_slash(split_slashes(s)) == s,
    decreases s.len(),
{
    if s.len() == 0 {
    } else {
        let t = s.drop_last();
        lemma_join_split(t);
        lemma_split_nonempty(t);
        if s.last() == '/' {
            let q = split_slashes(t).push(Seq::<char>::empty());
            assert(q.drop_last() =~= split_slashes(t));
            assert(s =~= t + seq!['/'] + Seq::<char>::empty());
        } else {
            lemma_join_push_char(split_slashes(t), s.last());
            assert(s =~= t.push(s.last()));
        }
    }
}

/// The components of an entry name, joined with `/`, are the name with every
/// `\` written as `/` and its trailing separators removed: the check changes
/// nothing else.
pub proof fn lemma_components_rejoin(name: Seq<char>)
    ensures
        crate::paths::join_slash(components(name)) == trim_end_slashes(normalize(name)),
{
    lemma_join_split(trim_end_slashes(normalize(name)));
}

proof fn lemma_trim_keeps(n: Seq<char>, j: int)
    requires
        0 <= j < n.len(),
        n[j] != '/',
    ensures
        j < trim_end_slashes(n).len(),
        trim_end_slashes(n)[j] == n[j],
    decreases n.len(),
{
    if n.last() == '/' {
        lemma_trim_keeps(n.drop_last(), j);
    }
}

proof fn lemma_split_covers(s: Seq<char>, j: int)
    requires
        0 <= j < s.len(),
        s[j] != '/',
    ensures
        exists|i: int| 0 <= i < split_slashes(s).len() && split_slashes(s)[i].contains(s[j]),
    decreases s.len(),
{
    let t = s.drop_last();
    lemma_split_nonempty(t);
    let init = split_slashes(t);
    let last = init.len() - 1;
    if j == s.len() - 1 {
        let piece = init.last().push(s.last());
        assert(split_slashes(s)[last] == piece);
        assert(piece[piece.len() - 1] == s[j]);
    } else {
        lemma_split_covers(t, j);
        let i = choose|i: int| 0 <= i < init.len() && init[i].contains(t[j]);
        let k = choose|k: int| 0 <= k < init[i].len() && init[i][k] == t[j];
        if s.last() == '/' {
            assert(split_slashes(s)[i] == init[i]);
        } else if i != last {
            assert(split_slashes(s)[i] == init[i]);
        } else {
            assert(split_slashes(s)[i] == init[i].push(s.last()));
            assert(split_slashes(s)[i][k] == init[i][k]);
        }
        assert(split_slashes(s)[i][k] == s[j]);
    }
}

proof fn lemma_fault_somewhere(parts: Seq<Seq<char>>, i: int)
    requires
        0 <= i < parts.len(),
        component_fault(parts[i]) is Some,
    ensures
        first_fault(parts) is Some,
    decreases parts.len(),
{
    if i < parts.len() - 1 {
        assert(parts.drop_last()[i] == parts[i]);
        lemma_fault_somewhere(parts.drop_last(), i);
    }
}

/// A name that holds a character Windows forbids in file names (one below
/// U+0020, or one of `:` `<` `>` `"` `|` `?` `*`) is never accepted.
pub proof fn lemma_forbidden_character_refused(
    name: Seq<char>,
    j: int,
    r: Result<Vec<String>, Error>,
)
    requires
        safe_name_result(name, r),
        0 <= j < name.len(),
        name[j] < ' ' || name[j] == ':' || name[j] == '<' || name[j] == '>' || name[j] == '"'
            || name[j] == '|' || name[j] == '?' || name[j] == '*',
    ensures
        r is Err,
{
    let n = normalize(name);
    if !(n.len() > 0 && n[0] == '/') {
        let c = name[j];
        assert(n[j] == c);
        lemma_trim_keeps(n, j);
        let t = trim_end_slashes(n);
        assert(t[j] == c);
        lemma_split_covers(t, j);
        let i = choose|i: int| 0 <= i < split_slashes(t).len() && split_slashes(t)[i].contains(t[j]);
        let p = split_slashes(t)[i];
        let k = choose|k: int| 0 <= k < p.len() && p[k] == c;
        assert(forbidden_char(p[k]));
        assert(unsafe_component(p));
        lemma_fault_somewhere(components(name), i);
    }
}

/// A name with a component whose part before its first dot is, in upper
/// case, a device name that Windows reserves (`CON`, `PRN`, `AUX`, `NUL`,
/// `CONIN$`, `CONOUT$`, or `COM` or `LPT` followed by one of `1` to `9`, `¹`,
/// `²`, `³`) is never accepted.
pub proof fn lemma_reserved_name_refused(name: Seq<char>, i: int, r: Result<Vec<String>, Error>)
    requires
        safe_name_result(name, r),
        0 <= i < components(name).len(),
        ({
            let b = str_upper(before_dot(components(name)[i]));
            ||| b == "CON"@
            ||| b == "PRN"@
            ||| b == "AUX"@
            ||| b == "NUL"@
            ||| b == "CONIN$"@
            ||| b == "CONOUT$"@
            ||| b.len() == 4 && (b.take(3) == "COM"@ || b.take(3) == "LPT"@) && (('1' <= b[3]
                && b[3] <= '9') || b[3] == '¹' || b[3] == '²' || b[3] == '³')
        }),
    ensures
        r is Err,
{
    reveal_strlit("CON");
    reveal_strlit("PRN");
    reveal_strlit("AUX");
    reveal_strlit("NUL");
    reveal_strlit("CONIN$");
    reveal_strlit("CONOUT$");
    reveal_strlit("COM");
    reveal_strlit("LPT");
    assert("CON"@ =~= seq!['C', 'O', 'N']);
    assert("PRN"@ =~= seq!['P', 'R', 'N']);
    assert("AUX"@ =~= seq!['A', 'U', 'X']);
    assert("NUL"@ =~= seq!['N', 'U', 'L']);
    assert("CONIN$"@ =~= seq!['C', 'O', 'N', 'I', 'N', '$']);
    assert("CONOUT$"@ =~= seq!['C', 'O', 'N', 'O', 'U', 'T', '$']);
    let p = components(name)[i];
    let b = str_upper(before_dot(p));
    if b.len() == 4 && b.take(3) == "COM"@ {
        assert(b[0] == 'C' && b[1] == 'O' && b[2] == 'M') by {
            assert(b.take(3)[0] == b[0] && b.take(3)[1] == b[1] && b.take(3)[2] == b[2]);
        }
    }
    if b.len() == 4 && b.take(3) == "LPT"@ {
        assert(b[0] == 'L' && b[1] == 'P' && b[2] == 'T') by {
            assert(b.take(3)[0] == b[0] && b.take(3)[1] == b[1] && b.take(3)[2] == b[2]);
        }
    }
    assert(reserved_base(b));
    assert(component_fault(p) is Some);
    lemma_fault_somewhere(components(name), i);
}

/// A name that starts with `/` or `\` is refused as an absolute path, with
/// the name as given.
pub proof fn lemma_absolute_refused(name: Seq<char>, r: Result<Vec<String>, Error>)
    requires
        safe_name_result(name, r),
        name.len() > 0,
        name[0] == '/' || name[0] == '\\',
    ensures
        r matches Err(Error::AbsolutePath(s)) && s@ == name,
{
    assert(normalize(name)[0] == '/');
}

} // verus!
