//! Collision checks over the relative paths of a whole archive: two entries
//! must not name the same file once case and Unicode composition are ignored,
//! and no entry may sit below a file.
use crate::error::Error;
use crate::text::{nfc, nfc_form, str_lower, to_lower};
use vstd::hash_map::StringHashMap;
use vstd::prelude::*;

verus! {

/// The components joined with `/`, as a path is displayed.
pub open spec fn join_slash(ps: Seq<Seq<char>>) -> Seq<char>
    decreases ps.len(),
{
    if ps.len() == 0 {
        Seq::<char>::empty()
    } else if ps.len() == 1 {
        ps[0]
    } else {
        join_slash(ps.drop_last()) + seq!['/'] + ps.last()
    }
}

/// The name under which two paths count as the same file: NFC composed and
/// lower-cased.
pub open spec fn path_key(ps: Seq<Seq<char>>) -> Seq<char> {
    str_lower(nfc_form(join_slash(ps)))
}

/// Each entry as its components and whether it is a folder.
pub open spec fn path_view(entries: Seq<(Vec<String>, bool)>) -> Seq<(Seq<Seq<char>>, bool)> {
    entries.map_values(|e: (Vec<String>, bool)| (e.0.deep_view(), e.1))
}

/// The components of the entry at `i`.
pub open spec fn parts_at(entries: Seq<(Seq<Seq<char>>, bool)>, i: int) -> Seq<Seq<char>> {
    entries[i].0
}

/// The key of entry `j` is the key of an earlier entry.
pub open spec fn repeats_earlier(entries: Seq<(Seq<Seq<char>>, bool)>, j: int) -> bool {
    exists|i: int| 0 <= i < j && path_key(parts_at(entries, i)) == path_key(parts_at(entries, j))
}

/// Some file entry (not a folder) has this key.
pub open spec fn file_has_key(entries: Seq<(Seq<Seq<char>>, bool)>, key: Seq<char>) -> bool {
    exists|m: int| 0 <= m < entries.len() && path_key(parts_at(entries, m)) == key && !entries[m].1
}

/// The ancestor of entry `i` with its first `k` components is a file entry.
pub open spec fn conflict_at(entries: Seq<(Seq<Seq<char>>, bool)>, i: int, k: int) -> bool {
    &&& 0 <= i < entries.len()
    &&& 1 <= k < parts_at(entries, i).len()
    &&& file_has_key(entries, path_key(parts_at(entries, i).take(k)))
}

/// Entry `j` is the first whose key repeats an earlier one.
pub open spec fn first_repeat(entries: Seq<(Seq<Seq<char>>, bool)>, j: int) -> bool {
    &&& 0 <= j < entries.len()
    &&& repeats_earlier(entries, j)
    &&& forall|jj: int| 0 <= jj < j ==> !repeats_earlier(entries, jj)
}

/// `(i, k)` is the first conflict in the order in which entries are taken,
/// and for each entry its longest ancestor first.
pub open spec fn first_conflict(entries: Seq<(Seq<Seq<char>>, bool)>, i: int, k: int) -> bool {
    &&& conflict_at(entries, i, k)
    &&& forall|ii: int, kk: int|
        (ii < i || (ii == i && kk > k)) ==> !#[trigger] conflict_at(entries, ii, kk)
}

/// What `validate_paths` returns for `entries`.
pub open spec fn validate_result(entries: Seq<(Seq<Seq<char>>, bool)>, r: Result<(), Error>) -> bool {
    if exists|j: int| 0 <= j < entries.len() && repeats_earlier(entries, j) {
        r matches Err(Error::DuplicateName(s)) && exists|j: int|
            first_repeat(entries, j) && s.deep_view() == parts_at(entries, j)
    } else if exists|i: int, k: int| conflict_at(entries, i, k) {
        r matches Err(Error::PathConflict(s)) && exists|i: int, k: int|
            first_conflict(entries, i, k) && s.deep_view() == parts_at(entries, i).take(k)
    } else {
        r is Ok
    }
}

/// The first `k` components of `parts` joined with `/`.
pub fn join_prefix(parts: &Vec<String>, k: usize) -> (r: String)
    requires
        k <= parts.len(),
    ensures
        r@ == join_slash(parts.deep_view().take(k as int)),
{
    let mut r = String::new();
    let mut i: usize = 0;
    proof {
        assert(parts.deep_view().take(0) =~= Seq::<Seq<char>>::empty());
    }
    while i < k
        invariant
            i <= k <= parts.len(),
            r@ == join_slash(parts.deep_view().take(i as int)),
        decreases k - i,
    {
        let ghost ps = parts.deep_view().take(i + 1);
        proof {
            assert(ps.drop_last() =~= parts.deep_view().take(i as int));
            assert(ps.last() == parts[i as int]@);
        }
        if i > 0 {
            proof {
                reveal_strlit("/");
            }
            r.append("/");
        } else {
            proof {
                assert(r@ =~= Seq::<char>::empty());
            }
        }
        r.append(parts[i].as_str());
        proof {
            if i == 0 {
                assert(r@ =~= ps[0]);
            } else {
                assert(r@ =~= join_slash(ps.drop_last()) + seq!['/'] + ps.last());
            }
        }
        i += 1;
    }
    r
}

/// The first `k` components of `parts`.
pub fn prefix_parts(parts: &Vec<String>, k: usize) -> (r: Vec<String>)
    requires
        k <= parts.len(),
    ensures
        r.deep_view() == parts.deep_view().take(k as int),
{
    let mut r: Vec<String> = Vec::new();
    let mut i: usize = 0;
    while i < k
        invariant
            i <= k <= parts.len(),
            r.deep_view() == parts.deep_view().take(i as int),
        decreases k - i,
    {
        let ghost before = r@;
        let ghost before_dv = r.deep_view();
        assert(before_dv.len() == before.len());
        assert(parts.deep_view().take(i as int).len() == i);
        let part = parts[i].clone();
        r.push(part);
        proof {
            assert(before.len() == i);
            assert(r@ == before.push(parts@[i as int]));
            assert forall|m: int| 0 <= m < i + 1 implies #[trigger] r.deep_view()[m]
                == parts.deep_view().take(i + 1)[m] by {
                if m < i {
                    assert(before_dv[m] == before[m]@);
                    assert(r@[m] == before[m]);
                    assert(before_dv[m] == parts.deep_view().take(i as int)[m]);
                } else {
                    assert(r@[m] == parts@[i as int]);
                }
            }
            assert(r.deep_view() =~= parts.deep_view().take(i + 1));
        }
        i += 1;
    }
    r
}

/// The key of the path made of the first `k` components of `parts`.
fn key_prefix(parts: &Vec<String>, k: usize) -> (r: String)
    requires
        k <= parts.len(),
    ensures
        r@ == path_key(parts.deep_view().take(k as int)),
{
    let joined = join_prefix(parts, k);
    let composed = nfc(joined.as_str());
    to_lower(composed.as_str())
}

/// The key of a whole path.
pub fn key(parts: &Vec<String>) -> (r: String)
    ensures
        r@ == path_key(parts.deep_view()),
{
    proof {
        assert(parts.deep_view().take(parts.len() as int) =~= parts.deep_view());
    }
    key_prefix(parts, parts.len())
}

/// Entry `j` has the key of an earlier entry, by the keys given.
pub open spec fn key_repeats(keys: Seq<Seq<char>>, j: int) -> bool {
    exists|i: int| 0 <= i < j && keys[i] == keys[j]
}

/// Some file entry (not a folder) has `key`, by the keys given.
pub open spec fn key_of_file(
    entries: Seq<(Seq<Seq<char>>, bool)>,
    keys: Seq<Seq<char>>,
    key: Seq<char>,
) -> bool {
    exists|m: int| 0 <= m < entries.len() && keys[m] == key && !entries[m].1
}

/// The ancestor of entry `i` with its first `k` components is a file entry,
/// by the keys given: `ancestors[i][k]` is the key of that ancestor.
pub open spec fn key_conflict(
    entries: Seq<(Seq<Seq<char>>, bool)>,
    keys: Seq<Seq<char>>,
    ancestors: Seq<Seq<Seq<char>>>,
    i: int,
    k: int,
) -> bool {
    &&& 0 <= i < entries.len()
    &&& 1 <= k < parts_at(entries, i).len()
    &&& key_of_file(entries, keys, ancestors[i][k])
}

/// What `check_keys` returns: `validate_result`, with the keys given in
/// place of the keys computed.
pub open spec fn keyed_result(
    entries: Seq<(Seq<Seq<char>>, bool)>,
    keys: Seq<Seq<char>>,
    ancestors: Seq<Seq<Seq<char>>>,
    r: Result<(), Error>,
) -> bool {
    if exists|j: int| 0 <= j < entries.len() && key_repeats(keys, j) {
        r matches Err(Error::DuplicateName(s)) && exists|j: int|
            {
                &&& 0 <= j < entries.len()
                &&& key_repeats(keys, j)
                &&& forall|jj: int| 0 <= jj < j ==> !key_repeats(keys, jj)
                &&& s.deep_view() == parts_at(entries, j)
            }
    } else if exists|i: int, k: int| key_conflict(entries, keys, ancestors, i, k) {
        r matches Err(Error::PathConflict(s)) && exists|i: int, k: int|
            {
                &&& key_conflict(entries, keys, ancestors, i, k)
                &&& forall|ii: int, kk: int|
                    (ii < i || (ii == i && kk > k)) ==> !#[trigger] key_conflict(
                        entries,
                        keys,
                        ancestors,
                        ii,
                        kk,
                    )
                &&& s.deep_view() == parts_at(entries, i).take(k)
            }
    } else {
        r is Ok
    }
}

/// The check of `validate_paths` over keys already made: `keys[i]` is the
/// key of entry `i`, and `ancestors[i][k]`, for `k` from 1 up to the number
/// of its components, the key of its first `k` components. Two entries with
/// one key are refused, then an entry whose ancestor has the key of a file.
pub fn check_keys(
    entries: &[(Vec<String>, bool)],
    keys: &Vec<String>,
    ancestors: &Vec<Vec<String>>,
) -> (r: Result<(), Error>)
    requires
        keys.len() == entries.len(),
        ancestors.len() == entries.len(),
        forall|i: int| 0 <= i < entries.len() ==> #[trigger] ancestors@[i].len() == entries@[i].0.len(),
    ensures
        keyed_result(path_view(entries@), keys.deep_view(), ancestors.deep_view(), r),
{
    let ghost ev = path_view(entries@);
    let ghost kv = keys.deep_view();
    let ghost av = ancestors.deep_view();
    let n = entries.len();
    let mut known: StringHashMap<bool> = StringHashMap::new();
    let mut j: usize = 0;
    while j < n
        invariant
            j <= n == ev.len() == entries@.len() == keys.len() == kv.len(),
            ev == path_view(entries@),
            kv == keys.deep_view(),
            forall|jj: int| 0 <= jj < j ==> !key_repeats(kv, jj),
            forall|i: int|
                0 <= i < j ==> #[trigger] known@.contains_key(kv[i]) && known@[kv[i]] == ev[i].1,
            forall|key: Seq<char>|
                #[trigger] known@.contains_key(key) ==> exists|i: int| 0 <= i < j && kv[i] == key,
        decreases n - j,
    {
        let k = keys[j].clone();
        assert(k@ == kv[j as int]);
        if known.contains_key(k.as_str()) {
            let shown = prefix_parts(&entries[j].0, entries[j].0.len());
            proof {
                assert(entries[j as int].0.deep_view().take(entries[j as int].0.len() as int)
                    =~= parts_at(ev, j as int));
                let i = choose|i: int| 0 <= i < j && kv[i] == k@;
                assert(key_repeats(kv, j as int));
            }
            return Err(Error::DuplicateName(shown));
        }
        proof {
            assert forall|i: int| 0 <= i < j implies kv[i] != kv[j as int] by {
                assert(known@.contains_key(kv[i]));
            }
        }
        let ghost old_known = known@;
        known.insert(k, entries[j].1);
        proof {
            assert forall|key: Seq<char>| #[trigger] known@.contains_key(key) implies exists|i: int|
                0 <= i < j + 1 && kv[i] == key by {
                if key != kv[j as int] {
                    assert(old_known.contains_key(key));
                }
            }
            assert forall|i: int| 0 <= i < j + 1 implies #[trigger] known@.contains_key(kv[i])
                && known@[kv[i]] == ev[i].1 by {
                if i < j {
                    assert(old_known.contains_key(kv[i]));
                }
            }
        }
        j += 1;
    }
    assert forall|m: int| 0 <= m < n implies #[trigger] known@.contains_key(kv[m])
        && known@[kv[m]] == ev[m].1 by {
        assert(0 <= m < j);
    }
    let mut i: usize = 0;
    while i < n
        invariant
            i <= n == ev.len() == entries@.len() == keys.len() == kv.len() == ancestors.len(),
            ev == path_view(entries@),
            kv == keys.deep_view(),
            av == ancestors.deep_view(),
            forall|m: int| 0 <= m < n ==> #[trigger] ancestors@[m].len() == entries@[m].0.len(),
            forall|m: int|
                0 <= m < n ==> #[trigger] known@.contains_key(kv[m]) && known@[kv[m]] == ev[m].1,
            forall|key: Seq<char>|
                #[trigger] known@.contains_key(key) ==> exists|m: int| 0 <= m < n && kv[m] == key,
            forall|jj: int| 0 <= jj < n ==> !key_repeats(kv, jj),
            forall|ii: int, kk: int| ii < i ==> !#[trigger] key_conflict(ev, kv, av, ii, kk),
        decreases n - i,
    {
        let parts = &entries[i].0;
        let len = parts.len();
        let mut k: usize = if len == 0 {
            0
        } else {
            len - 1
        };
        while k >= 1
            invariant
                i < n == ev.len() == entries@.len() == kv.len() == ancestors.len(),
                parts == &entries@[i as int].0,
                ev == path_view(entries@),
                kv == keys.deep_view(),
                av == ancestors.deep_view(),
                len == parts.len() == ancestors@[i as int].len(),
                k < len || k == 0,
                forall|m: int|
                    0 <= m < n ==> #[trigger] known@.contains_key(kv[m]) && known@[kv[m]] == ev[m].1,
                forall|key: Seq<char>|
                    #[trigger] known@.contains_key(key) ==> exists|m: int| 0 <= m < n && kv[m] == key,
                forall|jj: int| 0 <= jj < n ==> !key_repeats(kv, jj),
                forall|ii: int, kk: int| ii < i ==> !#[trigger] key_conflict(ev, kv, av, ii, kk),
                forall|kk: int| k < kk ==> !#[trigger] key_conflict(ev, kv, av, i as int, kk),
            decreases k,
        {
            let found = known.get(ancestors[i][k].as_str());
            let ghost akey = av[i as int][k as int];
            assert(ancestors[i as int][k as int]@ == akey);
            match found {
                Some(dir) => {
                    if !*dir {
                        let shown = prefix_parts(parts, k);
                        proof {
                            let m = choose|m: int| 0 <= m < n && kv[m] == akey;
                            assert(known@[kv[m]] == ev[m].1);
                            assert(key_of_file(ev, kv, akey));
                            assert(key_conflict(ev, kv, av, i as int, k as int));
                            assert(parts_at(ev, i as int) == parts.deep_view());
                            assert(!exists|jj: int| 0 <= jj < ev.len() && key_repeats(kv, jj));
                        }
                        return Err(Error::PathConflict(shown));
                    }
                    proof {
                        assert forall|m: int| 0 <= m < n && kv[m] == akey implies ev[m].1 by {
                            assert(known@.contains_key(kv[m]));
                        }
                    }
                },
                None => {
                    proof {
                        assert forall|m: int| 0 <= m < n && kv[m] == akey implies false by {
                            assert(known@.contains_key(kv[m]));
                        }
                    }
                },
            }
            assert(!key_conflict(ev, kv, av, i as int, k as int));
            k -= 1;
        }
        assert forall|ii: int, kk: int| ii < i + 1 implies !#[trigger] key_conflict(
            ev,
            kv,
            av,
            ii,
            kk,
        ) by {
            if ii == i && 1 <= kk {
                assert(k < kk);
            }
        }
        i += 1;
    }
    Ok(())
}

/// With the keys that `path_key` gives, `keyed_result` is `validate_result`.
proof fn lemma_keyed_is_validate(
    ev: Seq<(Seq<Seq<char>>, bool)>,
    kv: Seq<Seq<char>>,
    av: Seq<Seq<Seq<char>>>,
    r: Result<(), Error>,
)
    requires
        kv.len() == ev.len(),
        av.len() == ev.len(),
        forall|i: int| 0 <= i < ev.len() ==> #[trigger] kv[i] == path_key(parts_at(ev, i)),
        forall|i: int, k: int|
            0 <= i < ev.len() && 0 <= k < parts_at(ev, i).len() ==> #[trigger] av[i][k]
                == path_key(parts_at(ev, i).take(k)),
        keyed_result(ev, kv, av, r),
    ensures
        validate_result(ev, r),
{
    assert forall|j: int| 0 <= j < ev.len() implies key_repeats(kv, j) == repeats_earlier(ev, j) by {
        if key_repeats(kv, j) {
            let i = choose|i: int| 0 <= i < j && kv[i] == kv[j];
            assert(kv[i] == path_key(parts_at(ev, i)));
        }
        if repeats_earlier(ev, j) {
            let i = choose|i: int|
                0 <= i < j && path_key(parts_at(ev, i)) == path_key(parts_at(ev, j));
            assert(kv[i] == path_key(parts_at(ev, i)));
        }
    }
    assert forall|key: Seq<char>| key_of_file(ev, kv, key) == file_has_key(ev, key) by {
        if key_of_file(ev, kv, key) {
            let m = choose|m: int| 0 <= m < ev.len() && kv[m] == key && !ev[m].1;
            assert(kv[m] == path_key(parts_at(ev, m)));
        }
        if file_has_key(ev, key) {
            let m = choose|m: int|
                0 <= m < ev.len() && path_key(parts_at(ev, m)) == key && !ev[m].1;
            assert(kv[m] == path_key(parts_at(ev, m)));
        }
    }
    assert forall|i: int, k: int| key_conflict(ev, kv, av, i, k) == conflict_at(ev, i, k) by {
        if 0 <= i < ev.len() && 1 <= k < parts_at(ev, i).len() {
            assert(av[i][k] == path_key(parts_at(ev, i).take(k)));
            assert(key_of_file(ev, kv, av[i][k]) == file_has_key(ev, av[i][k]));
        }
    }
    if exists|j: int| 0 <= j < ev.len() && key_repeats(kv, j) {
        let j = choose|j: int| 0 <= j < ev.len() && key_repeats(kv, j);
        assert(repeats_earlier(ev, j));
        let s = r->Err_0->DuplicateName_0;
        let w = choose|w: int|
            {
                &&& 0 <= w < ev.len()
                &&& key_repeats(kv, w)
                &&& forall|jj: int| 0 <= jj < w ==> !key_repeats(kv, jj)
                &&& s.deep_view() == parts_at(ev, w)
            };
        assert(first_repeat(ev, w));
    } else {
        assert(!exists|j: int| 0 <= j < ev.len() && repeats_earlier(ev, j)) by {
            if exists|j: int| 0 <= j < ev.len() && repeats_earlier(ev, j) {
                let j = choose|j: int| 0 <= j < ev.len() && repeats_earlier(ev, j);
                assert(key_repeats(kv, j));
            }
        }
        if exists|i: int, k: int| key_conflict(ev, kv, av, i, k) {
            let (i, k) = choose|i: int, k: int| key_conflict(ev, kv, av, i, k);
            assert(conflict_at(ev, i, k));
            let s = r->Err_0->PathConflict_0;
            let (wi, wk) = choose|wi: int, wk: int|
                {
                    &&& key_conflict(ev, kv, av, wi, wk)
                    &&& forall|ii: int, kk: int|
                        (ii < wi || (ii == wi && kk > wk)) ==> !#[trigger] key_conflict(
                            ev,
                            kv,
                            av,
                            ii,
                            kk,
                        )
                    &&& s.deep_view() == parts_at(ev, wi).take(wk)
                };
            assert(first_conflict(ev, wi, wk));
        } else {
            assert(!exists|i: int, k: int| conflict_at(ev, i, k)) by {
                if exists|i: int, k: int| conflict_at(ev, i, k) {
                    let (i, k) = choose|i: int, k: int| conflict_at(ev, i, k);
                    assert(key_conflict(ev, kv, av, i, k));
                }
            }
        }
    }
}

/// Refuses a set of entry paths in which two entries name the same file once
/// case and Unicode composition are ignored, or in which an entry sits below
/// a file entry. Each entry is a path and whether it is a folder.
pub fn validate_paths(entries: &[(Vec<String>, bool)]) -> (r: Result<(), Error>)
    ensures
        validate_result(path_view(entries@), r),
{
    let ghost ev = path_view(entries@);
    let mut keys: Vec<String> = Vec::new();
    let mut ancestors: Vec<Vec<String>> = Vec::new();
    let mut j: usize = 0;
    while j < entries.len()
        invariant
            j <= entries.len(),
            ev == path_view(entries@),
            keys.len() == j,
            ancestors.len() == j,
            forall|i: int| 0 <= i < j ==> #[trigger] keys@[i]@ == path_key(parts_at(ev, i)),
            forall|i: int| 0 <= i < j ==> #[trigger] ancestors@[i].len() == entries@[i].0.len(),
            forall|i: int, k: int|
                0 <= i < j && 0 <= k < parts_at(ev, i).len() ==> #[trigger] ancestors@[i]@[k]@
                    == path_key(parts_at(ev, i).take(k)),
        decreases entries.len() - j,
    {
        let parts = &entries[j].0;
        proof {
            assert(parts.deep_view() == parts_at(ev, j as int));
        }
        let mut row: Vec<String> = Vec::new();
        let mut k: usize = 0;
        while k < parts.len()
            invariant
                k <= parts.len(),
                row.len() == k,
                parts.deep_view() == parts_at(ev, j as int),
                forall|m: int| 0 <= m < k ==> #[trigger] row@[m]@ == path_key(
                    parts_at(ev, j as int).take(m),
                ),
            decreases parts.len() - k,
        {
            row.push(key_prefix(parts, k));
            k += 1;
        }
        keys.push(key(parts));
        ancestors.push(row);
        j += 1;
    }
    let r = check_keys(entries, &keys, &ancestors);
    proof {
        let kv = keys.deep_view();
        let av = ancestors.deep_view();
        assert forall|i: int| 0 <= i < ev.len() implies #[trigger] kv[i] == path_key(
            parts_at(ev, i),
        ) by {
            assert(kv[i] == keys@[i]@);
        }
        assert forall|i: int, k: int|
            0 <= i < ev.len() && 0 <= k < parts_at(ev, i).len() implies #[trigger] av[i][k]
                == path_key(parts_at(ev, i).take(k)) by {
            assert(av[i] == ancestors@[i].deep_view());
            assert(av[i][k] == ancestors@[i]@[k]@);
        }
        lemma_keyed_is_validate(ev, kv, av, r);
    }
    r
}

/// The verdict of `validate_paths` stated without order: no two entries
/// share a key, and no entry has a file entry among its ancestors.
pub open spec fn paths_acceptable(entries: Seq<(Seq<Seq<char>>, bool)>) -> bool {
    &&& forall|i: int, j: int|
        0 <= i < entries.len() && 0 <= j < entries.len() && i != j ==> path_key(
            #[trigger] parts_at(entries, i),
        ) != path_key(#[trigger] parts_at(entries, j))
    &&& forall|i: int, k: int| !#[trigger] conflict_at(entries, i, k)
}

proof fn lemma_verdict_is_acceptable(entries: Seq<(Seq<Seq<char>>, bool)>, r: Result<(), Error>)
    requires
        validate_result(entries, r),
    ensures
        r is Ok <==> paths_acceptable(entries),
{
    if exists|j: int| 0 <= j < entries.len() && repeats_earlier(entries, j) {
        let j = choose|j: int| 0 <= j < entries.len() && repeats_earlier(entries, j);
        let i = choose|i: int|
            0 <= i < j && path_key(parts_at(entries, i)) == path_key(parts_at(entries, j));
        assert(path_key(parts_at(entries, i)) == path_key(parts_at(entries, j)));
    } else if exists|i: int, k: int| conflict_at(entries, i, k) {
        let (i, k) = choose|i: int, k: int| conflict_at(entries, i, k);
        assert(conflict_at(entries, i, k));
    } else {
        assert forall|i: int, j: int|
            0 <= i < entries.len() && 0 <= j < entries.len() && i != j implies path_key(
            #[trigger] parts_at(entries, i),
        ) != path_key(#[trigger] parts_at(entries, j)) by {
            if path_key(parts_at(entries, i)) == path_key(parts_at(entries, j)) {
                if i < j {
                    assert(repeats_earlier(entries, j));
                } else {
                    assert(repeats_earlier(entries, i));
                }
            }
        }
    }
}

proof fn lemma_acceptable_carries_over(
    a: Seq<(Seq<Seq<char>>, bool)>,
    b: Seq<(Seq<Seq<char>>, bool)>,
)
    requires
        a.to_multiset() == b.to_multiset(),
        paths_acceptable(a),
    ensures
        paths_acceptable(b),
{
    broadcast use vstd::seq_lib::group_to_multiset_ensures;

    assert forall|i: int, j: int| 0 <= i < a.len() && 0 <= j < a.len() && i != j implies a[i]
        != a[j] by {
        if a[i] == a[j] {
            assert(parts_at(a, i) == parts_at(a, j));
        }
    }
    a.lemma_multiset_has_no_duplicates();
    b.lemma_multiset_has_no_duplicates_conv();
    assert forall|i: int| 0 <= i < b.len() implies a.contains(#[trigger] b[i]) by {
        assert(b.contains(b[i]));
        assert(b.to_multiset().count(b[i]) > 0);
    }
    assert forall|i: int, j: int|
        0 <= i < b.len() && 0 <= j < b.len() && i != j implies path_key(
        #[trigger] parts_at(b, i),
    ) != path_key(#[trigger] parts_at(b, j)) by {
        assert(a.contains(b[i]));
        assert(a.contains(b[j]));
        let x = choose|x: int| 0 <= x < a.len() && a[x] == b[i];
        let y = choose|y: int| 0 <= y < a.len() && a[y] == b[j];
        assert(b[i] != b[j]);
        assert(parts_at(a, x) == parts_at(b, i));
        assert(parts_at(a, y) == parts_at(b, j));
    }
    assert forall|i: int, k: int| !#[trigger] conflict_at(b, i, k) by {
        if conflict_at(b, i, k) {
            let key = path_key(parts_at(b, i).take(k));
            let m = choose|m: int|
                0 <= m < b.len() && path_key(parts_at(b, m)) == key && !b[m].1;
            assert(a.contains(b[i]));
            assert(a.contains(b[m]));
            let x = choose|x: int| 0 <= x < a.len() && a[x] == b[i];
            let y = choose|y: int| 0 <= y < a.len() && a[y] == b[m];
            assert(parts_at(a, x) == parts_at(b, i));
            assert(parts_at(a, y) == parts_at(b, m));
            assert(file_has_key(a, key));
            assert(conflict_at(a, x, k));
        }
    }
}

/// Whether `validate_paths` accepts a set of entries does not depend on the
/// order they come in: any reordering of the same entries is accepted or
/// refused alike.
pub proof fn lemma_verdict_ignores_order(
    entries: Seq<(Seq<Seq<char>>, bool)>,
    reordered: Seq<(Seq<Seq<char>>, bool)>,
    r: Result<(), Error>,
    s: Result<(), Error>,
)
    requires
        reordered.to_multiset() == entries.to_multiset(),
        validate_result(entries, r),
        validate_result(reordered, s),
    ensures
        r is Ok <==> s is Ok,
{
    lemma_verdict_is_acceptable(entries, r);
    lemma_verdict_is_acceptable(reordered, s);
    if paths_acceptable(entries) {
        lemma_acceptable_carries_over(entries, reordered);
    }
    if paths_acceptable(reordered) {
        lemma_acceptable_carries_over(reordered, entries);
    }
}

} // verus!
