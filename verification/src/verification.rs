//! The check that runs before sources are moved to the trash: the archive is
//! extracted again, and the paths and BLAKE3 content hashes of what came out
//! must be those of the sources as they are now. A file's bytes are handed to
//! a `Digester` piece by piece as they are read, so no file is held whole.
use crate::error::Error;
use crate::text::string_from_chars;
use vstd::hash_map::StringHashMap;
use vstd::prelude::*;

verus! {

/// `t` is the text under which the manifest files the path `b`: each byte
/// as the character with its number, which keeps paths that are not UTF-8
/// apart.
pub open spec fn texts(t: Seq<char>, b: Seq<u8>) -> bool {
    t.len() == b.len() && forall|i: int| 0 <= i < b.len() ==> #[trigger] t[i] as u32 == b[i] as u32
}

proof fn lemma_texts_unique(t: Seq<char>, u: Seq<char>, a: Seq<u8>, b: Seq<u8>)
    requires
        texts(t, a),
        texts(u, b),
    ensures
        (t == u) == (a == b),
{
    if t == u {
        assert forall|i: int| 0 <= i < a.len() implies a[i] == b[i] by {
            assert(t[i] as u32 == a[i] as u32);
            assert(u[i] as u32 == b[i] as u32);
        }
        assert(a =~= b);
    }
    if a == b {
        assert forall|i: int| 0 <= i < t.len() implies t[i] == u[i] by {
            assert(t[i] as u32 == u[i] as u32);
            vstd::utf8::char_u32_cast(t[i], t[i] as u32);
            vstd::utf8::char_u32_cast(u[i], u[i] as u32);
        }
        assert(t =~= u);
    }
}

fn text_of(bytes: &[u8]) -> (r: String)
    ensures
        texts(r@, bytes@),
{
    let mut chars: Vec<char> = Vec::new();
    let mut i: usize = 0;
    while i < bytes.len()
        invariant
            i <= bytes.len(),
            chars.len() == i,
            forall|k: int| 0 <= k < i ==> #[trigger] chars@[k] as u32 == bytes@[k] as u32,
        decreases bytes.len() - i,
    {
        match crate::text::char_from_u32(bytes[i] as u32) {
            Some(c) => {
                chars.push(c);
            },
            None => {
                assert(false);
            },
        }
        i += 1;
    }
    string_from_chars(chars.as_slice())
}

/// What BLAKE3 gives for these bytes: the 32 bytes of its hash.
pub uninterp spec fn blake3_of(data: Seq<u8>) -> Seq<u8>;

#[verifier::external_type_specification]
#[verifier::external_body]
pub struct ExBlake3Hasher(blake3::Hasher);

/// A BLAKE3 hash being taken over bytes that arrive piece by piece.
pub struct Digester {
    hasher: blake3::Hasher,
    fed: Ghost<Seq<u8>>,
}

impl Digester {
    /// The bytes handed in so far, in order.
    pub closed spec fn fed(&self) -> Seq<u8> {
        self.fed@
    }

    /// Calls `blake3::Hasher::new`, whose state has taken no bytes.
    #[verifier::external_body]
    fn start() -> (d: Digester)
        ensures
            d.fed() == Seq::<u8>::empty(),
    {
        Digester { hasher: blake3::Hasher::new(), fed: Ghost(Seq::empty()) }
    }

    /// Calls `blake3::Hasher::update`, which adds `chunk` after the bytes
    /// taken before.
    #[verifier::external_body]
    fn absorb(&mut self, chunk: &[u8])
        ensures
            final(self).fed() == old(self).fed() + chunk@,
    {
        self.hasher.update(chunk);
    }

    /// Calls `blake3::Hasher::finalize` and gives the hash as its 32 bytes;
    /// which bytes those are is only named.
    #[verifier::external_body]
    fn hash(&self) -> (r: Vec<u8>)
        ensures
            r@ == blake3_of(self.fed()),
            r@.len() == 32,
    {
        self.hasher.finalize().as_bytes().to_vec()
    }

    /// A hash that has taken no bytes yet.
    pub fn new() -> (d: Digester)
        ensures
            d.fed() == Seq::<u8>::empty(),
    {
        Self::start()
    }

    /// Hands in the next bytes.
    pub fn update(&mut self, chunk: &[u8])
        ensures
            final(self).fed() == old(self).fed() + chunk@,
    {
        self.absorb(chunk)
    }

    /// The BLAKE3 hash of all the bytes handed in.
    pub fn finish(&self) -> (r: Vec<u8>)
        ensures
            r@ == blake3_of(self.fed()),
            r@.len() == 32,
    {
        self.hash()
    }
}

/// Each relative path below some roots, with the digest of its contents for
/// a file and nothing for a folder.
pub struct Manifest {
    index: StringHashMap<usize>,
    keys: Vec<String>,
    paths: Vec<Vec<u8>>,
    digests: Vec<Option<Vec<u8>>>,
}

/// A digest as a value.
pub open spec fn digest_view(d: Option<Vec<u8>>) -> Option<Seq<u8>> {
    match d {
        Some(v) => Some(v@),
        None => None,
    }
}

impl Manifest {
    /// The entries, in the order they were added.
    pub closed spec fn spec_entries(&self) -> Seq<(Seq<u8>, Option<Seq<u8>>)> {
        Seq::new(
            self.paths@.len(),
            |i: int| (self.paths@[i]@, digest_view(self.digests@[i])),
        )
    }

    /// No path occurs twice, and the index finds each.
    pub closed spec fn wf(&self) -> bool {
        &&& self.paths@.len() == self.digests@.len()
        &&& self.paths@.len() == self.keys@.len()
        &&& forall|i: int|
            0 <= i < self.paths@.len() ==> texts(#[trigger] self.keys@[i]@, self.paths@[i]@)
        &&& forall|i: int, j: int|
            0 <= i < j < self.paths@.len() ==> self.paths@[i]@ != self.paths@[j]@
        &&& forall|i: int|
            0 <= i < self.paths@.len() ==> #[trigger] self.index@.contains_key(self.keys@[i]@)
                && self.index@[self.keys@[i]@] == i
        &&& forall|t: Seq<char>| #[trigger]
            self.index@.contains_key(t) ==> 0 <= self.index@[t] < self.paths@.len() && t
                == self.keys@[self.index@[t] as int]@
    }

    pub fn new() -> (m: Manifest)
        ensures
            m.wf(),
            m.spec_entries().len() == 0,
    {
        Manifest {
            index: StringHashMap::new(),
            keys: Vec::new(),
            paths: Vec::new(),
            digests: Vec::new(),
        }
    }

    /// Adds the item at `relative` below a root. The root itself (an empty
    /// path) is not listed. A file is listed with the BLAKE3 hash of the bytes
    /// that `content` has taken, a folder without a hash; anything else, and
    /// a path listed before, is refused.
    pub fn add(&mut self, relative: &[u8], is_file: bool, is_dir: bool, content: &Digester) -> (r:
        Result<(), Error>)
        requires
            old(self).wf(),
        ensures
            final(self).wf(),
            r is Err ==> *final(self) == *old(self),
            relative@.len() == 0 ==> (r is Ok && final(self).spec_entries() == old(
                self,
            ).spec_entries()),
            relative@.len() != 0 && !is_file && !is_dir ==> (r matches Err(Error::SpecialInSource)),
            relative@.len() != 0 && (is_file || is_dir) && (exists|i: int|
                0 <= i < old(self).spec_entries().len() && old(self).spec_entries()[i].0
                    == relative@) ==> (r matches Err(Error::DuplicateSource)),
            relative@.len() != 0 && (is_file || is_dir) && !(exists|i: int|
                0 <= i < old(self).spec_entries().len() && old(self).spec_entries()[i].0
                    == relative@) ==> (r is Ok && final(self).spec_entries() == old(
                self,
            ).spec_entries().push(
                (relative@, if is_file {
                    Some(blake3_of(content.fed()))
                } else {
                    None
                }),
            )),
    {
        if relative.len() == 0 {
            return Ok(());
        }
        if !is_file && !is_dir {
            return Err(Error::SpecialInSource);
        }
        let key = text_of(relative);
        if self.index.contains_key(key.as_str()) {
            proof {
                let i = self.index@[key@] as int;
                lemma_texts_unique(self.keys@[i]@, key@, self.paths@[i]@, relative@);
                assert(self.spec_entries()[i].0 == relative@);
            }
            return Err(Error::DuplicateSource);
        }
        proof {
            assert forall|i: int| 0 <= i < self.paths@.len() implies self.paths@[i]@
                != relative@ by {
                assert(self.index@.contains_key(self.keys@[i]@));
                lemma_texts_unique(self.keys@[i]@, key@, self.paths@[i]@, relative@);
            }
        }
        let stored = if is_file {
            Some(content.finish())
        } else {
            None
        };
        let ghost old_entries = self.spec_entries();
        let ghost old_index = self.index@;
        let ghost old_keys = self.keys@;
        let ghost kv = key@;
        let n = self.paths.len();
        self.index.insert(key.clone(), n);
        self.keys.push(key);
        self.paths.push(vstd::slice::slice_to_vec(relative));
        self.digests.push(stored);
        proof {
            assert(self.keys@[n as int]@ == kv);
            assert forall|t: Seq<char>| #[trigger] self.index@.contains_key(t) implies 0
                <= self.index@[t] < self.paths@.len() && t == self.keys@[self.index@[t] as int]@ by {
                if t != kv {
                    assert(old_index.contains_key(t));
                }
            }
            assert forall|i: int| 0 <= i < self.paths@.len() implies #[trigger] self.index@.contains_key(
                self.keys@[i]@,
            ) && self.index@[self.keys@[i]@] == i by {
                if i < n {
                    assert(old_index.contains_key(old_keys[i]@));
                    assert(self.keys@[i] == old_keys[i]);
                    if old_keys[i]@ == kv {
                        assert(old_index.contains_key(kv));
                    }
                }
            }
            assert(self.spec_entries() =~= old_entries.push(
                (relative@, if is_file {
                    Some(blake3_of(content.fed()))
                } else {
                    None
                }),
            ));
        }
        Ok(())
    }

    /// Whether the two manifests list the same paths with the same digests.
    pub fn same_as(&self, other: &Manifest) -> (r: bool)
        requires
            self.wf(),
            other.wf(),
        ensures
            r == (self.spec_entries().to_set() == other.spec_entries().to_set()),
    {
        let ghost a = self.spec_entries();
        let ghost b = other.spec_entries();
        proof {
            self.lemma_no_duplicates();
            other.lemma_no_duplicates();
            a.unique_seq_to_set();
            b.unique_seq_to_set();
            vstd::seq_lib::seq_to_set_is_finite(a);
            vstd::seq_lib::seq_to_set_is_finite(b);
        }
        if self.paths.len() != other.paths.len() {
            return false;
        }
        let mut i: usize = 0;
        while i < self.paths.len()
            invariant
                self.wf(),
                other.wf(),
                a == self.spec_entries(),
                b == other.spec_entries(),
                a.len() == b.len(),
                i <= a.len(),
                forall|k: int| 0 <= k < i ==> b.contains(#[trigger] a[k]),
            decreases self.paths.len() - i,
        {
            let key = text_of(self.paths[i].as_slice());
            match other.index.get(key.as_str()) {
                None => {
                    proof {
                        if b.contains(a[i as int]) {
                            let j = choose|j: int| 0 <= j < b.len() && b[j] == a[i as int];
                            assert(other.index@.contains_key(other.keys@[j]@));
                            lemma_texts_unique(other.keys@[j]@, key@, other.paths@[j]@, self.paths@[i as int]@);
                        }
                        assert(a.to_set().contains(a[i as int]));
                        assert(!b.to_set().contains(a[i as int]));
                    }
                    return false;
                },
                Some(j) => {
                    let j = *j;
                    proof {
                        lemma_texts_unique(other.keys@[j as int]@, key@, other.paths@[j as int]@, self.paths@[i as int]@);
                    }
                    if !same_digest(&self.digests[i], &other.digests[j]) {
                        proof {
                            if b.contains(a[i as int]) {
                                let jj = choose|jj: int| 0 <= jj < b.len() && b[jj] == a[i as int];
                                assert(other.paths@[jj]@ == other.paths@[j as int]@);
                                if jj < j {
                                    assert(other.paths@[jj]@ != other.paths@[j as int]@);
                                } else if jj > j {
                                    assert(other.paths@[j as int]@ != other.paths@[jj]@);
                                }
                            }
                            assert(a.to_set().contains(a[i as int]));
                            assert(!b.to_set().contains(a[i as int]));
                        }
                        return false;
                    }
                    assert(b[j as int] == a[i as int]);
                },
            }
            i += 1;
        }
        proof {
            assert(a.to_set().subset_of(b.to_set()));
            vstd::set_lib::lemma_subset_equality(a.to_set(), b.to_set());
        }
        true
    }

    proof fn lemma_no_duplicates(&self)
        requires
            self.wf(),
        ensures
            self.spec_entries().no_duplicates(),
    {
        let e = self.spec_entries();
        assert forall|i: int, j: int| 0 <= i < e.len() && 0 <= j < e.len() && i != j implies e[i]
            != e[j] by {
            if i < j {
                assert(self.paths@[i]@ != self.paths@[j]@);
            } else {
                assert(self.paths@[j]@ != self.paths@[i]@);
            }
        }
    }
}

fn same_digest(x: &Option<Vec<u8>>, y: &Option<Vec<u8>>) -> (r: bool)
    ensures
        r == (digest_view(*x) == digest_view(*y)),
{
    match (x, y) {
        (None, None) => true,
        (Some(p), Some(q)) => {
            if p.len() != q.len() {
                assert(p@.len() != q@.len());
                return false;
            }
            let mut i: usize = 0;
            while i < p.len()
                invariant
                    digest_view(*x) == Some(p@),
                    digest_view(*y) == Some(q@),
                    p.len() == q.len(),
                    i <= p.len(),
                    forall|k: int| 0 <= k < i ==> p@[k] == q@[k],
                decreases p.len() - i,
            {
                if p[i] != q[i] {
                    assert(p@[i as int] != q@[i as int]);
                    return false;
                }
                i += 1;
            }
            assert(p@ =~= q@);
            true
        },
        _ => false,
    }
}

/// The archive holds exactly the sources: same paths, same digests.
pub fn compare(saved: &Manifest, current: &Manifest) -> (r: Result<(), Error>)
    requires
        saved.wf(),
        current.wf(),
    ensures
        r is Ok <==> saved.spec_entries().to_set() == current.spec_entries().to_set(),
        r is Err ==> (r matches Err(Error::ContentMismatch)),
{
    if saved.same_as(current) {
        Ok(())
    } else {
        Err(Error::ContentMismatch)
    }
}

/// Two manifests that list one path with different BLAKE3 hashes differ, so
/// `compare` refuses them: a source whose bytes hash otherwise than the
/// archived copy never goes on to the trash.
pub proof fn lemma_changed_content_differs(
    saved: &Manifest,
    current: &Manifest,
    path: Seq<u8>,
    archived: Seq<u8>,
    now: Seq<u8>,
)
    requires
        saved.wf(),
        current.wf(),
        saved.spec_entries().contains((path, Some(blake3_of(archived)))),
        current.spec_entries().contains((path, Some(blake3_of(now)))),
        blake3_of(archived) != blake3_of(now),
    ensures
        saved.spec_entries().to_set() != current.spec_entries().to_set(),
{
    let e = current.spec_entries();
    if saved.spec_entries().to_set() == e.to_set() {
        assert(saved.spec_entries().to_set().contains((path, Some(blake3_of(archived)))));
        assert(e.contains((path, Some(blake3_of(archived)))));
        let i = choose|i: int| 0 <= i < e.len() && e[i] == (path, Some(blake3_of(archived)));
        let j = choose|j: int| 0 <= j < e.len() && e[j] == (path, Some(blake3_of(now)));
        assert(i != j);
        if i < j {
            assert(current.paths@[i]@ != current.paths@[j]@);
        } else {
            assert(current.paths@[j]@ != current.paths@[i]@);
        }
    }
}

/// The last gate before the sources go to the trash: the job must not be
/// cancelled, and no source may have become a symbolic link since it was
/// compressed.
pub fn before_trash(cancelled: bool, symlinks: &[bool]) -> (r: Result<(), Error>)
    ensures
        cancelled ==> (r matches Err(Error::TrashCancelled)),
        !cancelled && (exists|i: int| 0 <= i < symlinks@.len() && #[trigger] symlinks@[i]) ==> (r matches Err(Error::SourceMoved)),
        !cancelled && !(exists|i: int| 0 <= i < symlinks@.len() && #[trigger] symlinks@[i]) ==> r is Ok,
{
    if cancelled {
        return Err(Error::TrashCancelled);
    }
    let mut i: usize = 0;
    while i < symlinks.len()
        invariant
            !cancelled,
            i <= symlinks.len(),
            forall|k: int| 0 <= k < i ==> !symlinks@[k],
        decreases symlinks.len() - i,
    {
        if symlinks[i] {
            return Err(Error::SourceMoved);
        }
        i += 1;
    }
    Ok(())
}

} // verus!
