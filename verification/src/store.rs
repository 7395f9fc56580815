//! A store of contents, each kept under the digest of its bytes.

use crate::dag::FileKey;
use blake2::Digest;
use vstd::prelude::*;

verus! {

/// The BLAKE2s digest, 256 bits wide, of `content`, its first sixteen
/// bytes as the most significant half of the key and its last sixteen
/// as the least, each half read with the most significant byte first.
pub uninterp spec fn blake2s(content: Seq<u8>) -> FileKey;

/// The digest of `content`.
///
/// Calls `Digest::digest` of the `blake2` crate on `Blake2s256`, which
/// hashes the bytes it is given and nothing else; the contract gives
/// that result its name.
#[verifier::external_body]
fn digest_bytes(content: &Vec<u8>) -> (key: FileKey)
    ensures
        key == blake2s(content@),
{
    let out = blake2::Blake2s256::digest(content);
    let mut hi = [0u8; 16];
    let mut lo = [0u8; 16];
    hi.copy_from_slice(&out[..16]);
    lo.copy_from_slice(&out[16..]);
    FileKey { hi: u128::from_be_bytes(hi), lo: u128::from_be_bytes(lo) }
}

/// The key of `content`: the digest of its bytes.
pub fn key_of(content: &Vec<u8>) -> (key: FileKey)
    ensures
        key == blake2s(content@),
{
    digest_bytes(content)
}

/// The bytes of `chunks`, one chunk after the other.
pub open spec fn concat(chunks: Seq<Vec<u8>>) -> Seq<u8>
    decreases chunks.len(),
{
    if chunks.len() == 0 {
        Seq::empty()
    } else {
        concat(chunks.drop_last()) + chunks.last()@
    }
}

/// Puts the chunks of a stream together.
pub fn assemble(chunks: &Vec<Vec<u8>>) -> (content: Vec<u8>)
    ensures
        content@ == concat(chunks@),
{
    let mut content: Vec<u8> = Vec::new();
    let mut i: usize = 0;
    assert(chunks@.take(0) == Seq::<Vec<u8>>::empty());
    while i < chunks.len()
        invariant
            i <= chunks@.len(),
            content@ == concat(chunks@.take(i as int)),
        decreases chunks@.len() - i,
    {
        let chunk = &chunks[i];
        let mut j: usize = 0;
        let ghost before = content@;
        while j < chunk.len()
            invariant
                j <= chunk@.len(),
                content@ == before + chunk@.take(j as int),
            decreases chunk@.len() - j,
        {
            content.push(chunk[j]);
            assert(chunk@.take(j + 1) == chunk@.take(j as int).push(chunk@[j as int]));
            j += 1;
        }
        assert(chunk@.take(j as int) == chunk@);
        assert(chunks@.take(i + 1).drop_last() == chunks@.take(i as int));
        i += 1;
    }
    assert(chunks@.take(i as int) == chunks@);
    content
}

/// A content and its key.
#[derive(Debug)]
pub struct Blob {
    /// The digest of the bytes.
    pub key: FileKey,
    /// The bytes.
    pub bytes: Vec<u8>,
}

/// Contents kept under their keys.
#[derive(Debug)]
pub struct FileStore {
    blobs: Vec<Blob>,
}

/// Whether a blob of `blobs` has the key `key`.
pub open spec fn kept(blobs: Seq<Blob>, key: FileKey) -> bool {
    exists|i: int| 0 <= i < blobs.len() && (#[trigger] blobs[i]).key == key
}

/// The place in `blobs` of the blob with the key `key`; meaningful where
/// there is one.
pub open spec fn place_of_key(blobs: Seq<Blob>, key: FileKey) -> int {
    choose|i: int| 0 <= i < blobs.len() && (#[trigger] blobs[i]).key == key
}

impl FileStore {
    /// What holds of every store: each content lies under its digest,
    /// and under no key lie two contents.
    #[verifier::type_invariant]
    spec fn sound(self) -> bool {
        &&& forall|i: int|
            0 <= i < self.blobs@.len() ==> (#[trigger] self.blobs@[i]).key == blake2s(
                self.blobs@[i].bytes@,
            )
        &&& forall|i: int, j: int|
            0 <= i < self.blobs@.len() && 0 <= j < self.blobs@.len() && (
            #[trigger] self.blobs@[i]).key == (#[trigger] self.blobs@[j]).key ==> i == j
    }

    /// Whether a content lies under `key`.
    pub closed spec fn holds(&self, key: FileKey) -> bool {
        kept(self.blobs@, key)
    }

    /// The content under `key`; meaningful where there is one.
    pub closed spec fn content(&self, key: FileKey) -> Seq<u8> {
        self.blobs@[place_of_key(self.blobs@, key)].bytes@
    }

    /// Whether `new` is `self` with contents added under the keys
    /// `keys`: what lay in `self` lies in `new` as it was, under each
    /// of `keys` lies a content of which the key is the digest, and
    /// nothing else lies in `new`.
    pub open spec fn grown_to(&self, keys: Seq<FileKey>, new: &FileStore) -> bool {
        &&& forall|key: FileKey| #[trigger]
            self.holds(key) ==> new.holds(key) && new.content(key) == self.content(key)
        &&& forall|i: int|
            0 <= i < keys.len() ==> new.holds(#[trigger] keys[i]) && blake2s(new.content(keys[i]))
                == keys[i]
        &&& forall|key: FileKey| #[trigger] new.holds(key) ==> self.holds(key) || keys.contains(key)
    }

    /// An empty store.
    pub fn new() -> (store: FileStore)
        ensures
            forall|key: FileKey| !store.holds(key),
    {
        FileStore { blobs: Vec::new() }
    }

    /// Where the content under `key` lies.
    fn find(&self, key: FileKey) -> (at: Option<usize>)
        ensures
            match at {
                Some(i) => i < self.blobs@.len() && self.blobs@[i as int].key == key
                    && place_of_key(self.blobs@, key) == i,
                None => !kept(self.blobs@, key),
            },
    {
        proof {
            use_type_invariant(self);
        }
        let mut i: usize = 0;
        while i < self.blobs.len()
            invariant
                i <= self.blobs@.len(),
                forall|a: int, b: int|
                    0 <= a < self.blobs@.len() && 0 <= b < self.blobs@.len() && (
                    #[trigger] self.blobs@[a]).key == (#[trigger] self.blobs@[b]).key ==> a == b,
                forall|k: int| 0 <= k < i ==> (#[trigger] self.blobs@[k]).key != key,
            decreases self.blobs@.len() - i,
        {
            if self.blobs[i].key.hi == key.hi && self.blobs[i].key.lo == key.lo {
                proof {
                    let at = place_of_key(self.blobs@, key);
                    assert(self.blobs@[i as int].key == key);
                    assert(self.blobs@[at].key == key);
                }
                return Some(i);
            }
            i += 1;
        }
        None
    }

    /// The keys under which contents lie, in the order in which the
    /// contents came.
    pub fn keys(&self) -> (keys: Vec<FileKey>)
        ensures
            forall|key: FileKey| keys@.contains(key) <==> self.holds(key),
            keys@.no_duplicates(),
    {
        proof {
            use_type_invariant(self);
        }
        let mut keys: Vec<FileKey> = Vec::new();
        let mut i: usize = 0;
        while i < self.blobs.len()
            invariant
                i <= self.blobs@.len(),
                keys@.len() == i,
                forall|k: int| 0 <= k < i ==> #[trigger] keys@[k] == self.blobs@[k].key,
            decreases self.blobs@.len() - i,
        {
            keys.push(self.blobs[i].key);
            i += 1;
        }
        proof {
            assert forall|key: FileKey| keys@.contains(key) <==> self.holds(key) by {
                if keys@.contains(key) {
                    let k = choose|k: int| 0 <= k < keys@.len() && keys@[k] == key;
                    assert(self.blobs@[k].key == key);
                }
                if self.holds(key) {
                    let k = choose|k: int|
                        0 <= k < self.blobs@.len() && (#[trigger] self.blobs@[k]).key == key;
                    assert(keys@[k] == key);
                }
            }
            assert forall|a: int, b: int|
                0 <= a < keys@.len() && 0 <= b < keys@.len() && a != b implies keys@[a]
                != keys@[b] by {
                assert(self.blobs@[a].key == keys@[a]);
                assert(self.blobs@[b].key == keys@[b]);
            }
        }
        keys
    }

    /// Whether a content lies under `key`.
    pub fn contains(&self, key: FileKey) -> (yes: bool)
        ensures
            yes == self.holds(key),
    {
        self.find(key).is_some()
    }

    /// The content under `key`.
    pub fn get(&self, key: FileKey) -> (found: Option<&Vec<u8>>)
        ensures
            found is Some == self.holds(key),
            found matches Some(bytes) ==> bytes@ == self.content(key) && blake2s(bytes@) == key,
    {
        proof {
            use_type_invariant(self);
        }
        match self.find(key) {
            Some(i) => Some(&self.blobs[i].bytes),
            None => None,
        }
    }

    /// Keeps `content` under its digest, and returns the digest. A
    /// content that lies under that key already stays.
    pub fn insert(&mut self, content: Vec<u8>) -> (key: FileKey)
        ensures
            key == blake2s(content@),
            final(self).holds(key),
            blake2s(final(self).content(key)) == key,
            !old(self).holds(key) ==> final(self).content(key) == content@,
            forall|other: FileKey|
                other != key ==> final(self).holds(other) == old(self).holds(other),
            forall|other: FileKey|
                old(self).holds(other) ==> final(self).content(other) == old(self).content(other),
    {
        proof {
            use_type_invariant(&*self);
        }
        let key = digest_bytes(&content);
        match self.find(key) {
            Some(_) => {},
            None => {
                let mut blobs: Vec<Blob> = Vec::new();
                std::mem::swap(&mut self.blobs, &mut blobs);
                let ghost blobs0 = blobs@;
                blobs.push(Blob { key, bytes: content });
                proof {
                    assert(blobs@[blobs0.len() as int].key == key);
                    assert forall|other: FileKey| kept(blobs0, other) implies place_of_key(
                        blobs@,
                        other,
                    ) == place_of_key(blobs0, other) by {
                        let at = place_of_key(blobs0, other);
                        assert(blobs@[at].key == other);
                        let now = place_of_key(blobs@, other);
                        assert(blobs@[now].key == other);
                    }
                    assert forall|other: FileKey| other != key implies kept(blobs@, other) == kept(
                        blobs0,
                        other,
                    ) by {
                        if kept(blobs@, other) {
                            let at = choose|at: int|
                                0 <= at < blobs@.len() && (#[trigger] blobs@[at]).key == other;
                            assert(blobs0[at].key == other);
                        }
                        if kept(blobs0, other) {
                            let at = choose|at: int|
                                0 <= at < blobs0.len() && (#[trigger] blobs0[at]).key == other;
                            assert(blobs@[at].key == other);
                        }
                    }
                    assert(kept(blobs@, key));
                    let at = place_of_key(blobs@, key);
                    assert(blobs@[at].key == key);
                    assert(at == blobs0.len()) by {
                        if at < blobs0.len() {
                            assert(blobs0[at].key == key);
                        }
                    }
                }
                std::mem::swap(&mut self.blobs, &mut blobs);
            },
        }
        key
    }
}

} // verus!
