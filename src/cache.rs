//! The incremental scan cache: per-file fingerprints that decide which files
//! must be parsed again.

use vstd::prelude::*;
use vstd::string::*;
use sha2::Digest;
use crate::asset::AssetInfo;
use vstd::utf8::{encode_utf8, encode_utf8_decode_utf8};
use crate::text::{hex, hex_text, str_eq, bytes_lt, bytes_cmp, lemma_bytes_lt_irreflexive, lemma_bytes_lt_trans};

verus! {

/// What SHA-256 yields for the given bytes.
pub uninterp spec fn sha256_of(b: Seq<u8>) -> Seq<u8>;

/// Relies on `sha2::Sha256::digest`: the 32-byte SHA-256 digest of the input.
#[verifier::external_body]
fn sha256(b: &[u8]) -> (r: Vec<u8>)
    ensures
        r@ == sha256_of(b@),
        r@.len() == 32,
{
    sha2::Sha256::digest(b).to_vec()
}

/// Bytes written as lower-case hexadecimal, two digits each.
pub open spec fn bytes_hex(b: Seq<u8>) -> Seq<char>
    decreases b.len(),
{
    if b.len() == 0 {
        seq![]
    } else {
        bytes_hex(b.drop_last()) + hex_text(b.last() as nat, 2)
    }
}

/// The cache file name of a project: the first 16 hexadecimal digits of the
/// SHA-256 digest of its path, then `.json`.
pub open spec fn cache_file_name_of(project_path: Seq<char>) -> Seq<char> {
    bytes_hex(sha256_of(vstd::utf8::encode_utf8(project_path)).subrange(0, 8)) + ".json"@
}

/// The current layout of persisted caches.
pub const CACHE_VERSION: u32 = 1;

/// What the cache knows of one file.
#[derive(Debug, Clone)]
pub struct CacheEntry {
    pub path: String,
    pub modified: u64,
    pub size: u64,
    pub asset: AssetInfo,
}

/// The cache of one project.
#[derive(Debug, Clone)]
pub struct ScanCache {
    pub version: u32,
    pub project_path: String,
    pub created: u64,
    pub entries: Vec<CacheEntry>,
}

/// The entry for `p` in `es`, if any (the first, and with distinct paths the
/// only one).
pub open spec fn entry_in(es: Seq<CacheEntry>, p: Seq<char>) -> Option<CacheEntry>
    decreases es.len(),
{
    if es.len() == 0 {
        None
    } else if es[0].path@ == p {
        Some(es[0])
    } else {
        entry_in(es.drop_first(), p)
    }
}

/// The fingerprint (modification time, size) that `c` holds for `p`.
pub open spec fn fingerprint(c: ScanCache, p: Seq<char>) -> Option<(u64, u64)> {
    match entry_in(c.entries@, p) {
        Some(e) => Some((e.modified, e.size)),
        None => None,
    }
}

/// Whether a file at `p` with modification time `m` and size `s` must be
/// parsed again: it is unknown, or either value changed.
pub open spec fn stale(c: ScanCache, p: Seq<char>, m: u64, s: u64) -> bool {
    match fingerprint(c, p) {
        Some(f) => f.0 != m || f.1 != s,
        None => true,
    }
}

proof fn lemma_entry_in_index(es: Seq<CacheEntry>, p: Seq<char>)
    ensures
        entry_in(es, p).is_some() <==> exists|i: int| 0 <= i < es.len() && #[trigger] es[i].path@ == p,
        entry_in(es, p).is_some() ==> exists|i: int|
            0 <= i < es.len() && #[trigger] es[i].path@ == p && es[i] == entry_in(es, p).unwrap(),
    decreases es.len(),
{
    if es.len() > 0 {
        lemma_entry_in_index(es.drop_first(), p);
        if es[0].path@ != p {
            assert forall|i: int| 1 <= i < es.len() implies es[i] == es.drop_first()[i - 1] by {}
            if exists|i: int| 0 <= i < es.len() && #[trigger] es[i].path@ == p {
                let i = choose|i: int| 0 <= i < es.len() && #[trigger] es[i].path@ == p;
                assert(es.drop_first()[i - 1].path@ == p);
            }
            if entry_in(es, p).is_some() {
                let j = choose|j: int|
                    0 <= j < es.drop_first().len() && #[trigger] es.drop_first()[j].path@ == p
                        && es.drop_first()[j] == entry_in(es.drop_first(), p).unwrap();
                assert(es[j + 1] == es.drop_first()[j]);
            }
        }
    }
}

proof fn lemma_entry_in_unique(es: Seq<CacheEntry>, i: int)
    requires
        0 <= i < es.len(),
        distinct_paths(es),
    ensures
        entry_in(es, es[i].path@) == Some(es[i]),
    decreases es.len(),
{
    if i > 0 {
        assert(es[0].path@ != es[i].path@);
        let d = es.drop_first();
        assert(d[i - 1] == es[i]);
        lemma_entry_in_unique(d, i - 1);
    }
}

/// The sort key of an entry: the UTF-8 bytes of its path.
pub open spec fn path_key(e: CacheEntry) -> Seq<u8> {
    encode_utf8(e.path@)
}

/// Entries in strictly increasing order of path bytes.
pub open spec fn sorted_entries(es: Seq<CacheEntry>) -> bool {
    forall|a: int, b: int| 0 <= a < b < es.len() ==> bytes_lt(path_key(es[a]), path_key(es[b]))
}

/// Entry paths are pairwise distinct.
pub open spec fn distinct_paths(es: Seq<CacheEntry>) -> bool {
    forall|a: int, b: int| 0 <= a < b < es.len() ==> es[a].path@ != es[b].path@
}

proof fn lemma_sorted_distinct(es: Seq<CacheEntry>)
    requires
        sorted_entries(es),
    ensures
        distinct_paths(es),
{
    assert forall|a: int, b: int| 0 <= a < b < es.len() implies es[a].path@ != es[b].path@ by {
        assert(bytes_lt(path_key(es[a]), path_key(es[b])));
        if es[a].path@ == es[b].path@ {
            lemma_bytes_lt_irreflexive(path_key(es[a]));
        }
    }
}

proof fn lemma_key_determines_path(x: Seq<char>, y: Seq<char>)
    ensures
        (encode_utf8(x) == encode_utf8(y)) == (x == y),
{
    encode_utf8_decode_utf8(x);
    encode_utf8_decode_utf8(y);
}

proof fn lemma_sorted_from_steps(es: Seq<CacheEntry>)
    requires
        forall|i: int| 0 <= i < es.len() - 1 ==> bytes_lt(path_key(#[trigger] es[i]), path_key(es[i + 1])),
    ensures
        sorted_entries(es),
{
    assert forall|a: int, b: int| 0 <= a < b < es.len() implies bytes_lt(path_key(es[a]), path_key(es[b])) by {
        lemma_steps_chain(es, a, b);
    }
}

proof fn lemma_steps_chain(es: Seq<CacheEntry>, a: int, b: int)
    requires
        0 <= a < b < es.len(),
        forall|i: int| 0 <= i < es.len() - 1 ==> bytes_lt(path_key(#[trigger] es[i]), path_key(es[i + 1])),
    ensures
        bytes_lt(path_key(es[a]), path_key(es[b])),
    decreases b - a,
{
    if b > a + 1 {
        lemma_steps_chain(es, a, b - 1);
        assert(bytes_lt(path_key(es[b - 1]), path_key(es[b])));
        lemma_bytes_lt_trans(path_key(es[a]), path_key(es[b - 1]), path_key(es[b]));
    }
}

impl ScanCache {
    /// Entries are ordered by the bytes of their paths, so paths are distinct.
    pub open spec fn wf(&self) -> bool {
        sorted_entries(self.entries@)
    }

    /// An empty cache for `project_path`, created at `created` (seconds since
    /// the Unix epoch).
    pub fn new(project_path: &str, created: u64) -> (r: ScanCache)
        ensures
            r.wf(),
            r.version == CACHE_VERSION,
            r.project_path@ == project_path@,
            r.created == created,
            r.entries@.len() == 0,
    {
        ScanCache {
            version: CACHE_VERSION,
            project_path: String::from_str(project_path),
            created,
            entries: Vec::new(),
        }
    }

    /// The name of the file that holds the cache of `project_path`.
    pub fn cache_file_name(project_path: &str) -> (r: String)
        ensures
            r@ == cache_file_name_of(project_path@),
    {
        let digest = sha256(project_path.as_bytes());
        let mut name = String::new();
        let mut i: usize = 0;
        while i < 8
            invariant
                0 <= i <= 8,
                digest@.len() == 32,
                name@ == bytes_hex(digest@.subrange(0, i as int)),
            decreases 8 - i,
        {
            let h = hex(digest[i] as u64, 2);
            name.append(h.as_str());
            assert(digest@.subrange(0, i + 1).drop_last() =~= digest@.subrange(0, i as int));
            i = i + 1;
        }
        name.append(".json");
        name
    }

    /// Whether the entries are in path order, as a loaded cache must be
    /// before it is used.
    pub fn is_well_formed(&self) -> (r: bool)
        ensures
            r == self.wf(),
    {
        let n = self.entries.len();
        if n == 0 {
            return true;
        }
        let mut i: usize = 0;
        while i < n - 1
            invariant
                n == self.entries@.len(),
                n >= 1,
                0 <= i <= n - 1,
                forall|j: int| 0 <= j < i ==> bytes_lt(path_key(#[trigger] self.entries@[j]), path_key(self.entries@[j + 1])),
            decreases n - 1 - i,
        {
            if bytes_cmp(self.entries[i].path.as_str().as_bytes(), self.entries[i + 1].path.as_str().as_bytes()) >= 0 {
                assert(!bytes_lt(path_key(self.entries@[i as int]), path_key(self.entries@[i + 1])));
                assert(!sorted_entries(self.entries@)) by {
                    if sorted_entries(self.entries@) {
                        assert(bytes_lt(path_key(self.entries@[i as int]), path_key(self.entries@[i + 1])));
                    }
                }
                return false;
            }
            i = i + 1;
        }
        proof {
            lemma_sorted_from_steps(self.entries@);
        }
        true
    }

    /// Where entries with path bytes `key` are, or would be inserted.
    fn locate(&self, key: &[u8]) -> (r: (bool, usize))
        requires
            self.wf(),
        ensures
            r.1 <= self.entries@.len(),
            forall|k: int| 0 <= k < r.1 ==> bytes_lt(path_key(#[trigger] self.entries@[k]), key@),
            r.0 ==> r.1 < self.entries@.len() && path_key(self.entries@[r.1 as int]) == key@,
            !r.0 ==> forall|k: int| r.1 <= k < self.entries@.len() ==> bytes_lt(key@, path_key(#[trigger] self.entries@[k])),
    {
        let mut lo: usize = 0;
        let mut hi: usize = self.entries.len();
        while lo < hi
            invariant
                0 <= lo <= hi <= self.entries@.len(),
                self.wf(),
                forall|k: int| 0 <= k < lo ==> bytes_lt(path_key(#[trigger] self.entries@[k]), key@),
                forall|k: int| hi <= k < self.entries@.len() ==> bytes_lt(key@, path_key(#[trigger] self.entries@[k])),
            decreases hi - lo,
        {
            let mid = lo + (hi - lo) / 2;
            let c = bytes_cmp(self.entries[mid].path.as_str().as_bytes(), key);
            let ghost km = path_key(self.entries@[mid as int]);
            if c < 0 {
                proof {
                    assert forall|k: int| 0 <= k < mid + 1 implies bytes_lt(path_key(#[trigger] self.entries@[k]), key@) by {
                        if k < mid {
                            lemma_bytes_lt_trans(path_key(self.entries@[k]), km, key@);
                        }
                    }
                }
                lo = mid + 1;
            } else if c > 0 {
                proof {
                    assert forall|k: int| mid <= k < self.entries@.len() implies bytes_lt(key@, path_key(#[trigger] self.entries@[k])) by {
                        if k > mid {
                            lemma_bytes_lt_trans(key@, km, path_key(self.entries@[k]));
                        }
                    }
                }
                hi = mid;
            } else {
                proof {
                    assert forall|k: int| 0 <= k < mid implies bytes_lt(path_key(#[trigger] self.entries@[k]), key@) by {
                        assert(bytes_lt(path_key(self.entries@[k]), km));
                    }
                }
                return (true, mid);
            }
        }
        (false, lo)
    }

    /// Whether a loaded cache may be trusted for `project_path`: it has the
    /// current layout and belongs to that project.
    pub fn is_valid_for(&self, project_path: &str) -> (r: bool)
        ensures
            r == (self.version == CACHE_VERSION && self.project_path@ == project_path@),
    {
        self.version == CACHE_VERSION && str_eq(self.project_path.as_str(), project_path)
    }

    /// Whether the file at `path` must be parsed again.
    pub fn needs_rescan(&self, path: &str, modified: u64, size: u64) -> (r: bool)
        requires
            self.wf(),
        ensures
            r == stale(*self, path@, modified, size),
    {
        let key = path.as_bytes();
        let (found, pos) = self.locate(key);
        proof {
            lemma_sorted_distinct(self.entries@);
        }
        if found {
            proof {
                lemma_key_determines_path(self.entries@[pos as int].path@, path@);
                lemma_entry_in_unique(self.entries@, pos as int);
            }
            return self.entries[pos].modified != modified || self.entries[pos].size != size;
        }
        proof {
            assert forall|k: int| 0 <= k < self.entries@.len() implies #[trigger] self.entries@[k].path@ != path@ by {
                lemma_key_determines_path(self.entries@[k].path@, path@);
                if self.entries@[k].path@ == path@ {
                    lemma_bytes_lt_irreflexive(key@);
                }
            }
            lemma_entry_in_index(self.entries@, path@);
        }
        true
    }

    /// Records `asset` with its modification time, replacing any entry for
    /// its path.
    pub fn update_entry(&mut self, asset: AssetInfo, modified: u64)
        requires
            old(self).wf(),
        ensures
            final(self).wf(),
            final(self).version == old(self).version,
            final(self).project_path == old(self).project_path,
            entry_in(final(self).entries@, asset.path@) == Some(
                CacheEntry { path: asset.path, modified, size: asset.size, asset },
            ),
            fingerprint(*final(self), asset.path@) == Some((modified, asset.size)),
            forall|p: Seq<char>|
                p != asset.path@ ==> #[trigger] entry_in(final(self).entries@, p) == entry_in(
                    old(self).entries@,
                    p,
                ),
    {
        let ghost old_es = self.entries@;
        let entry = CacheEntry { path: asset.path.clone(), modified, size: asset.size, asset };
        let (found, pos) = self.locate(entry.path.as_str().as_bytes());
        proof {
            lemma_sorted_distinct(old_es);
        }
        if found {
            self.entries.set(pos, entry);
            proof {
                let es = self.entries@;
                lemma_key_determines_path(old_es[pos as int].path@, entry.path@);
                assert(sorted_entries(es)) by {
                    assert forall|a: int, b: int| 0 <= a < b < es.len() implies bytes_lt(path_key(es[a]), path_key(es[b])) by {
                        assert(path_key(es[a]) == path_key(old_es[a]));
                        assert(path_key(es[b]) == path_key(old_es[b]));
                    }
                }
                lemma_sorted_distinct(es);
                lemma_entry_in_unique(es, pos as int);
                assert forall|p: Seq<char>| p != asset.path@ implies #[trigger] entry_in(es, p) == entry_in(old_es, p) by {
                    lemma_entry_in_index(es, p);
                    lemma_entry_in_index(old_es, p);
                    if entry_in(es, p).is_some() {
                        let k = choose|k: int| 0 <= k < es.len() && #[trigger] es[k].path@ == p && es[k] == entry_in(es, p).unwrap();
                        assert(k != pos);
                        assert(old_es[k] == es[k]);
                        lemma_entry_in_unique(old_es, k);
                        lemma_entry_in_unique(es, k);
                    } else if entry_in(old_es, p).is_some() {
                        let k = choose|k: int| 0 <= k < old_es.len() && #[trigger] old_es[k].path@ == p && old_es[k] == entry_in(old_es, p).unwrap();
                        assert(k != pos);
                        assert(es[k] == old_es[k]);
                    }
                }
            }
        } else {
            self.entries.insert(pos, entry);
            proof {
                let es = self.entries@;
                let key = path_key(entry);
                assert forall|k: int| 0 <= k < old_es.len() implies #[trigger] old_es[k].path@ != entry.path@ by {
                    lemma_key_determines_path(old_es[k].path@, entry.path@);
                    if old_es[k].path@ == entry.path@ {
                        lemma_bytes_lt_irreflexive(key);
                    }
                }
                assert(sorted_entries(es)) by {
                    assert forall|a: int, b: int| 0 <= a < b < es.len() implies bytes_lt(path_key(es[a]), path_key(es[b])) by {
                        if b < pos {
                            assert(es[a] == old_es[a] && es[b] == old_es[b]);
                        } else if b == pos {
                            assert(es[a] == old_es[a]);
                        } else if a < pos {
                            assert(es[a] == old_es[a] && es[b] == old_es[b - 1]);
                            lemma_bytes_lt_trans(path_key(old_es[a]), key, path_key(old_es[b - 1]));
                        } else if a == pos {
                            assert(es[b] == old_es[b - 1]);
                        } else {
                            assert(es[a] == old_es[a - 1] && es[b] == old_es[b - 1]);
                        }
                    }
                }
                lemma_sorted_distinct(es);
                lemma_entry_in_unique(es, pos as int);
                assert forall|p: Seq<char>| p != asset.path@ implies #[trigger] entry_in(es, p) == entry_in(old_es, p) by {
                    lemma_entry_in_index(es, p);
                    lemma_entry_in_index(old_es, p);
                    if entry_in(es, p).is_some() {
                        let k = choose|k: int| 0 <= k < es.len() && #[trigger] es[k].path@ == p && es[k] == entry_in(es, p).unwrap();
                        assert(k != pos);
                        let k2 = if k < pos { k } else { k - 1 };
                        assert(old_es[k2] == es[k]);
                        lemma_entry_in_unique(old_es, k2);
                        lemma_entry_in_unique(es, k);
                    } else if entry_in(old_es, p).is_some() {
                        let k = choose|k: int| 0 <= k < old_es.len() && #[trigger] old_es[k].path@ == p && old_es[k] == entry_in(old_es, p).unwrap();
                        let k2 = if k < pos { k } else { k + 1 };
                        assert(es[k2] == old_es[k]);
                    }
                }
            }
        }
    }

    /// Drops the entries of files that no longer exist.
    pub fn prune(&mut self, existing_paths: &Vec<String>)
        requires
            old(self).wf(),
        ensures
            final(self).wf(),
            final(self).version == old(self).version,
            final(self).project_path == old(self).project_path,
            forall|p: Seq<char>| #[trigger]
                entry_in(final(self).entries@, p) == if existing_paths@.map_values(
                    |s: String| s@,
                ).contains(p) {
                    entry_in(old(self).entries@, p)
                } else {
                    None
                },
    {
        let ghost old_es = self.entries@;
        let ghost names = existing_paths@.map_values(|s: String| s@);
        proof {
            lemma_sorted_distinct(old_es);
        }
        let n = self.entries.len();
        let mut keep: Vec<bool> = Vec::new();
        let mut j: usize = 0;
        while j < n
            invariant
                n == old_es.len(),
                self.entries@ == old_es,
                0 <= j <= n,
                keep@.len() == j,
                forall|k: int| 0 <= k < j ==> !(#[trigger] keep@[k]),
            decreases n - j,
        {
            keep.push(false);
            j = j + 1;
        }
        let mut q: usize = 0;
        while q < existing_paths.len()
            invariant
                n == old_es.len(),
                self.entries@ == old_es,
                self.wf(),
                distinct_paths(old_es),
                names == existing_paths@.map_values(|s: String| s@),
                keep@.len() == n,
                0 <= q <= existing_paths@.len(),
                forall|k: int| 0 <= k < n ==> #[trigger] keep@[k] == exists|x: int| 0 <= x < q && names[x] == old_es[k].path@,
            decreases existing_paths.len() - q,
        {
            assert(names[q as int] == existing_paths@[q as int]@);
            let (found, pos) = self.locate(existing_paths[q].as_str().as_bytes());
            let ghost before = keep@;
            if found {
                keep.set(pos, true);
                proof {
                    lemma_key_determines_path(old_es[pos as int].path@, names[q as int]);
                }
            }
            proof {
                assert forall|k: int| 0 <= k < n implies #[trigger] keep@[k] == exists|x: int| 0 <= x < q + 1 && names[x] == old_es[k].path@ by {
                    lemma_key_determines_path(old_es[k].path@, names[q as int]);
                    if old_es[k].path@ == names[q as int] {
                        if !found {
                            lemma_bytes_lt_irreflexive(encode_utf8(names[q as int]));
                        } else if k != pos {
                            assert(old_es[pos as int].path@ == old_es[k].path@);
                        }
                        assert(0 <= q < q + 1 && names[q as int] == old_es[k].path@);
                    } else {
                        if found {
                            assert(k != pos);
                        }
                        assert(keep@[k] == before[k]);
                        if exists|x: int| 0 <= x < q + 1 && names[x] == old_es[k].path@ {
                            let x = choose|x: int| 0 <= x < q + 1 && names[x] == old_es[k].path@;
                            assert(x < q);
                        }
                    }
                }
            }
            q = q + 1;
        }
        let mut kept: Vec<CacheEntry> = Vec::new();
        let ghost mut idx: Seq<int> = seq![];
        let mut i: usize = 0;
        while i < n
            invariant
                n == old_es.len(),
                self.entries@ == old_es,
                keep@.len() == n,
                names == existing_paths@.map_values(|s: String| s@),
                forall|k: int| 0 <= k < n ==> #[trigger] keep@[k] == exists|x: int| 0 <= x < existing_paths@.len() && names[x] == old_es[k].path@,
                0 <= i <= n,
                idx.len() == kept@.len(),
                forall|k: int| 0 <= k < idx.len() ==> 0 <= #[trigger] idx[k] < i && kept@[k] == old_es[idx[k]],
                forall|a: int, b: int| 0 <= a < b < idx.len() ==> idx[a] < idx[b],
                forall|j: int| 0 <= j < i ==> (names.contains(old_es[j].path@) <==> exists|k: int| 0 <= k < idx.len() && #[trigger] idx[k] == j),
            decreases n - i,
        {
            let ghost old_idx = idx;
            if keep[i] {
                let e = CacheEntry {
                    path: self.entries[i].path.clone(),
                    modified: self.entries[i].modified,
                    size: self.entries[i].size,
                    asset: self.entries[i].asset.copy(),
                };
                kept.push(e);
                proof {
                    idx = idx.push(i as int);
                    assert(idx[idx.len() - 1] == i);
                }
            }
            proof {
                assert(keep@[i as int] == names.contains(old_es[i as int].path@)) by {
                    if names.contains(old_es[i as int].path@) {
                        let x = choose|x: int| 0 <= x < names.len() && names[x] == old_es[i as int].path@;
                        assert(names[x] == old_es[i as int].path@);
                    }
                }
                assert forall|j: int| 0 <= j < i + 1 implies (names.contains(old_es[j].path@) <==> exists|k: int| 0 <= k < idx.len() && #[trigger] idx[k] == j) by {
                    if j < i {
                        if names.contains(old_es[j].path@) {
                            let k = choose|k: int| 0 <= k < old_idx.len() && #[trigger] old_idx[k] == j;
                            assert(idx[k] == old_idx[k]);
                        }
                        if exists|k: int| 0 <= k < idx.len() && #[trigger] idx[k] == j {
                            let k = choose|k: int| 0 <= k < idx.len() && #[trigger] idx[k] == j;
                            assert(k < old_idx.len());
                            assert(old_idx[k] == j);
                        }
                    } else {
                        if keep@[i as int] {
                            assert(idx[idx.len() - 1] == j);
                        } else {
                            if exists|k: int| 0 <= k < idx.len() && #[trigger] idx[k] == j {
                                let k = choose|k: int| 0 <= k < idx.len() && #[trigger] idx[k] == j;
                                assert(old_idx[k] < i);
                            }
                        }
                    }
                }
            }
            i = i + 1;
        }
        proof {
            let es = kept@;
            assert forall|a: int, b: int| 0 <= a < b < es.len() implies bytes_lt(path_key(es[a]), path_key(es[b])) by {
                assert(idx[a] < idx[b]);
            }
            lemma_sorted_distinct(es);
            assert forall|p: Seq<char>| #[trigger] entry_in(es, p) == if names.contains(p) {
                entry_in(old_es, p)
            } else {
                None
            } by {
                lemma_entry_in_index(es, p);
                lemma_entry_in_index(old_es, p);
                if entry_in(old_es, p).is_some() {
                    let j = choose|j: int| 0 <= j < old_es.len() && #[trigger] old_es[j].path@ == p && old_es[j] == entry_in(old_es, p).unwrap();
                    if names.contains(p) {
                        let k = choose|k: int| 0 <= k < idx.len() && #[trigger] idx[k] == j;
                        assert(es[k] == old_es[j]);
                        lemma_entry_in_unique(es, k);
                    } else if entry_in(es, p).is_some() {
                        let k = choose|k: int| 0 <= k < es.len() && #[trigger] es[k].path@ == p && es[k] == entry_in(es, p).unwrap();
                        lemma_entry_in_unique(old_es, idx[k]);
                        assert(names.contains(old_es[idx[k]].path@));
                    }
                } else if entry_in(es, p).is_some() {
                    let k = choose|k: int| 0 <= k < es.len() && #[trigger] es[k].path@ == p && es[k] == entry_in(es, p).unwrap();
                    assert(old_es[idx[k]].path@ == p);
                }
            }
        }
        self.entries = kept;
    }

    /// The cached assets, in entry order.
    pub fn get_assets(&self) -> (r: Vec<AssetInfo>)
        ensures
            r@ == self.entries@.map_values(|e: CacheEntry| e.asset),
    {
        let mut r: Vec<AssetInfo> = Vec::new();
        let mut i: usize = 0;
        while i < self.entries.len()
            invariant
                0 <= i <= self.entries.len(),
                r@ == self.entries@.subrange(0, i as int).map_values(|e: CacheEntry| e.asset),
            decreases self.entries.len() - i,
        {
            r.push(self.entries[i].asset.copy());
            assert(self.entries@.subrange(0, i + 1).map_values(|e: CacheEntry| e.asset) =~= self.entries@.subrange(0, i as int).map_values(|e: CacheEntry| e.asset).push(self.entries@[i as int].asset));
            i = i + 1;
        }
        assert(self.entries@.subrange(0, i as int) =~= self.entries@);
        r
    }
}

/// Keeps a loaded cache only if it may be trusted for `project_path`;
/// anything else counts as no cache.
pub fn accept_loaded(loaded: Option<ScanCache>, project_path: &str) -> (r: Option<ScanCache>)
    ensures
        r.is_some() <==> (loaded.is_some() && loaded.unwrap().version == CACHE_VERSION
            && loaded.unwrap().project_path@ == project_path@),
        r.is_some() ==> r == loaded,
{
    match loaded {
        Some(c) => if c.is_valid_for(project_path) {
            Some(c)
        } else {
            None
        },
        None => None,
    }
}

/// Right after an entry with fingerprint (m, s) is recorded for `p`, a file
/// at `p` with that fingerprint needs no rescan, and a change of either value
/// makes it need one.
pub proof fn law_rescan_after_caching(c: ScanCache, p: Seq<char>, m: u64, s: u64, m2: u64, s2: u64)
    requires
        fingerprint(c, p) == Some((m, s)),
    ensures
        !stale(c, p, m, s),
        (m2 != m || s2 != s) ==> stale(c, p, m2, s2),
{
}

} // verus!
