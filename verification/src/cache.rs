//! Content-addressed compression cache.
//!
//! Input bytes are identified by their digest. Identical content seen twice
//! in one run is deduplicated in memory; across runs, compressed results are
//! looked up in a snapshot of the on-disk cache keyed by `(digest, level)`,
//! and fresh results are queued for persistence. Statistics for hits,
//! misses and deduplication are tracked exactly.

use vstd::prelude::*;
use crate::text::{dec_of, u64_to_dec, str_eq, lex_lt, str_lt, lemma_lex_lt_connected, lemma_push_to_set};

verus! {

/// Name for the digest that blake3 computes for a byte sequence, rendered
/// as lowercase hex.
pub uninterp spec fn blake3_hex(data: Seq<u8>) -> Seq<char>;

/// Relies on blake3::hash and blake3::Hash::to_hex: a 64-character
/// lowercase-hex digest of the input bytes, a function of the bytes alone.
#[verifier::external_body]
fn blake3_hex_digest(data: &[u8]) -> (r: String)
    ensures
        r@ == blake3_hex(data@),
        r@.len() == 64,
{
    blake3::hash(data).to_hex().to_string()
}

/// Name for the zstd frame that zstd::encode_all produces from bytes at a
/// compression level.
pub uninterp spec fn zstd_of(data: Seq<u8>, level: int) -> Seq<u8>;

/// Relies on zstd::encode_all: deterministic compression of the input into
/// a zstd frame, a function of the bytes and the level alone. Levels 0 to
/// 22 are the supported range (0 selects the default level); within it the
/// call does not fail on in-memory input.
#[verifier::external_body]
fn zstd_compress(data: &[u8], level: i32) -> (r: Vec<u8>)
    requires
        0 <= level <= 22,
    ensures
        r@ == zstd_of(data@, level as int),
{
    zstd::encode_all(std::io::Cursor::new(data), level).expect("zstd compression failed")
}

/// Relies on zstd::decode_all: decodes a zstd frame, failing on malformed
/// input. Decoding is the inverse of zstd::encode_all, so decoding any
/// frame that encode_all produced yields the original bytes, whatever the
/// level was.
#[verifier::external_body]
pub(crate) fn zstd_decompress(data: &[u8]) -> (r: Result<Vec<u8>, ()>)
    ensures
        forall|x: Seq<u8>, l: int|
            data@ == zstd_of(x, l) ==> r is Ok && r->Ok_0@ == x,
{
    zstd::decode_all(std::io::Cursor::new(data)).map_err(|_| ())
}

/// Saturating addition at the machine word limit.
pub open spec fn sat_add(a: nat, b: nat) -> nat {
    if a + b <= usize::MAX {
        (a + b) as nat
    } else {
        usize::MAX as nat
    }
}

pub fn sat_add_usize(a: usize, b: usize) -> (r: usize)
    ensures
        r == sat_add(a as nat, b as nat),
{
    if b <= usize::MAX - a {
        a + b
    } else {
        usize::MAX
    }
}

/// The map an association list denotes; an earlier entry wins over a later
/// one with the same key.
pub open spec fn pairs_map(s: Seq<(Seq<char>, Seq<u8>)>) -> Map<Seq<char>, Seq<u8>>
    decreases s.len(),
{
    if s.len() == 0 {
        Map::empty()
    } else {
        pairs_map(s.drop_first()).insert(s[0].0, s[0].1)
    }
}

/// Every key in the list is in its map.
proof fn lemma_pairs_map_key(s: Seq<(Seq<char>, Seq<u8>)>, i: int)
    requires
        0 <= i < s.len(),
    ensures
        pairs_map(s).contains_key(s[i].0),
    decreases i,
{
    if i > 0 {
        lemma_pairs_map_key(s.drop_first(), i - 1);
    }
}

/// Inserting a pair with a fresh key at any position inserts it into the
/// map.
proof fn lemma_pairs_map_insert(s: Seq<(Seq<char>, Seq<u8>)>, j: int, p: (Seq<char>, Seq<u8>))
    requires
        0 <= j <= s.len(),
        !pairs_map(s).contains_key(p.0),
    ensures
        pairs_map(s.insert(j, p)) == pairs_map(s).insert(p.0, p.1),
    decreases j,
{
    if j == 0 {
        assert(s.insert(0, p).drop_first() =~= s);
        assert(s.insert(0, p)[0] == p);
    } else {
        let t = s.drop_first();
        assert(!pairs_map(s).contains_key(p.0));
        assert(pairs_map(s) == pairs_map(t).insert(s[0].0, s[0].1));
        assert(!pairs_map(t).contains_key(p.0));
        lemma_pairs_map_insert(t, j - 1, p);
        assert(s.insert(j, p).drop_first() =~= t.insert(j - 1, p));
        assert(s.insert(j, p)[0] == s[0]);
        lemma_pairs_map_key(s, 0);
        assert(s[0].0 != p.0);
        assert(pairs_map(s.insert(j, p)) == pairs_map(t.insert(j - 1, p)).insert(s[0].0, s[0].1));
        assert(pairs_map(t).insert(p.0, p.1).insert(s[0].0, s[0].1) =~= pairs_map(t).insert(
            s[0].0,
            s[0].1,
        ).insert(p.0, p.1));
    }
}

/// Look up a key in an association list of names and byte blocks.
fn assoc_get_from<'a>(v: &'a Vec<(String, Vec<u8>)>, key: &String, i: usize) -> (r: Option<
    &'a Vec<u8>,
>)
    requires
        i <= v.len(),
    ensures
        ({
            let m = pairs_map(v.deep_view().subrange(i as int, v.len() as int));
            match r {
                Some(b) => m.contains_key(key@) && b@ == m[key@],
                None => !m.contains_key(key@),
            }
        }),
    decreases v.len() - i,
{
    if i == v.len() {
        proof {
            assert(v.deep_view().subrange(i as int, v.len() as int) =~= Seq::empty());
        }
        None
    } else {
        proof {
            assert(v.deep_view().subrange(i as int, v.len() as int).drop_first()
                =~= v.deep_view().subrange(i + 1, v.len() as int));
        }
        if str_eq(v[i].0.as_str(), key.as_str()) {
            Some(&v[i].1)
        } else {
            assoc_get_from(v, key, i + 1)
        }
    }
}

pub(crate) fn assoc_get<'a>(v: &'a Vec<(String, Vec<u8>)>, key: &String) -> (r: Option<&'a Vec<u8>>)
    ensures
        match r {
            Some(b) => pairs_map(v.deep_view()).contains_key(key@) && b@ == pairs_map(
                v.deep_view(),
            )[key@],
            None => !pairs_map(v.deep_view()).contains_key(key@),
        },
{
    proof {
        assert(v.deep_view().subrange(0, v.len() as int) =~= v.deep_view());
    }
    assoc_get_from(v, key, 0)
}

pub(crate) fn clone_bytes(v: &Vec<u8>) -> (r: Vec<u8>)
    ensures
        r@ == v@,
{
    let r = v.clone();
    proof {
        assert(r@ =~= v@);
    }
    r
}

/// Adjacent entries strictly ascending by key.
pub open spec fn sorted_by_key(s: Seq<(Seq<char>, Seq<u8>)>) -> bool {
    forall|i: int| 0 <= i < s.len() - 1 ==> lex_lt(s[i].0, #[trigger] s[i + 1].0)
}

proof fn lemma_lex_lt_trans(a: Seq<char>, b: Seq<char>, c: Seq<char>)
    requires
        lex_lt(a, b),
        lex_lt(b, c),
    ensures
        lex_lt(a, c),
    decreases a.len(),
{
    if a.len() > 0 && b.len() > 0 && c.len() > 0 && a[0] == b[0] && b[0] == c[0] {
        lemma_lex_lt_trans(a.drop_first(), b.drop_first(), c.drop_first());
    }
}

proof fn lemma_sorted_lt(s: Seq<(Seq<char>, Seq<u8>)>, i: int, j: int)
    requires
        sorted_by_key(s),
        0 <= i < j < s.len(),
    ensures
        lex_lt(s[i].0, s[j].0),
    decreases j - i,
{
    if j == i + 1 {
        assert(lex_lt(s[i].0, s[i + 1].0));
    } else {
        lemma_sorted_lt(s, i, j - 1);
        assert(lex_lt(s[j - 1].0, s[(j - 1) + 1].0));
        lemma_lex_lt_trans(s[i].0, s[j - 1].0, s[j].0)
    }
}

proof fn lemma_pairs_map_contains(s: Seq<(Seq<char>, Seq<u8>)>, k: Seq<char>)
    requires
        pairs_map(s).contains_key(k),
    ensures
        exists|i: int| 0 <= i < s.len() && s[i].0 == k,
    decreases s.len(),
{
    if s.len() > 0 && s[0].0 != k {
        lemma_pairs_map_contains(s.drop_first(), k);
        let i = choose|i: int| 0 <= i < s.drop_first().len() && s.drop_first()[i].0 == k;
        assert(s[i + 1].0 == k);
    }
}

proof fn lemma_pairs_map_len(s: Seq<(Seq<char>, Seq<u8>)>)
    requires
        forall|i: int, j: int| 0 <= i < j < s.len() ==> s[i].0 != s[j].0,
    ensures
        pairs_map(s).dom().finite(),
        pairs_map(s).dom().len() == s.len(),
    decreases s.len(),
{
    if s.len() > 0 {
        let t = s.drop_first();
        assert(forall|i: int, j: int| 0 <= i < j < t.len() ==> t[i].0 != t[j].0);
        lemma_pairs_map_len(t);
        if pairs_map(t).contains_key(s[0].0) {
            lemma_pairs_map_contains(t, s[0].0);
            let i = choose|i: int| 0 <= i < t.len() && t[i].0 == s[0].0;
            assert(s[i + 1].0 == s[0].0);
            assert(false);
        }
    }
}

/// Sorted keys are distinct.
proof fn lemma_sorted_distinct(s: Seq<(Seq<char>, Seq<u8>)>)
    requires
        sorted_by_key(s),
    ensures
        forall|i: int, j: int| 0 <= i < j < s.len() ==> s[i].0 != s[j].0,
{
    assert forall|i: int, j: int| 0 <= i < j < s.len() implies s[i].0 != s[j].0 by {
        lemma_sorted_lt(s, i, j);
        lemma_lex_lt_connected(s[i].0, s[j].0);
    }
}

/// Insert a fresh key into a key-sorted association list, keeping it
/// sorted.
fn insert_sorted(v: &mut Vec<(String, Vec<u8>)>, key: String, data: Vec<u8>)
    requires
        sorted_by_key(old(v).deep_view()),
        !pairs_map(old(v).deep_view()).contains_key(key@),
    ensures
        sorted_by_key(final(v).deep_view()),
        pairs_map(final(v).deep_view()) == pairs_map(old(v).deep_view()).insert(key@, data@),
        final(v).deep_view().len() == old(v).deep_view().len() + 1,
{
    let ghost dv = old(v).deep_view();
    let ghost k = key@;
    let ghost d = data@;
    let mut j: usize = 0;
    while j < v.len() && !str_lt(key.as_str(), v[j].0.as_str())
        invariant
            j <= v.len(),
            *v == *old(v),
            dv == v.deep_view(),
            k == key@,
            !pairs_map(dv).contains_key(k),
            forall|i: int| 0 <= i < j ==> lex_lt(#[trigger] dv[i].0, k),
        decreases v.len() - j,
    {
        proof {
            lemma_pairs_map_key(dv, j as int);
            assert(dv[j as int].0 != k);
            lemma_lex_lt_connected(dv[j as int].0, k);
            assert(lex_lt(dv[j as int].0, k));
        }
        j = j + 1;
    }
    let ghost at_end = j == v.len();
    proof {
        assert(at_end || lex_lt(k, dv[j as int].0));
    }
    let pair = (key, data);
    proof {
        assert(pair.deep_view() == (k, d));
    }
    v.insert(j, pair);
    proof {
        let t = v.deep_view();
        assert forall|x: int| 0 <= x < t.len() implies t[x] == dv.insert(j as int, (k, d))[x] by {
            if x < j {
                assert(v@[x] == old(v)@[x]);
                assert(dv.insert(j as int, (k, d))[x] == dv[x]);
            } else if x == j {
                assert(t[x] == (k, d));
                assert(dv.insert(j as int, (k, d))[x] == (k, d));
            } else {
                assert(v@[x] == old(v)@[x - 1]);
                assert(dv.insert(j as int, (k, d))[x] == dv[x - 1]);
            }
        }
        assert(t =~= dv.insert(j as int, (k, d)));
        lemma_pairs_map_insert(dv, j as int, (k, d));
        assert forall|i: int| 0 <= i < t.len() - 1 implies lex_lt(t[i].0, #[trigger] t[i + 1].0) by {
            assert(t == dv.insert(j as int, (k, d)));
            if i + 1 < j {
                assert(t[i] == dv[i] && t[i + 1] == dv[i + 1]);
                assert(lex_lt(dv[i].0, dv[i + 1].0));
            } else if i + 1 == j {
                assert(t[i] == dv[i] && t[i + 1] == (k, d));
                assert(lex_lt(dv[i].0, k));
            } else if i == j {
                assert(t[i] == (k, d) && t[i + 1] == dv[i]);
                assert(lex_lt(k, dv[i].0));
            } else {
                assert(t[i] == dv[i - 1] && t[i + 1] == dv[i]);
                assert(lex_lt(dv[i - 1].0, dv[(i - 1) + 1].0));
            }
        }
    }
}

/// Information about one compressed blob: the content digest in hex, and
/// the compressed size in bytes.
pub struct BlobInfo {
    pub hash: String,
    pub compressed_len: usize,
}

/// Mathematical state of a [`CompressionCache`].
#[verifier::ext_equal]
pub ghost struct CacheModel {
    /// Whether an on-disk cache is configured.
    pub enabled: bool,
    /// The compression level, fixed at construction.
    pub level: int,
    /// Snapshot of the on-disk cache: entry name to compressed bytes.
    pub disk: Map<Seq<char>, Seq<u8>>,
    /// Disk entry names consulted during this run.
    pub used: Set<Seq<char>>,
    /// Lookups answered from the disk snapshot.
    pub cache_hits: nat,
    /// Lookups that had to compress fresh.
    pub misses: nat,
    /// Lookups answered from the in-memory store.
    pub dedup_hits: nat,
    /// Compressed bytes saved by deduplication.
    pub saved_bytes: nat,
    /// The in-memory store: content digest to compressed bytes.
    pub blobs: Map<Seq<char>, Seq<u8>>,
    /// Entries to be persisted to disk, in order of creation.
    pub pending: Seq<(Seq<char>, Seq<u8>)>,
}

/// What one compression returns: the digest and the compressed length.
pub ghost struct BlobStep {
    pub hash: Seq<char>,
    pub len: nat,
}

/// The disk entry name for a digest at a level: `hash_level.zst`.
pub open spec fn cache_file_name(hash: Seq<char>, level: int) -> Seq<char> {
    hash + "_"@ + dec_of(level as nat) + ".zst"@
}

/// One compression, as a transformation of the cache model: a dedup hit
/// when the digest was already stored this run; otherwise a cache hit when
/// the disk snapshot has the entry, or a miss that compresses fresh and
/// queues the entry for persistence. The blob stored for a digest is never
/// replaced, and statistics saturate at the machine word limit.
pub open spec fn compress_step(m: CacheModel, data: Seq<u8>) -> (CacheModel, BlobStep) {
    let h = blake3_hex(data);
    if m.blobs.contains_key(h) {
        let len = m.blobs[h].len();
        (
            CacheModel {
                dedup_hits: sat_add(m.dedup_hits, 1),
                saved_bytes: sat_add(m.saved_bytes, len),
                ..m
            },
            BlobStep { hash: h, len },
        )
    } else {
        let fname = cache_file_name(h, m.level);
        if m.enabled {
            if m.disk.contains_key(fname) {
                let blob = m.disk[fname];
                (
                    CacheModel {
                        used: m.used.insert(fname),
                        cache_hits: sat_add(m.cache_hits, 1),
                        blobs: m.blobs.insert(h, blob),
                        ..m
                    },
                    BlobStep { hash: h, len: blob.len() },
                )
            } else {
                let blob = zstd_of(data, m.level);
                (
                    CacheModel {
                        used: m.used.insert(fname),
                        misses: sat_add(m.misses, 1),
                        blobs: m.blobs.insert(h, blob),
                        pending: m.pending.push((fname, blob)),
                        ..m
                    },
                    BlobStep { hash: h, len: blob.len() },
                )
            }
        } else {
            let blob = zstd_of(data, m.level);
            (
                CacheModel {
                    misses: sat_add(m.misses, 1),
                    blobs: m.blobs.insert(h, blob),
                    ..m
                },
                BlobStep { hash: h, len: blob.len() },
            )
        }
    }
}

/// Content-addressed compression cache with in-memory deduplication and a
/// snapshot of the on-disk cache. Disk reads and writes stay with the
/// caller: the snapshot is handed in at construction, and fresh entries are
/// handed back through [`CompressionCache::pending_writes`].
pub struct CompressionCache {
    enabled: bool,
    level: i32,
    disk: Vec<(String, Vec<u8>)>,
    used: Vec<String>,
    cache_hits: usize,
    misses: usize,
    dedup_hits: usize,
    dedup_saved_bytes: usize,
    blobs: Vec<(String, Vec<u8>)>,
    pending: Vec<(String, Vec<u8>)>,
}

impl CompressionCache {
    /// The abstract state of this cache.
    pub closed spec fn model(&self) -> CacheModel {
        CacheModel {
            enabled: self.enabled,
            level: self.level as int,
            disk: pairs_map(self.disk.deep_view()),
            used: self.used.deep_view().to_set(),
            cache_hits: self.cache_hits as nat,
            misses: self.misses as nat,
            dedup_hits: self.dedup_hits as nat,
            saved_bytes: self.dedup_saved_bytes as nat,
            blobs: pairs_map(self.blobs.deep_view()),
            pending: self.pending.deep_view(),
        }
    }

    /// Well-formedness: a supported level, and the blob store sorted by
    /// digest, so that its entries come out in one deterministic order.
    pub closed spec fn wf(&self) -> bool {
        &&& 0 <= self.level <= 22
        &&& sorted_by_key(self.blobs.deep_view())
    }

    /// Create a cache at the given level. `disk` is a snapshot of the
    /// configured on-disk cache directory, entry name to contents; `None`
    /// disables caching, and every lookup then compresses fresh.
    pub fn new(disk: Option<Vec<(String, Vec<u8>)>>, level: i32) -> (r: CompressionCache)
        requires
            0 <= level <= 22,
        ensures
            r.wf(),
            r.model() == (CacheModel {
                enabled: disk is Some,
                level: level as int,
                disk: match disk {
                    Some(d) => pairs_map(d.deep_view()),
                    None => Map::<Seq<char>, Seq<u8>>::empty(),
                },
                used: Set::<Seq<char>>::empty(),
                cache_hits: 0nat,
                misses: 0nat,
                dedup_hits: 0nat,
                saved_bytes: 0nat,
                blobs: Map::<Seq<char>, Seq<u8>>::empty(),
                pending: Seq::<(Seq<char>, Seq<u8>)>::empty(),
            }),
    {
        let (enabled, disk_entries) = match disk {
            Some(d) => (true, d),
            None => (false, Vec::new()),
        };
        let r = CompressionCache {
            enabled,
            level,
            disk: disk_entries,
            used: Vec::new(),
            cache_hits: 0,
            misses: 0,
            dedup_hits: 0,
            dedup_saved_bytes: 0,
            blobs: Vec::new(),
            pending: Vec::new(),
        };
        proof {
            assert(r.used.deep_view().to_set() =~= Set::<Seq<char>>::empty());
            assert(r.blobs.deep_view() =~= Seq::<(Seq<char>, Seq<u8>)>::empty());
            assert(r.pending.deep_view() =~= Seq::<(Seq<char>, Seq<u8>)>::empty());
            if disk is None {
                assert(r.disk.deep_view() =~= Seq::<(Seq<char>, Seq<u8>)>::empty());
            }
        }
        r
    }

    /// Compress `data`, deduplicating against content already seen this
    /// run and against the on-disk snapshot, exactly as
    /// [`compress_step`] describes.
    pub fn compress(&mut self, data: &[u8]) -> (r: BlobInfo)
        requires
            old(self).wf(),
        ensures
            final(self).wf(),
            final(self).model() == compress_step(old(self).model(), data@).0,
            r.hash@ == compress_step(old(self).model(), data@).1.hash,
            r.compressed_len as nat == compress_step(old(self).model(), data@).1.len,
    {
        let ghost m0 = self.model();
        let hash = blake3_hex_digest(data);
        let mut existing_len: Option<usize> = None;
        match assoc_get(&self.blobs, &hash) {
            Some(b) => {
                existing_len = Some(b.len());
            },
            None => {},
        }
        match existing_len {
            Some(len) => {
                self.dedup_hits = sat_add_usize(self.dedup_hits, 1);
                self.dedup_saved_bytes = sat_add_usize(self.dedup_saved_bytes, len);
                proof {
                    assert(self.model() =~= compress_step(m0, data@).0);
                }
                BlobInfo { hash, compressed_len: len }
            },
            None => {
                let fname = self.cache_file(&hash);
                let ghost fv = fname@;
                if self.enabled {
                    let ghost u0 = self.used.deep_view();
                    self.used.push(fname.clone());
                    proof {
                        assert(self.used.deep_view() =~= u0.push(fv));
                        lemma_push_to_set(u0, fv);
                        assert(self.used.deep_view().to_set() =~= m0.used.insert(fv));
                    }
                    let mut cached: Option<Vec<u8>> = None;
                    match assoc_get(&self.disk, &fname) {
                        Some(b) => {
                            cached = Some(clone_bytes(b));
                        },
                        None => {},
                    }
                    match cached {
                        Some(blob) => {
                            self.cache_hits = sat_add_usize(self.cache_hits, 1);
                            let len = blob.len();
                            insert_sorted(&mut self.blobs, hash.clone(), blob);
                            proof {
                                assert(self.model() =~= compress_step(m0, data@).0);
                            }
                            BlobInfo { hash, compressed_len: len }
                        },
                        None => {
                            self.misses = sat_add_usize(self.misses, 1);
                            let blob = zstd_compress(data, self.level);
                            let len = blob.len();
                            let ghost p0 = self.pending.deep_view();
                            let entry = (fname, clone_bytes(&blob));
                            proof {
                                assert(entry.deep_view() == (fv, blob@));
                            }
                            self.pending.push(entry);
                            proof {
                                assert(self.pending.deep_view() =~= p0.push((fv, blob@)));
                            }
                            insert_sorted(&mut self.blobs, hash.clone(), blob);
                            proof {
                                assert(self.model() =~= compress_step(m0, data@).0);
                            }
                            BlobInfo { hash, compressed_len: len }
                        },
                    }
                } else {
                    self.misses = sat_add_usize(self.misses, 1);
                    let blob = zstd_compress(data, self.level);
                    let len = blob.len();
                    insert_sorted(&mut self.blobs, hash.clone(), blob);
                    proof {
                        assert(self.model() =~= compress_step(m0, data@).0);
                    }
                    BlobInfo { hash, compressed_len: len }
                }
            },
        }
    }

    /// The disk entry name for a digest at this cache's level.
    fn cache_file(&self, hash: &String) -> (r: String)
        requires
            self.wf(),
        ensures
            r@ == cache_file_name(hash@, self.level as int),
    {
        let mut s = hash.clone();
        s.append("_");
        let dec = u64_to_dec(self.level as u64);
        s.append(dec.as_str());
        s.append(".zst");
        s
    }

    /// Total number of inputs handled this run.
    pub fn dedup_total_files(&self) -> (r: usize)
        ensures
            r as nat == sat_add(
                sat_add(self.model().cache_hits, self.model().misses),
                self.model().dedup_hits,
            ),
    {
        sat_add_usize(sat_add_usize(self.cache_hits, self.misses), self.dedup_hits)
    }

    /// Number of unique blobs stored this run.
    pub fn dedup_unique_blobs(&self) -> (r: usize)
        requires
            self.wf(),
        ensures
            r as nat == self.model().blobs.dom().len(),
    {
        proof {
            lemma_sorted_distinct(self.blobs.deep_view());
            lemma_pairs_map_len(self.blobs.deep_view());
        }
        self.blobs.len()
    }

    /// Number of duplicate inputs removed by deduplication.
    pub fn dedup_duplicate_count(&self) -> (r: usize)
        ensures
            r as nat == self.model().dedup_hits,
    {
        self.dedup_hits
    }

    /// Compressed bytes saved by deduplication.
    pub fn dedup_saved_bytes(&self) -> (r: usize)
        ensures
            r as nat == self.model().saved_bytes,
    {
        self.dedup_saved_bytes
    }

    /// The entries that still have to be persisted to the disk cache, in
    /// order of creation: entry name and contents. The caller writes each
    /// to a temporary file and renames it over the final path.
    pub fn pending_writes(&self) -> (r: &Vec<(String, Vec<u8>)>)
        ensures
            r.deep_view() == self.model().pending,
    {
        &self.pending
    }

    /// The unique blobs of this run, sorted by digest: one deterministic
    /// order, whatever order the inputs came in.
    pub fn blob_entries(&self) -> (r: &Vec<(String, Vec<u8>)>)
        requires
            self.wf(),
        ensures
            sorted_by_key(r.deep_view()),
            pairs_map(r.deep_view()) == self.model().blobs,
    {
        &self.blobs
    }

    /// The deduplication summary of this run: total inputs handled,
    /// unique blobs stored, duplicates removed, and bytes saved.
    pub fn summary(&self) -> (r: crate::stats::DedupStats)
        requires
            self.wf(),
        ensures
            r.total_files as nat == sat_add(
                sat_add(self.model().cache_hits, self.model().misses),
                self.model().dedup_hits,
            ),
            r.unique_blobs as nat == self.model().blobs.dom().len(),
            r.duplicate_count as nat == self.model().dedup_hits,
            r.saved_bytes as nat == self.model().saved_bytes,
    {
        crate::stats::DedupStats {
            total_files: self.dedup_total_files(),
            unique_blobs: self.dedup_unique_blobs(),
            duplicate_count: self.dedup_duplicate_count(),
            saved_bytes: self.dedup_saved_bytes(),
        }
    }

    fn used_contains(&self, name: &String) -> (r: bool)
        ensures
            r == self.model().used.contains(name@),
    {
        let mut i: usize = 0;
        while i < self.used.len()
            invariant
                i <= self.used.len(),
                forall|j: int| 0 <= j < i ==> self.used.deep_view()[j] != name@,
            decreases self.used.len() - i,
        {
            if str_eq(self.used[i].as_str(), name.as_str()) {
                proof {
                    assert(self.used.deep_view()[i as int] == name@);
                }
                return true;
            }
            i = i + 1;
        }
        false
    }

    /// The disk entries to evict: every entry of the snapshot whose name
    /// marks it as a cache entry but which was not used this run. Entries
    /// that were used are left intact.
    pub fn cleanup(&self) -> (r: Vec<String>)
        ensures
            r.deep_view().to_set() == evicted_names(self.model()),
    {
        let ghost dv = self.disk.deep_view();
        let mut out: Vec<String> = Vec::new();
        let mut i: usize = 0;
        while i < self.disk.len()
            invariant
                i <= self.disk.len(),
                dv == self.disk.deep_view(),
                forall|n: Seq<char>|
                    #[trigger] out.deep_view().contains(n) <==> (exists|x: int|
                        0 <= x < i && dv[x].0 == n && is_zst_name(n)
                            && !self.model().used.contains(n)),
            decreases self.disk.len() - i,
        {
            let ghost pre = out.deep_view();
            let name = &self.disk[i].0;
            if has_zst_suffix(name.as_str()) && !self.used_contains(name) {
                out.push(name.clone());
                proof {
                    assert(out.deep_view() =~= pre.push(name@));
                    assert forall|n: Seq<char>| #[trigger] out.deep_view().contains(n) implies (
                    exists|x: int|
                        0 <= x < i + 1 && dv[x].0 == n && is_zst_name(n)
                            && !self.model().used.contains(n)) by {
                        let w = choose|w: int|
                            0 <= w < out.deep_view().len() && out.deep_view()[w] == n;
                        if w < pre.len() {
                            assert(pre.contains(n));
                        } else {
                            assert(dv[i as int].0 == n);
                        }
                    }
                    assert forall|n: Seq<char>|
                        (exists|x: int|
                            0 <= x < i + 1 && dv[x].0 == n && is_zst_name(n)
                                && !self.model().used.contains(n)) implies #[trigger] out.deep_view().contains(
                        n) by {
                        let x = choose|x: int|
                            0 <= x < i + 1 && dv[x].0 == n && is_zst_name(n)
                                && !self.model().used.contains(n);
                        if x < i {
                            assert(pre.contains(n));
                            let w = choose|w: int| 0 <= w < pre.len() && pre[w] == n;
                            assert(out.deep_view()[w] == n);
                        } else {
                            assert(out.deep_view()[pre.len() as int] == n);
                        }
                    }
                }
            } else {
                proof {
                    assert forall|n: Seq<char>| #[trigger] out.deep_view().contains(n) implies (
                    exists|x: int|
                        0 <= x < i + 1 && dv[x].0 == n && is_zst_name(n)
                            && !self.model().used.contains(n)) by {}
                    assert forall|n: Seq<char>|
                        (exists|x: int|
                            0 <= x < i + 1 && dv[x].0 == n && is_zst_name(n)
                                && !self.model().used.contains(n)) implies #[trigger] out.deep_view().contains(
                        n) by {
                        let x = choose|x: int|
                            0 <= x < i + 1 && dv[x].0 == n && is_zst_name(n)
                                && !self.model().used.contains(n);
                        assert(0 <= x < i && dv[x].0 == n);
                    }
                }
            }
            i = i + 1;
        }
        proof {
            let s = out.deep_view();
            assert forall|n: Seq<char>|
                #[trigger] s.to_set().contains(n) <==> evicted_names(self.model()).contains(
                n,
            ) by {
                assert(s.to_set().contains(n) == s.contains(n));
                if self.model().disk.dom().contains(n) {
                    lemma_pairs_map_contains(dv, n);
                }
                if exists|x: int| 0 <= x < dv.len() && dv[x].0 == n {
                    let x = choose|x: int| 0 <= x < dv.len() && dv[x].0 == n;
                    lemma_pairs_map_key(dv, x);
                }
            }
            assert(s.to_set() =~= evicted_names(self.model()));
        }
        out
    }
}

/// The names that a cleanup evicts from a cache in a given state: the disk
/// entries that are cache entries by name and were not used this run.
pub open spec fn evicted_names(m: CacheModel) -> Set<Seq<char>> {
    Set::new(|n: Seq<char>| m.disk.dom().contains(n) && is_zst_name(n) && !m.used.contains(n))
}

/// A cache entry name: one that ends in `.zst`.
pub open spec fn is_zst_name(n: Seq<char>) -> bool {
    n.len() >= 4 && n.subrange(n.len() - 4, n.len() as int) == ".zst"@
}

fn has_zst_suffix(s: &str) -> (r: bool)
    ensures
        r == is_zst_name(s@),
{
    let n = s.unicode_len();
    if n < 4 {
        return false;
    }
    let suffix = s.substring_char(n - 4, n);
    str_eq(suffix, ".zst")
}

/// Compression through the cache is deterministic: handing in the same
/// bytes twice yields the same digest and the same compressed length, and
/// the blob stored for that digest does not change.
pub proof fn lemma_compress_deterministic(m: CacheModel, data: Seq<u8>)
    ensures
        ({
            let (m1, r1) = compress_step(m, data);
            let (m2, r2) = compress_step(m1, data);
            &&& r2.hash == r1.hash
            &&& r2.len == r1.len
            &&& m2.blobs == m1.blobs
            &&& m1.blobs.contains_key(r1.hash)
            &&& m1.blobs[r1.hash].len() == r1.len
        }),
{
}

/// Iterated compression of the same bytes.
pub open spec fn compress_iter(m: CacheModel, data: Seq<u8>, n: nat) -> CacheModel
    decreases n,
{
    if n == 0 {
        m
    } else {
        compress_step(compress_iter(m, data, (n - 1) as nat), data).0
    }
}

/// Deduplication: compressing `n` copies of the same content, none of it
/// seen before, stores exactly one new blob and counts `n - 1` duplicates.
pub proof fn lemma_dedup_n_copies(m: CacheModel, data: Seq<u8>, n: nat)
    requires
        1 <= n,
        !m.blobs.contains_key(blake3_hex(data)),
        m.blobs.dom().finite(),
        m.dedup_hits + (n - 1) <= usize::MAX,
    ensures
        ({
            let f = compress_iter(m, data, n);
            &&& f.blobs == compress_step(m, data).0.blobs
            &&& f.blobs.dom() == m.blobs.dom().insert(blake3_hex(data))
            &&& f.blobs.dom().len() == m.blobs.dom().len() + 1
            &&& f.dedup_hits == m.dedup_hits + n - 1
        }),
    decreases n,
{
    let h = blake3_hex(data);
    if n == 1 {
        let f = compress_iter(m, data, 1);
        assert(compress_iter(m, data, 0) == m);
        assert(f.blobs.dom() =~= m.blobs.dom().insert(h));
    } else {
        lemma_dedup_n_copies(m, data, (n - 1) as nat);
        let p = compress_iter(m, data, (n - 1) as nat);
        assert(p.blobs.contains_key(h));
    }
}

/// Round trip: decompressing the compressed form of any input, the empty
/// input included, yields that input exactly.
pub fn compress_decompress_round_trip(data: &[u8], level: i32) -> (r: Vec<u8>)
    requires
        0 <= level <= 22,
    ensures
        r@ == data@,
{
    let compressed = zstd_compress(data, level);
    match zstd_decompress(compressed.as_slice()) {
        Ok(original) => original,
        Err(_) => {
            proof {
                assert(false);
            }
            vstd::pervasive::unreached()
        },
    }
}

} // verus!
