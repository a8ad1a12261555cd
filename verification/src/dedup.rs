//! The chunked deduplication store: archive-level and chunk-level dedup
//! against persisted state, ordered chunk references, and reconstruction of
//! an archive from its chunks.
//!
//! The store is an in-memory stand-in for the repository and storage
//! collaborators; it offers exactly the operations the core needs:
//! get-by-unique-key, insert-if-absent-else-return-existing,
//! insert-or-update-on-conflict, and ordered fetch of chunk references.

use vstd::prelude::*;

use crate::chunking::{chunk_bytes, concat_chunks, lemma_chunks_concat, spec_chunks};
use crate::entity::{ChunkModel, ChunkModelView, ChunkRefModel, ChunkRefModelView, NarModel,
    NarModelView, ObjectModel, ObjectModelView, copy_opt_string, copy_strings};
use crate::hash::{HashAlgorithm, HashView, sha256_digest};
use crate::narinfo::Compression;
use crate::server_error::ErrorKind;
use crate::upload_path::{DedupFraction, UploadPathNarInfo, UploadPathResult,
    UploadPathResultKind};

verus! {

/// The mathematical content of the whole store.
pub ghost struct DedupStoreView {
    pub next_id: i64,
    pub chunks: Seq<ChunkModelView>,
    pub nars: Seq<NarModelView>,
    pub chunkrefs: Seq<ChunkRefModelView>,
    pub objects: Seq<ObjectModelView>,
}

/// The first (and, given well-formedness, only) chunk with this id.
pub open spec fn chunk_by_id_in(cs: Seq<ChunkModelView>, id: i64) -> Option<ChunkModelView> {
    if exists|i: int| 0 <= i < cs.len() && (#[trigger] cs[i]).id == id {
        Some(cs[choose|i: int| 0 <= i < cs.len() && (#[trigger] cs[i]).id == id])
    } else {
        Option::None
    }
}

/// The chunk reference of one NAR at one sequence number.
pub open spec fn ref_for_in(rs: Seq<ChunkRefModelView>, nar_id: i64, s: u64) -> Option<
    ChunkRefModelView,
> {
    if exists|i: int|
        0 <= i < rs.len() && (#[trigger] rs[i]).nar_id == nar_id && rs[i].seq == s {
        Some(
            rs[choose|i: int|
                0 <= i < rs.len() && (#[trigger] rs[i]).nar_id == nar_id && rs[i].seq == s],
        )
    } else {
        Option::None
    }
}

pub open spec fn nar_by_id_in(ns: Seq<NarModelView>, id: i64) -> Option<NarModelView> {
    if exists|i: int| 0 <= i < ns.len() && (#[trigger] ns[i]).id == id {
        Some(ns[choose|i: int| 0 <= i < ns.len() && (#[trigger] ns[i]).id == id])
    } else {
        Option::None
    }
}

pub open spec fn object_for_in(os: Seq<ObjectModelView>, cache_id: i64, sph: Seq<char>) -> Option<
    ObjectModelView,
> {
    if exists|i: int|
        0 <= i < os.len() && (#[trigger] os[i]).cache_id == cache_id && os[i].store_path_hash
            == sph {
        Some(
            os[choose|i: int|
                0 <= i < os.len() && (#[trigger] os[i]).cache_id == cache_id
                    && os[i].store_path_hash == sph],
        )
    } else {
        Option::None
    }
}

impl DedupStoreView {
    pub open spec fn chunk_ok(self, c: ChunkModelView) -> bool {
        &&& 0 <= c.id < self.next_id
        &&& c.chunk_hash.algo == HashAlgorithm::Sha256
        &&& c.chunk_hash.digest == sha256_digest(c.bytes)
        &&& c.chunk_hash.digest.len() == 32
        &&& c.size == c.bytes.len()
    }

    /// Well-formedness: fresh ids; globally unique chunk identity by content
    /// hash; unique NAR identity by content hash; at most one chunk
    /// reference per `(nar_id, seq)`; at most one object per
    /// `(cache_id, store_path_hash)`; and every chunk's hash is the digest
    /// of its stored bytes.
    pub open spec fn wf(self) -> bool {
        &&& 0 <= self.next_id
        &&& forall|i: int| 0 <= i < self.chunks.len() ==> self.chunk_ok(#[trigger] self.chunks[i])
        &&& forall|i: int, j: int|
            0 <= i < j < self.chunks.len() ==> (#[trigger] self.chunks[i]).id != (
            #[trigger] self.chunks[j]).id && self.chunks[i].chunk_hash != self.chunks[j].chunk_hash
        &&& forall|i: int|
            0 <= i < self.nars.len() ==> 0 <= (#[trigger] self.nars[i]).id < self.next_id
        &&& forall|i: int, j: int|
            0 <= i < j < self.nars.len() ==> (#[trigger] self.nars[i]).id != (
            #[trigger] self.nars[j]).id && self.nars[i].nar_hash != self.nars[j].nar_hash
        &&& forall|i: int|
            0 <= i < self.chunkrefs.len() ==> 0 <= (#[trigger] self.chunkrefs[i]).nar_id
                < self.next_id
        &&& forall|i: int, j: int|
            0 <= i < j < self.chunkrefs.len() ==> !((#[trigger] self.chunkrefs[i]).nar_id == (
            #[trigger] self.chunkrefs[j]).nar_id && self.chunkrefs[i].seq
                == self.chunkrefs[j].seq)
        &&& forall|i: int, j: int|
            0 <= i < j < self.objects.len() ==> !((#[trigger] self.objects[i]).cache_id == (
            #[trigger] self.objects[j]).cache_id && self.objects[i].store_path_hash
                == self.objects[j].store_path_hash)
    }

    pub open spec fn has_chunk_with_hash(self, h: HashView) -> bool {
        exists|i: int| 0 <= i < self.chunks.len() && (#[trigger] self.chunks[i]).chunk_hash == h
    }

    pub open spec fn has_nar_with_hash(self, h: HashView) -> bool {
        exists|i: int| 0 <= i < self.nars.len() && (#[trigger] self.nars[i]).nar_hash == h
    }

    pub open spec fn chunk_by_id(self, id: i64) -> Option<ChunkModelView> {
        chunk_by_id_in(self.chunks, id)
    }

    pub open spec fn ref_for(self, nar_id: i64, s: u64) -> Option<ChunkRefModelView> {
        ref_for_in(self.chunkrefs, nar_id, s)
    }

    pub open spec fn nar_by_id(self, id: i64) -> Option<NarModelView> {
        nar_by_id_in(self.nars, id)
    }

    pub open spec fn object_for(self, cache_id: i64, sph: Seq<char>) -> Option<ObjectModelView> {
        object_for_in(self.objects, cache_id, sph)
    }

    /// The chunk that backs one sequence position of one NAR, if the
    /// reference exists, carries a chunk id, and that chunk row exists.
    pub open spec fn resolved_chunk(self, nar_id: i64, s: u64) -> Option<ChunkModelView> {
        match self.ref_for(nar_id, s) {
            Some(r) => match r.chunk_id {
                Some(cid) => self.chunk_by_id(cid),
                Option::None => Option::None,
            },
            Option::None => Option::None,
        }
    }

    /// A NAR is complete when every sequence position resolves to a stored
    /// chunk.
    pub open spec fn nar_complete(self, nar: NarModelView) -> bool {
        forall|s: u64| s < nar.num_chunks ==> (#[trigger] self.resolved_chunk(nar.id, s)) is Some
    }

    /// The bytes of the first `k` chunks of a NAR, in sequence order
    /// (unresolvable positions contribute nothing; under `nar_complete`
    /// there are none).
    pub open spec fn nar_bytes_upto(self, nar_id: i64, k: int) -> Seq<u8>
        decreases k,
    {
        if k <= 0 {
            Seq::empty()
        } else {
            self.nar_bytes_upto(nar_id, k - 1) + match self.resolved_chunk(
                nar_id,
                (k - 1) as u64,
            ) {
                Some(c) => c.bytes,
                Option::None => Seq::empty(),
            }
        }
    }

    pub open spec fn nar_bytes(self, nar: NarModelView) -> Seq<u8> {
        self.nar_bytes_upto(nar.id, nar.num_chunks as int)
    }
}

/// With unique ids, any matching element is the looked-up one.
pub proof fn lemma_chunk_by_id_is(cs: Seq<ChunkModelView>, id: i64, i: int)
    requires
        forall|a: int, b: int|
            0 <= a < b < cs.len() ==> (#[trigger] cs[a]).id != (#[trigger] cs[b]).id,
        0 <= i < cs.len(),
        cs[i].id == id,
    ensures
        chunk_by_id_in(cs, id) == Some(cs[i]),
{
    let j = choose|j: int| 0 <= j < cs.len() && (#[trigger] cs[j]).id == id;
    if i != j {
        assert(cs[i].id != cs[j].id);
    }
}

pub proof fn lemma_ref_for_is(rs: Seq<ChunkRefModelView>, nar_id: i64, s: u64, i: int)
    requires
        forall|a: int, b: int|
            0 <= a < b < rs.len() ==> !((#[trigger] rs[a]).nar_id == (#[trigger] rs[b]).nar_id
                && rs[a].seq == rs[b].seq),
        0 <= i < rs.len(),
        rs[i].nar_id == nar_id,
        rs[i].seq == s,
    ensures
        ref_for_in(rs, nar_id, s) == Some(rs[i]),
{
    let j = choose|j: int|
        0 <= j < rs.len() && (#[trigger] rs[j]).nar_id == nar_id && rs[j].seq == s;
    if i != j {
        assert(!(rs[i].nar_id == rs[j].nar_id && rs[i].seq == rs[j].seq));
    }
}

pub proof fn lemma_nar_by_id_is(ns: Seq<NarModelView>, id: i64, i: int)
    requires
        forall|a: int, b: int|
            0 <= a < b < ns.len() ==> (#[trigger] ns[a]).id != (#[trigger] ns[b]).id,
        0 <= i < ns.len(),
        ns[i].id == id,
    ensures
        nar_by_id_in(ns, id) == Some(ns[i]),
{
    let j = choose|j: int| 0 <= j < ns.len() && (#[trigger] ns[j]).id == id;
    if i != j {
        assert(ns[i].id != ns[j].id);
    }
}

pub proof fn lemma_object_for_is(os: Seq<ObjectModelView>, cache_id: i64, sph: Seq<char>, i: int)
    requires
        forall|a: int, b: int|
            0 <= a < b < os.len() ==> !((#[trigger] os[a]).cache_id == (#[trigger] os[b]).cache_id
                && os[a].store_path_hash == os[b].store_path_hash),
        0 <= i < os.len(),
        os[i].cache_id == cache_id,
        os[i].store_path_hash == sph,
    ensures
        object_for_in(os, cache_id, sph) == Some(os[i]),
{
    let j = choose|j: int|
        0 <= j < os.len() && (#[trigger] os[j]).cache_id == cache_id && os[j].store_path_hash
            == sph;
    if i != j {
        assert(!(os[i].cache_id == os[j].cache_id && os[i].store_path_hash
            == os[j].store_path_hash));
    }
}

/// The SHA-256 identity of a chunk's content.
pub open spec fn digest_hash(d: Seq<u8>) -> HashView {
    HashView { algo: HashAlgorithm::Sha256, digest: d }
}

/// Whether the `i`-th chunk of an upload is a dedup hit against the store
/// state `pre`: its content was already stored, or appeared earlier in the
/// same upload.
pub open spec fn chunk_reused(pre: DedupStoreView, cs: Seq<Seq<u8>>, i: int) -> bool {
    pre.has_chunk_with_hash(digest_hash(sha256_digest(cs[i]))) || (exists|j: int|
        0 <= j < i && sha256_digest(cs[j]) == sha256_digest(cs[i]))
}

/// Bytes of the first `k` chunks that are dedup hits against `pre`.
pub open spec fn reused_len(pre: DedupStoreView, cs: Seq<Seq<u8>>, k: int) -> int
    decreases k,
{
    if k <= 0 {
        0
    } else {
        reused_len(pre, cs, k - 1) + if chunk_reused(pre, cs, k - 1) {
            cs[k - 1].len() as int
        } else {
            0
        }
    }
}

/// Total bytes of the first `k` chunks.
pub open spec fn total_len(cs: Seq<Seq<u8>>, k: int) -> int
    decreases k,
{
    if k <= 0 {
        0
    } else {
        total_len(cs, k - 1) + cs[k - 1].len()
    }
}

pub proof fn lemma_reused_le_total(pre: DedupStoreView, cs: Seq<Seq<u8>>, k: int)
    ensures
        0 <= reused_len(pre, cs, k) <= total_len(cs, k),
    decreases k,
{
    if k > 0 {
        lemma_reused_le_total(pre, cs, k - 1);
    }
}

pub proof fn lemma_total_mono(cs: Seq<Seq<u8>>, k1: int, k2: int)
    requires
        k1 <= k2,
    ensures
        total_len(cs, k1) <= total_len(cs, k2),
    decreases k2 - k1,
{
    if k1 < k2 {
        lemma_total_mono(cs, k1, k2 - 1);
    }
}

proof fn lemma_total_shift(cs: Seq<Seq<u8>>, k: int)
    requires
        1 <= k <= cs.len(),
    ensures
        total_len(cs, k) == cs[0].len() + total_len(cs.drop_first(), k - 1),
    decreases k,
{
    if k == 1 {
        assert(total_len(cs, 1) == total_len(cs, 0) + cs[0].len());
        assert(total_len(cs.drop_first(), 0) == 0);
    } else {
        lemma_total_shift(cs, k - 1);
        assert(cs.drop_first()[k - 2] == cs[k - 1]);
        assert(total_len(cs, k) == total_len(cs, k - 1) + cs[k - 1].len());
        assert(total_len(cs.drop_first(), k - 1) == total_len(cs.drop_first(), k - 2)
            + cs.drop_first()[k - 2].len());
    }
}

/// The total length of all chunks is the length of their concatenation.
pub proof fn lemma_concat_total(cs: Seq<Seq<u8>>)
    ensures
        concat_chunks(cs).len() == total_len(cs, cs.len() as int),
    decreases cs.len(),
{
    if cs.len() > 0 {
        lemma_concat_total(cs.drop_first());
        lemma_total_shift(cs, cs.len() as int);
    }
}

/// Chunk identity is global: in a well-formed store there is at most one
/// chunk row for any content hash, whatever interleaving of uploads
/// produced the store. Two rows with the same hash are the same row.
pub proof fn lemma_chunk_identity_unique(v: DedupStoreView, i: int, j: int)
    requires
        v.wf(),
        0 <= i < v.chunks.len(),
        0 <= j < v.chunks.len(),
        v.chunks[i].chunk_hash == v.chunks[j].chunk_hash,
    ensures
        i == j,
{
    if i < j {
        assert(v.chunks[i].chunk_hash != v.chunks[j].chunk_hash);
    }
    if j < i {
        assert(v.chunks[j].chunk_hash != v.chunks[i].chunk_hash);
    }
}

/// NAR identity is global in the same way: at most one NAR row per
/// archive-level content hash.
pub proof fn lemma_nar_identity_unique(v: DedupStoreView, i: int, j: int)
    requires
        v.wf(),
        0 <= i < v.nars.len(),
        0 <= j < v.nars.len(),
        v.nars[i].nar_hash == v.nars[j].nar_hash,
    ensures
        i == j,
{
    if i < j {
        assert(v.nars[i].nar_hash != v.nars[j].nar_hash);
    }
    if j < i {
        assert(v.nars[j].nar_hash != v.nars[i].nar_hash);
    }
}

/// A wholly-new archive deduplicates nothing: when no chunk's identity is
/// already stored and the archive's chunk digests are pairwise distinct,
/// the reused-byte count is zero.
pub proof fn lemma_fresh_archive_reused_zero(pre: DedupStoreView, cs: Seq<Seq<u8>>, k: int)
    requires
        forall|i: int| 0 <= i < k ==> !pre.has_chunk_with_hash(
            digest_hash(sha256_digest(#[trigger] cs[i])),
        ),
        forall|i: int, j: int| 0 <= i < j < k ==> sha256_digest(#[trigger] cs[i])
            != sha256_digest(#[trigger] cs[j]),
    ensures
        reused_len(pre, cs, k) == 0,
    decreases k,
{
    if k > 0 {
        lemma_fresh_archive_reused_zero(pre, cs, k - 1);
        assert(!chunk_reused(pre, cs, k - 1)) by {
            if exists|j: int|
                0 <= j < k - 1 && sha256_digest(#[trigger] cs[j]) == sha256_digest(cs[k - 1]) {
                let j = choose|j: int|
                    0 <= j < k - 1 && sha256_digest(#[trigger] cs[j]) == sha256_digest(cs[k - 1]);
                assert(sha256_digest(cs[j]) != sha256_digest(cs[k - 1]));
            }
        }
    }
}

pub proof fn lemma_total_ge_count(cs: Seq<Seq<u8>>, k: int)
    requires
        0 <= k <= cs.len(),
        forall|i: int| 0 <= i < cs.len() ==> (#[trigger] cs[i]).len() >= 1,
    ensures
        total_len(cs, k) >= k,
    decreases k,
{
    if k > 0 {
        lemma_total_ge_count(cs, k - 1);
    }
}

/// Appending a chunk with a different id leaves a lookup unchanged.
pub proof fn lemma_chunk_by_id_push(cs: Seq<ChunkModelView>, c: ChunkModelView, id: i64)
    requires
        forall|a: int, b: int|
            0 <= a < b < cs.len() ==> (#[trigger] cs[a]).id != (#[trigger] cs[b]).id,
        forall|a: int| 0 <= a < cs.len() ==> (#[trigger] cs[a]).id != c.id,
        c.id != id,
    ensures
        chunk_by_id_in(cs.push(c), id) == chunk_by_id_in(cs, id),
{
    let p = cs.push(c);
    if exists|i: int| 0 <= i < cs.len() && (#[trigger] cs[i]).id == id {
        let i = choose|i: int| 0 <= i < cs.len() && (#[trigger] cs[i]).id == id;
        assert(p[i] == cs[i]);
        lemma_chunk_by_id_is(p, id, i);
        lemma_chunk_by_id_is(cs, id, i);
    } else {
        assert forall|i: int| 0 <= i < p.len() implies (#[trigger] p[i]).id != id by {
            if i < cs.len() {
                assert(cs[i].id != id);
            } else {
                assert(p[i] == c);
            }
        }
    }
}

/// Appending a reference with a different `(nar_id, seq)` key leaves a
/// lookup unchanged.
pub proof fn lemma_ref_for_push(rs: Seq<ChunkRefModelView>, r: ChunkRefModelView, nar_id: i64,
    s: u64)
    requires
        forall|a: int, b: int|
            0 <= a < b < rs.len() ==> !((#[trigger] rs[a]).nar_id == (#[trigger] rs[b]).nar_id
                && rs[a].seq == rs[b].seq),
        forall|a: int| 0 <= a < rs.len() ==> !((#[trigger] rs[a]).nar_id == r.nar_id && rs[a].seq
            == r.seq),
        !(r.nar_id == nar_id && r.seq == s),
    ensures
        ref_for_in(rs.push(r), nar_id, s) == ref_for_in(rs, nar_id, s),
{
    let p = rs.push(r);
    if exists|i: int|
        0 <= i < rs.len() && (#[trigger] rs[i]).nar_id == nar_id && rs[i].seq == s {
        let i = choose|i: int|
            0 <= i < rs.len() && (#[trigger] rs[i]).nar_id == nar_id && rs[i].seq == s;
        assert(p[i] == rs[i]);
        assert forall|a: int, b: int|
            0 <= a < b < p.len() implies !((#[trigger] p[a]).nar_id == (#[trigger] p[b]).nar_id
            && p[a].seq == p[b].seq) by {
            if b == p.len() - 1 {
                assert(p[b] == r);
                assert(p[a] == rs[a]);
            }
        }
        lemma_ref_for_is(p, nar_id, s, i);
        lemma_ref_for_is(rs, nar_id, s, i);
    } else {
        assert forall|i: int|
            0 <= i < p.len() implies !((#[trigger] p[i]).nar_id == nar_id && p[i].seq == s) by {
            if i < rs.len() {
                assert(!(rs[i].nar_id == nar_id && rs[i].seq == s));
            } else {
                assert(p[i] == r);
            }
        }
    }
}

/// The chunked deduplication store over its in-memory tables.
#[derive(Debug)]
pub struct DedupStore {
    next_id: i64,
    chunks: Vec<ChunkModel>,
    nars: Vec<NarModel>,
    chunkrefs: Vec<ChunkRefModel>,
    objects: Vec<ObjectModel>,
}

impl View for DedupStore {
    type V = DedupStoreView;

    closed spec fn view(&self) -> DedupStoreView {
        DedupStoreView {
            next_id: self.next_id,
            chunks: self.chunks@.map_values(|c: ChunkModel| c@),
            nars: self.nars@.map_values(|n: NarModel| n@),
            chunkrefs: self.chunkrefs@.map_values(|r: ChunkRefModel| r@),
            objects: self.objects@.map_values(|o: ObjectModel| o@),
        }
    }
}

impl DedupStore {
    /// An empty store.
    pub fn new() -> (r: DedupStore)
        ensures
            r@.wf(),
            r@.next_id == 0,
            r@.chunks == Seq::<ChunkModelView>::empty(),
            r@.nars == Seq::<NarModelView>::empty(),
            r@.chunkrefs == Seq::<ChunkRefModelView>::empty(),
            r@.objects == Seq::<ObjectModelView>::empty(),
    {
        let r = DedupStore {
            next_id: 0,
            chunks: Vec::new(),
            nars: Vec::new(),
            chunkrefs: Vec::new(),
            objects: Vec::new(),
        };
        proof {
            assert(r@.chunks =~= Seq::<ChunkModelView>::empty());
            assert(r@.nars =~= Seq::<NarModelView>::empty());
            assert(r@.chunkrefs =~= Seq::<ChunkRefModelView>::empty());
            assert(r@.objects =~= Seq::<ObjectModelView>::empty());
        }
        r
    }

    /// Number of stored chunk rows.
    pub fn chunk_count(&self) -> (r: usize)
        ensures
            r == self@.chunks.len(),
    {
        self.chunks.len()
    }

    /// Number of stored NAR rows.
    pub fn nar_count(&self) -> (r: usize)
        ensures
            r == self@.nars.len(),
    {
        self.nars.len()
    }

    /// Number of stored object rows.
    pub fn object_count(&self) -> (r: usize)
        ensures
            r == self@.objects.len(),
    {
        self.objects.len()
    }

    /// The id of the NAR with this content hash, if one is stored.
    pub fn lookup_nar_id(&self, h: &crate::hash::Hash) -> (r: Option<i64>)
        requires
            self@.wf(),
        ensures
            r matches Some(id) ==> (self@.nar_by_id(id) matches Some(n) && n.nar_hash == h@),
            r is None ==> !self@.has_nar_with_hash(h@),
    {
        match self.find_nar_index_by_hash(h) {
            Some(i) => {
                let id = self.nars[i].id;
                proof {
                    lemma_nar_by_id_is(self@.nars, id, i as int);
                }
                Some(id)
            }
            Option::None => Option::None,
        }
    }

    /// The chunk id that one sequence position of a NAR resolves to, if the
    /// reference exists and carries one.
    pub fn chunk_id_at(&self, nar_id: i64, s: u64) -> (r: Option<i64>)
        requires
            self@.wf(),
        ensures
            r matches Some(cid) ==> (self@.ref_for(nar_id, s) matches Some(rf) && rf.chunk_id
                == Some(cid)),
            r is None ==> (match self@.ref_for(nar_id, s) {
                Some(rf) => rf.chunk_id is None,
                Option::None => true,
            }),
    {
        match self.find_ref_index(nar_id, s) {
            Some(ri) => {
                proof {
                    lemma_ref_for_is(self@.chunkrefs, nar_id, s, ri as int);
                }
                self.chunkrefs[ri].chunk_id
            }
            Option::None => {
                proof {
                    assert(self@.ref_for(nar_id, s) is None);
                }
                Option::None
            }
        }
    }

    /// Whether the id space leaves room for one upload of this payload
    /// size: the headroom that `upload` and `handle_upload` demand.
    pub fn has_id_headroom(&self, payload_len: usize) -> (r: bool)
        requires
            self@.wf(),
        ensures
            r == (self@.next_id + 2 * payload_len + 2 < i64::MAX),
    {
        let need: u128 = (self.next_id as u128) + 2 * (payload_len as u128) + 2;
        need < i64::MAX as u128
    }

    /// Index of the NAR row with this content hash, if any.
    pub fn find_nar_index_by_hash(&self, h: &crate::hash::Hash) -> (r: Option<usize>)
        ensures
            r matches Some(i) ==> i < self@.nars.len() && self@.nars[i as int].nar_hash == h@,
            r is None ==> !self@.has_nar_with_hash(h@),
    {
        let n = self.nars.len();
        let mut i: usize = 0;
        while i < n
            invariant
                i <= n,
                n == self.nars@.len(),
                self@.nars.len() == n,
                forall|j: int| 0 <= j < i ==> (#[trigger] self@.nars[j]).nar_hash != h@,
            decreases n - i,
        {
            if self.nars[i].nar_hash.same_hash(h) {
                proof {
                    assert(self@.nars[i as int].nar_hash =~= h@);
                }
                return Some(i);
            }
            proof {
                assert(self@.nars[i as int].nar_hash != h@);
            }
            i = i + 1;
        }
        Option::None
    }

    fn find_chunk_index_by_hash(&self, h: &crate::hash::Hash) -> (r: Option<usize>)
        ensures
            r matches Some(i) ==> i < self@.chunks.len() && self@.chunks[i as int].chunk_hash
                == h@,
            r is None ==> !self@.has_chunk_with_hash(h@),
    {
        let n = self.chunks.len();
        let mut i: usize = 0;
        while i < n
            invariant
                i <= n,
                n == self.chunks@.len(),
                self@.chunks.len() == n,
                forall|j: int| 0 <= j < i ==> (#[trigger] self@.chunks[j]).chunk_hash != h@,
            decreases n - i,
        {
            if self.chunks[i].chunk_hash.same_hash(h) {
                proof {
                    assert(self@.chunks[i as int].chunk_hash =~= h@);
                }
                return Some(i);
            }
            proof {
                assert(self@.chunks[i as int].chunk_hash != h@);
            }
            i = i + 1;
        }
        Option::None
    }

    fn find_chunk_index_by_id(&self, id: i64) -> (r: Option<usize>)
        ensures
            r matches Some(i) ==> i < self@.chunks.len() && self@.chunks[i as int].id == id,
            r is None ==> forall|j: int| 0 <= j < self@.chunks.len() ==> (
            #[trigger] self@.chunks[j]).id != id,
    {
        let n = self.chunks.len();
        let mut i: usize = 0;
        while i < n
            invariant
                i <= n,
                n == self@.chunks.len(),
                forall|j: int| 0 <= j < i ==> (#[trigger] self@.chunks[j]).id != id,
            decreases n - i,
        {
            if self.chunks[i].id == id {
                return Some(i);
            }
            i = i + 1;
        }
        Option::None
    }

    fn find_nar_index_by_id(&self, id: i64) -> (r: Option<usize>)
        ensures
            r matches Some(i) ==> i < self@.nars.len() && self@.nars[i as int].id == id,
            r is None ==> forall|j: int| 0 <= j < self@.nars.len() ==> (
            #[trigger] self@.nars[j]).id != id,
    {
        let n = self.nars.len();
        let mut i: usize = 0;
        while i < n
            invariant
                i <= n,
                n == self@.nars.len(),
                forall|j: int| 0 <= j < i ==> (#[trigger] self@.nars[j]).id != id,
            decreases n - i,
        {
            if self.nars[i].id == id {
                return Some(i);
            }
            i = i + 1;
        }
        Option::None
    }

    fn find_ref_index(&self, nar_id: i64, s: u64) -> (r: Option<usize>)
        ensures
            r matches Some(i) ==> i < self@.chunkrefs.len() && self@.chunkrefs[i as int].nar_id
                == nar_id && self@.chunkrefs[i as int].seq == s,
            r is None ==> forall|j: int| 0 <= j < self@.chunkrefs.len() ==> !((
            #[trigger] self@.chunkrefs[j]).nar_id == nar_id && self@.chunkrefs[j].seq == s),
    {
        let n = self.chunkrefs.len();
        let mut i: usize = 0;
        while i < n
            invariant
                i <= n,
                n == self@.chunkrefs.len(),
                forall|j: int| 0 <= j < i ==> !((#[trigger] self@.chunkrefs[j]).nar_id == nar_id
                    && self@.chunkrefs[j].seq == s),
            decreases n - i,
        {
            if self.chunkrefs[i].nar_id == nar_id && self.chunkrefs[i].seq == s {
                return Some(i);
            }
            i = i + 1;
        }
        Option::None
    }

    fn find_object_index(&self, cache_id: i64, sph: &str) -> (r: Option<usize>)
        ensures
            r matches Some(i) ==> i < self@.objects.len() && self@.objects[i as int].cache_id
                == cache_id && self@.objects[i as int].store_path_hash == sph@,
            r is None ==> forall|j: int| 0 <= j < self@.objects.len() ==> !((
            #[trigger] self@.objects[j]).cache_id == cache_id
                && self@.objects[j].store_path_hash == sph@),
    {
        let n = self.objects.len();
        let mut i: usize = 0;
        while i < n
            invariant
                i <= n,
                n == self@.objects.len(),
                forall|j: int| 0 <= j < i ==> !((#[trigger] self@.objects[j]).cache_id == cache_id
                    && self@.objects[j].store_path_hash == sph@),
            decreases n - i,
        {
            if self.objects[i].cache_id == cache_id && crate::text::str_eq(
                self.objects[i].store_path_hash.as_str(),
                sph,
            ) {
                return Some(i);
            }
            i = i + 1;
        }
        Option::None
    }

    /// Atomic insert-if-absent-else-return-existing for chunks, keyed by
    /// content hash: if a chunk with this hash exists its id is returned and
    /// nothing changes (a dedup hit); otherwise the chunk is stored under a
    /// fresh id. Returns the chunk id and whether it was a dedup hit.
    pub fn insert_or_get_chunk(&mut self, hash: crate::hash::Hash, bytes: Vec<u8>,
        compression: Compression) -> (r: (i64, bool))
        requires
            old(self)@.wf(),
            hash@.algo == HashAlgorithm::Sha256,
            hash@.digest == sha256_digest(bytes@),
            hash@.digest.len() == 32,
            old(self)@.next_id < i64::MAX,
        ensures
            final(self)@.wf(),
            r.1 == old(self)@.has_chunk_with_hash(hash@),
            r.1 ==> final(self)@ == old(self)@,
            final(self)@.chunk_by_id(r.0) matches Some(c) && c.chunk_hash == hash@,
            !r.1 ==> {
                &&& r.0 == old(self)@.next_id
                &&& final(self)@.chunks == old(self)@.chunks.push(
                    ChunkModelView {
                        id: r.0,
                        chunk_hash: hash@,
                        size: bytes@.len() as u64,
                        compression,
                        bytes: bytes@,
                    },
                )
                &&& final(self)@.next_id == old(self)@.next_id + 1
                &&& final(self)@.nars == old(self)@.nars
                &&& final(self)@.chunkrefs == old(self)@.chunkrefs
                &&& final(self)@.objects == old(self)@.objects
            },
    {
        match self.find_chunk_index_by_hash(&hash) {
            Some(i) => {
                let id = self.chunks[i].id;
                proof {
                    lemma_chunk_by_id_is(self@.chunks, id, i as int);
                }
                (id, true)
            }
            Option::None => {
                let id = self.next_id;
                let size = bytes.len() as u64;
                let model = ChunkModel { id, chunk_hash: hash, size, compression, bytes };
                let ghost mv = model@;
                self.chunks.push(model);
                self.next_id = id + 1;
                proof {
                    assert(final(self)@.chunks =~= old(self)@.chunks.push(mv));
                    assert(final(self)@.nars =~= old(self)@.nars);
                    assert(final(self)@.chunkrefs =~= old(self)@.chunkrefs);
                    assert(final(self)@.objects =~= old(self)@.objects);
                    assert forall|a: int, b: int|
                        0 <= a < b < final(self)@.chunks.len() implies (
                    #[trigger] final(self)@.chunks[a]).id != (#[trigger] final(self)@.chunks[b]).id
                        && final(self)@.chunks[a].chunk_hash
                        != final(self)@.chunks[b].chunk_hash by {
                        if b == final(self)@.chunks.len() - 1 {
                            assert(final(self)@.chunks[a] == old(self)@.chunks[a]);
                            assert(old(self)@.chunk_ok(old(self)@.chunks[a]));
                            if old(self)@.chunks[a].chunk_hash == mv.chunk_hash {
                                assert(old(self)@.has_chunk_with_hash(hash@));
                            }
                        }
                    }
                    lemma_chunk_by_id_is(final(self)@.chunks, id, final(self)@.chunks.len() - 1);
                }
                (id, false)
            }
        }
    }

    /// Atomic insert-or-update-on-conflict for objects, keyed by
    /// `(cache_id, store_path_hash)`: the last writer's metadata wins, but a
    /// replaced row keeps its identity. The `id` field of the argument is
    /// ignored.
    pub fn upsert_object(&mut self, obj: ObjectModel) -> (r: usize)
        requires
            old(self)@.wf(),
            old(self)@.next_id < i64::MAX,
        ensures
            final(self)@.wf(),
            final(self)@.chunks == old(self)@.chunks,
            final(self)@.nars == old(self)@.nars,
            final(self)@.chunkrefs == old(self)@.chunkrefs,
            object_for_in(old(self)@.objects, obj@.cache_id, obj@.store_path_hash) matches Some(
                prev,
            ) ==> {
                &&& r < old(self)@.objects.len()
                &&& old(self)@.objects[r as int] == prev
                &&& final(self)@.objects == old(self)@.objects.update(
                    r as int,
                    ObjectModelView { id: prev.id, ..obj@ },
                )
                &&& final(self)@.next_id == old(self)@.next_id
            },
            object_for_in(old(self)@.objects, obj@.cache_id, obj@.store_path_hash) is None ==> {
                &&& r == old(self)@.objects.len()
                &&& final(self)@.objects == old(self)@.objects.push(
                    ObjectModelView { id: old(self)@.next_id, ..obj@ },
                )
                &&& final(self)@.next_id == old(self)@.next_id + 1
            },
            final(self)@.object_for(obj@.cache_id, obj@.store_path_hash) matches Some(o) && o
                == (ObjectModelView { id: final(self)@.objects[r as int].id, ..obj@ }),
            r < final(self)@.objects.len(),
    {
        match self.find_object_index(obj.cache_id, obj.store_path_hash.as_str()) {
            Some(i) => {
                proof {
                    lemma_object_for_is(
                        old(self)@.objects,
                        obj@.cache_id,
                        obj@.store_path_hash,
                        i as int,
                    );
                }
                let prev_id = self.objects[i].id;
                let updated = ObjectModel { id: prev_id, ..obj };
                let ghost uv = updated@;
                self.objects.set(i, updated);
                proof {
                    assert(final(self)@.objects =~= old(self)@.objects.update(i as int, uv));
                    assert(final(self)@.chunks =~= old(self)@.chunks);
                    assert(final(self)@.nars =~= old(self)@.nars);
                    assert(final(self)@.chunkrefs =~= old(self)@.chunkrefs);
                    assert(uv == ObjectModelView { id: old(self)@.objects[i as int].id, ..obj@ });
                    assert forall|a: int, b: int|
                        0 <= a < b < final(self)@.objects.len() implies !((
                    #[trigger] final(self)@.objects[a]).cache_id == (
                    #[trigger] final(self)@.objects[b]).cache_id
                        && final(self)@.objects[a].store_path_hash
                        == final(self)@.objects[b].store_path_hash) by {
                        assert(old(self)@.objects[a].cache_id != old(self)@.objects[b].cache_id
                            || old(self)@.objects[a].store_path_hash
                            != old(self)@.objects[b].store_path_hash);
                    }
                    lemma_object_for_is(
                        final(self)@.objects,
                        obj@.cache_id,
                        obj@.store_path_hash,
                        i as int,
                    );
                }
                i
            }
            Option::None => {
                let id = self.next_id;
                let inserted = ObjectModel { id, ..obj };
                let ghost iv = inserted@;
                self.objects.push(inserted);
                self.next_id = id + 1;
                let r = self.objects.len() - 1;
                proof {
                    assert(final(self)@.objects =~= old(self)@.objects.push(iv));
                    assert(final(self)@.chunks =~= old(self)@.chunks);
                    assert(final(self)@.nars =~= old(self)@.nars);
                    assert(final(self)@.chunkrefs =~= old(self)@.chunkrefs);
                    assert(iv == ObjectModelView { id: old(self)@.next_id, ..obj@ });
                    assert forall|a: int, b: int|
                        0 <= a < b < final(self)@.objects.len() implies !((
                    #[trigger] final(self)@.objects[a]).cache_id == (
                    #[trigger] final(self)@.objects[b]).cache_id
                        && final(self)@.objects[a].store_path_hash
                        == final(self)@.objects[b].store_path_hash) by {
                        if b == final(self)@.objects.len() - 1 {
                            assert(final(self)@.objects[a] == old(self)@.objects[a]);
                        }
                    }
                    lemma_object_for_is(
                        final(self)@.objects,
                        obj@.cache_id,
                        obj@.store_path_hash,
                        r as int,
                    );
                }
                r
            }
        }
    }

    /// Removes a chunk row (standing in for an external garbage collector;
    /// chunk references are left dangling on purpose).
    pub fn delete_chunk(&mut self, chunk_id: i64) -> (r: Option<usize>)
        requires
            old(self)@.wf(),
        ensures
            final(self)@.wf(),
            r matches Some(i) ==> i < old(self)@.chunks.len() && old(self)@.chunks[i as int].id
                == chunk_id && final(self)@.chunks == old(self)@.chunks.remove(i as int)
                && final(self)@.nars == old(self)@.nars && final(self)@.chunkrefs == old(
                self,
            )@.chunkrefs && final(self)@.objects == old(self)@.objects && final(self)@.next_id
                == old(self)@.next_id,
            r is None ==> final(self)@ == old(self)@ && (forall|j: int|
                0 <= j < old(self)@.chunks.len() ==> (#[trigger] old(self)@.chunks[j]).id
                    != chunk_id),
    {
        match self.find_chunk_index_by_id(chunk_id) {
            Some(i) => {
                self.chunks.remove(i);
                proof {
                    assert(final(self)@.chunks =~= old(self)@.chunks.remove(i as int));
                    assert(final(self)@.nars =~= old(self)@.nars);
                    assert(final(self)@.chunkrefs =~= old(self)@.chunkrefs);
                    assert(final(self)@.objects =~= old(self)@.objects);
                    let oc = old(self)@.chunks;
                    let nc = final(self)@.chunks;
                    assert forall|a: int, b: int| 0 <= a < b < nc.len() implies (
                    #[trigger] nc[a]).id != (#[trigger] nc[b]).id && nc[a].chunk_hash
                        != nc[b].chunk_hash by {
                        let a2 = if a < i { a } else { a + 1 };
                        let b2 = if b < i { b } else { b + 1 };
                        assert(nc[a] == oc[a2] && nc[b] == oc[b2]);
                        assert(oc[a2].id != oc[b2].id && oc[a2].chunk_hash != oc[b2].chunk_hash);
                    }
                    assert forall|a: int| 0 <= a < nc.len() implies final(self)@.chunk_ok(
                        #[trigger] nc[a],
                    ) by {
                        let a2 = if a < i { a } else { a + 1 };
                        assert(nc[a] == oc[a2]);
                        assert(old(self)@.chunk_ok(oc[a2]));
                    }
                }
                Some(i)
            }
            Option::None => {
                proof {
                    assert(final(self)@ == old(self)@);
                }
                Option::None
            }
        }
    }

    /// Inserts a new NAR row under a fresh id. The caller has already
    /// established that no NAR with this content hash exists, so
    /// archive-level identity stays unique.
    pub fn insert_nar(&mut self, nar_hash: crate::hash::Hash, nar_size: u64,
        compression: Compression, num_chunks: u64) -> (r: i64)
        requires
            old(self)@.wf(),
            old(self)@.next_id < i64::MAX,
            !old(self)@.has_nar_with_hash(nar_hash@),
        ensures
            final(self)@.wf(),
            r == old(self)@.next_id,
            final(self)@.next_id == old(self)@.next_id + 1,
            final(self)@.nars == old(self)@.nars.push(
                NarModelView { id: r, nar_hash: nar_hash@, nar_size, compression, num_chunks },
            ),
            final(self)@.chunks == old(self)@.chunks,
            final(self)@.chunkrefs == old(self)@.chunkrefs,
            final(self)@.objects == old(self)@.objects,
    {
        let id = self.next_id;
        let model = NarModel { id, nar_hash, nar_size, compression, num_chunks };
        let ghost mv = model@;
        self.nars.push(model);
        self.next_id = id + 1;
        proof {
            assert(final(self)@.nars =~= old(self)@.nars.push(mv));
            assert(final(self)@.chunks =~= old(self)@.chunks);
            assert(final(self)@.chunkrefs =~= old(self)@.chunkrefs);
            assert(final(self)@.objects =~= old(self)@.objects);
            assert forall|a: int, b: int|
                0 <= a < b < final(self)@.nars.len() implies (#[trigger] final(self)@.nars[a]).id
                != (#[trigger] final(self)@.nars[b]).id && final(self)@.nars[a].nar_hash
                != final(self)@.nars[b].nar_hash by {
                if b == final(self)@.nars.len() - 1 {
                    assert(final(self)@.nars[a] == old(self)@.nars[a]);
                    if old(self)@.nars[a].nar_hash == mv.nar_hash {
                        assert(old(self)@.has_nar_with_hash(nar_hash@));
                    }
                }
            }
        }
        id
    }

    /// Records one ordered chunk reference of a NAR, with its chunk id
    /// already resolved.
    pub fn insert_chunkref(&mut self, nar_id: i64, s: u64, chunk_id: i64,
        chunk_hash: crate::hash::Hash, compression: Compression) -> (r: i64)
        requires
            old(self)@.wf(),
            old(self)@.next_id < i64::MAX,
            0 <= nar_id < old(self)@.next_id,
            old(self)@.ref_for(nar_id, s) is None,
        ensures
            final(self)@.wf(),
            r == old(self)@.next_id,
            final(self)@.next_id == old(self)@.next_id + 1,
            final(self)@.chunkrefs == old(self)@.chunkrefs.push(
                ChunkRefModelView {
                    id: r,
                    nar_id,
                    seq: s,
                    chunk_id: Some(chunk_id),
                    chunk_hash: chunk_hash@,
                    compression,
                },
            ),
            final(self)@.chunks == old(self)@.chunks,
            final(self)@.nars == old(self)@.nars,
            final(self)@.objects == old(self)@.objects,
    {
        let id = self.next_id;
        let model = ChunkRefModel {
            id,
            nar_id,
            seq: s,
            chunk_id: Some(chunk_id),
            chunk_hash,
            compression,
        };
        let ghost mv = model@;
        self.chunkrefs.push(model);
        self.next_id = id + 1;
        proof {
            assert(final(self)@.chunkrefs =~= old(self)@.chunkrefs.push(mv));
            assert(final(self)@.chunks =~= old(self)@.chunks);
            assert(final(self)@.nars =~= old(self)@.nars);
            assert(final(self)@.objects =~= old(self)@.objects);
            assert forall|a: int, b: int|
                0 <= a < b < final(self)@.chunkrefs.len() implies !((
            #[trigger] final(self)@.chunkrefs[a]).nar_id == (
            #[trigger] final(self)@.chunkrefs[b]).nar_id && final(self)@.chunkrefs[a].seq
                == final(self)@.chunkrefs[b].seq) by {
                if b == final(self)@.chunkrefs.len() - 1 {
                    assert(final(self)@.chunkrefs[a] == old(self)@.chunkrefs[a]);
                    if old(self)@.chunkrefs[a].nar_id == nar_id && old(self)@.chunkrefs[a].seq
                        == s {
                        lemma_ref_for_is(old(self)@.chunkrefs, nar_id, s, a);
                    }
                }
            }
        }
        id
    }

    /// One complete archive upload: an archive-level dedup check first (a
    /// hit reuses the stored NAR with zero chunk work); on a miss,
    /// content-defined chunking with an insert-or-reuse per chunk and an
    /// ordered reference sequence for the new NAR; in both cases an
    /// insert-or-update of the object row (last writer's metadata wins).
    /// The declared NAR hash and size are checked against the received
    /// bytes before anything is written.
    pub fn upload(&mut self, cache_id: i64, info: &UploadPathNarInfo, data: Vec<u8>, now: u64)
        -> (r: Result<UploadPathResult, ErrorKind>)
        requires
            old(self)@.wf(),
            old(self)@.next_id + 2 * data@.len() + 2 < i64::MAX,
        ensures
            final(self)@.wf(),
            !(info.nar_hash@ == digest_hash(sha256_digest(data@)) && info.nar_size == data@.len())
                ==> (r matches Err(e) && e matches ErrorKind::RequestError { .. } && final(self)@
                == old(self)@),
            (info.nar_hash@ == digest_hash(sha256_digest(data@)) && info.nar_size == data@.len())
                ==> (r matches Ok(res) && {
                let h = info.nar_hash@;
                let cs = spec_chunks(data@, 0);
                &&& final(self)@.has_nar_with_hash(h)
                &&& (final(self)@.object_for(cache_id, info.store_path_hash@) matches Some(o)
                    && o.store_path == info.store_path@ && (final(self)@.nar_by_id(o.nar_id)
                    matches Some(backing) && backing.nar_hash == h))
                &&& (old(self)@.has_nar_with_hash(h) ==> {
                    &&& res.kind == UploadPathResultKind::Deduplicated
                    &&& res.file_size is None
                    &&& res.frac_deduplicated == Some(
                        DedupFraction {
                            reused_bytes: data@.len() as u64,
                            total_bytes: data@.len() as u64,
                        },
                    )
                    &&& final(self)@.chunks == old(self)@.chunks
                    &&& final(self)@.nars == old(self)@.nars
                    &&& final(self)@.chunkrefs == old(self)@.chunkrefs
                })
                &&& (!old(self)@.has_nar_with_hash(h) ==> {
                    &&& res.kind == UploadPathResultKind::Uploaded
                    &&& res.file_size == Some(data@.len() as usize)
                    &&& (res.frac_deduplicated matches Some(f) && f.reused_bytes == reused_len(
                        old(self)@,
                        cs,
                        cs.len() as int,
                    ) && f.total_bytes == data@.len())
                    &&& (final(self)@.nar_by_id(old(self)@.next_id) matches Some(n) && n.nar_hash
                        == h && n.nar_size == data@.len() && n.num_chunks == cs.len()
                        && final(self)@.nar_complete(n) && (forall|s: u64|
                        s < n.num_chunks ==> ((#[trigger] final(self)@.resolved_chunk(n.id, s))
                            matches Some(c) && c.chunk_hash == digest_hash(
                            sha256_digest(cs[s as int]),
                        ))))
                    &&& old(self)@.chunks.is_prefix_of(final(self)@.chunks)
                })
            }),
    {
        let actual = crate::hash::Hash::sha256_from_bytes(data.as_slice());
        if !actual.same_hash(&info.nar_hash) {
            return Err(
                ErrorKind::RequestError(
                    String::from_str("declared NAR hash does not match the uploaded bytes"),
                ),
            );
        }
        if info.nar_size != data.len() {
            return Err(
                ErrorKind::RequestError(
                    String::from_str("declared NAR size does not match the uploaded bytes"),
                ),
            );
        }
        proof {
            assert(info.nar_hash@ =~= digest_hash(sha256_digest(data@)));
        }
        let compression = Compression::NoCompression;
        match self.find_nar_index_by_hash(&info.nar_hash) {
            Some(ni) => {
                let nid = self.nars[ni].id;
                proof {
                    lemma_nar_by_id_is(self@.nars, nid, ni as int);
                }
                let obj = ObjectModel {
                    id: 0,
                    cache_id,
                    nar_id: nid,
                    store_path_hash: info.store_path_hash.to_string(),
                    store_path: info.store_path.clone(),
                    references: copy_strings(&info.references),
                    system: copy_opt_string(&info.system),
                    deriver: copy_opt_string(&info.deriver),
                    sigs: copy_strings(&info.sigs),
                    ca: copy_opt_string(&info.ca),
                    created_at: now,
                    last_accessed_at: Option::None,
                    created_by: Option::None,
                };
                self.upsert_object(obj);
                let len64 = data.len() as u64;
                Ok(
                    UploadPathResult {
                        kind: UploadPathResultKind::Deduplicated,
                        file_size: Option::None,
                        frac_deduplicated: Some(
                            DedupFraction { reused_bytes: len64, total_bytes: len64 },
                        ),
                    },
                )
            }
            Option::None => {
                let chunks_list = chunk_bytes(&data);
                let k = chunks_list.len();
                let ghost csv = spec_chunks(data@, 0);
                proof {
                    lemma_chunks_concat(data@, 0);
                    assert(concat_chunks(csv) =~= data@);
                    lemma_concat_total(csv);
                    lemma_total_ge_count(csv, k as int);
                    assert(k <= data@.len());
                }
                let nid = self.insert_nar(
                    actual.dup(),
                    data.len() as u64,
                    compression,
                    k as u64,
                );
                let ghost stn = self@;
                let ghost nar_view = NarModelView {
                    id: nid,
                    nar_hash: info.nar_hash@,
                    nar_size: data@.len() as u64,
                    compression,
                    num_chunks: k as u64,
                };
                proof {
                    assert(stn.nars == old(self)@.nars.push(nar_view));
                    assert forall|t: u64| #[trigger] stn.ref_for(nid, t) is None by {
                        if exists|j: int|
                            0 <= j < stn.chunkrefs.len() && (#[trigger] stn.chunkrefs[j]).nar_id
                                == nid && stn.chunkrefs[j].seq == t {
                            let j = choose|j: int|
                                0 <= j < stn.chunkrefs.len() && (
                                #[trigger] stn.chunkrefs[j]).nar_id == nid && stn.chunkrefs[j].seq
                                    == t;
                            assert(old(self)@.chunkrefs[j].nar_id < old(self)@.next_id);
                        }
                    }
                }
                let mut reused: u64 = 0;
                let mut i: usize = 0;
                while i < k
                    invariant
                        i <= k,
                        k == csv.len(),
                        k <= data@.len(),
                        k == chunks_list@.len(),
                        forall|j: int| 0 <= j < k ==> #[trigger] chunks_list@[j]@ == csv[j],
                        total_len(csv, k as int) == data@.len(),
                        self@.wf(),
                        self@.nars == stn.nars,
                        self@.objects == old(self)@.objects,
                        old(self)@.chunks.is_prefix_of(self@.chunks),
                        self@.next_id <= old(self)@.next_id + 1 + 2 * i,
                        nid == old(self)@.next_id,
                        0 <= nid,
                        nid < self@.next_id,
                        old(self)@.next_id + 2 * data@.len() + 2 < i64::MAX,
                        stn.nars == old(self)@.nars.push(nar_view),
                        forall|t: u64| t >= i ==> (#[trigger] self@.ref_for(nid, t)) is None,
                        forall|t: u64| t < i ==> ((#[trigger] self@.resolved_chunk(nid, t))
                            matches Some(c) && c.chunk_hash == digest_hash(
                            sha256_digest(csv[t as int]),
                        )),
                        forall|h: HashView| #[trigger] self@.has_chunk_with_hash(h) <==> (old(
                            self,
                        )@.has_chunk_with_hash(h) || (exists|j: int|
                            0 <= j < i && h == digest_hash(sha256_digest(csv[j])))),
                        reused as int == reused_len(old(self)@, csv, i as int),
                    decreases k - i,
                {
                    let blen = chunks_list[i].len();
                    let bytes = crate::entity::copy_bytes(&chunks_list[i]);
                    let ch = crate::hash::Hash::sha256_from_bytes(bytes.as_slice());
                    let ch_ref = ch.dup();
                    let ghost pre = self@;
                    let ghost dh = digest_hash(sha256_digest(csv[i as int]));
                    proof {
                        assert(bytes@ == csv[i as int]);
                        assert(ch@ =~= dh);
                    }
                    let (cid, hit) = self.insert_or_get_chunk(ch, bytes, compression);
                    let ghost mid = self@;
                    proof {
                        assert(hit == pre.has_chunk_with_hash(dh));
                        assert(hit == chunk_reused(old(self)@, csv, i as int)) by {
                            if exists|j: int| 0 <= j < i && dh == digest_hash(
                                sha256_digest(csv[j]),
                            ) {
                                let j = choose|j: int|
                                    0 <= j < i && dh == digest_hash(sha256_digest(csv[j]));
                                assert(sha256_digest(csv[j]) == sha256_digest(csv[i as int]));
                            }
                            if chunk_reused(old(self)@, csv, i as int) && !old(
                                self,
                            )@.has_chunk_with_hash(dh) {
                                let j = choose|j: int|
                                    0 <= j < i && sha256_digest(csv[j]) == sha256_digest(
                                        csv[i as int],
                                    );
                                assert(dh == digest_hash(sha256_digest(csv[j])));
                            }
                        }
                        lemma_reused_le_total(old(self)@, csv, i as int);
                        lemma_total_mono(csv, i + 1, k as int);
                        assert(total_len(csv, i + 1) == total_len(csv, i as int) + csv[
                            i as int
                        ].len());
                        assert(reused_len(old(self)@, csv, i + 1) == reused_len(
                            old(self)@,
                            csv,
                            i as int,
                        ) + if chunk_reused(old(self)@, csv, i as int) {
                            csv[i as int].len() as int
                        } else {
                            0
                        });
                    }
                    if hit {
                        reused = reused + blen as u64;
                    }
                    proof {
                        assert(pre.ref_for(nid, i as u64) is None);
                        assert(self@.chunkrefs == pre.chunkrefs);
                        assert(self@.ref_for(nid, i as u64) is None);
                    }
                    let rid = self.insert_chunkref(nid, i as u64, cid, ch_ref, compression);
                    let ghost cur = self@;
                    let ghost newref = ChunkRefModelView {
                        id: rid,
                        nar_id: nid,
                        seq: i as u64,
                        chunk_id: Some(cid),
                        chunk_hash: dh,
                        compression,
                    };
                    proof {
                        assert(mid.chunkrefs == pre.chunkrefs);
                        assert(cur.chunkrefs == mid.chunkrefs.push(newref));
                        assert(mid.ref_for(nid, i as u64) is None) by {
                            assert(pre.ref_for(nid, i as u64) is None);
                        }
                        assert forall|a: int| 0 <= a < mid.chunkrefs.len() implies !((
                        #[trigger] mid.chunkrefs[a]).nar_id == newref.nar_id
                            && mid.chunkrefs[a].seq == newref.seq) by {
                            if mid.chunkrefs[a].nar_id == nid && mid.chunkrefs[a].seq == (
                            i as u64) {
                                assert(mid.ref_for(nid, i as u64) is Some);
                            }
                        }
                        // Lookups at seq >= i + 1 still find nothing.
                        assert forall|t: u64| t >= i + 1 implies (#[trigger] cur.ref_for(
                            nid,
                            t,
                        )) is None by {
                            lemma_ref_for_push(mid.chunkrefs, newref, nid, t);
                            assert(pre.ref_for(nid, t) is None);
                            assert(mid.ref_for(nid, t) is None);
                        }
                        // Every chunk placed so far still resolves, and the new
                        // one does too.
                        lemma_ref_for_is(cur.chunkrefs, nid, i as u64, cur.chunkrefs.len() - 1);
                        assert forall|t: u64| t < i + 1 implies ((#[trigger] cur.resolved_chunk(
                            nid,
                            t,
                        )) matches Some(c) && c.chunk_hash == digest_hash(
                            sha256_digest(csv[t as int]),
                        )) by {
                            if t < i {
                                assert(pre.resolved_chunk(nid, t) matches Some(c) && c.chunk_hash
                                    == digest_hash(sha256_digest(csv[t as int])));
                                let rt = pre.ref_for(nid, t)->Some_0;
                                let ct = rt.chunk_id->Some_0;
                                lemma_ref_for_push(mid.chunkrefs, newref, nid, t);
                                assert(cur.ref_for(nid, t) == pre.ref_for(nid, t));
                                if !hit {
                                    let newchunk = ChunkModelView {
                                        id: pre.next_id,
                                        chunk_hash: dh,
                                        size: csv[i as int].len() as u64,
                                        compression,
                                        bytes: csv[i as int],
                                    };
                                    assert(mid.chunks == pre.chunks.push(newchunk));
                                    assert(pre.chunk_by_id(ct) is Some);
                                    let wi = choose|wi: int|
                                        0 <= wi < pre.chunks.len() && (
                                        #[trigger] pre.chunks[wi]).id == ct;
                                    assert(pre.chunk_ok(pre.chunks[wi]));
                                    lemma_chunk_by_id_push(pre.chunks, newchunk, ct);
                                } else {
                                    assert(mid == pre);
                                }
                                assert(cur.chunk_by_id(ct) == pre.chunk_by_id(ct));
                            } else {
                                assert(cur.ref_for(nid, t) == Some(newref));
                                assert(mid.chunk_by_id(cid) matches Some(c) && c.chunk_hash
                                    == dh);
                            }
                        }
                        // How the set of stored chunk identities evolved.
                        assert forall|h: HashView| #[trigger] cur.has_chunk_with_hash(h) implies (
                        old(self)@.has_chunk_with_hash(h) || (exists|j: int|
                            0 <= j < i + 1 && h == digest_hash(sha256_digest(csv[j])))) by {
                            let idx = choose|idx: int|
                                0 <= idx < cur.chunks.len() && (#[trigger] cur.chunks[
                                    idx
                                ]).chunk_hash == h;
                            if idx < pre.chunks.len() {
                                assert(pre.chunks[idx].chunk_hash == h);
                                assert(pre.has_chunk_with_hash(h));
                            } else {
                                assert(cur.chunks[idx].chunk_hash == dh);
                                assert(h == digest_hash(sha256_digest(csv[i as int])));
                            }
                        }
                        assert forall|h: HashView| (old(self)@.has_chunk_with_hash(h) || (exists|
                            j: int| 0 <= j < i + 1 && h == digest_hash(sha256_digest(csv[j]))))
                            implies #[trigger] cur.has_chunk_with_hash(h) by {
                            if pre.has_chunk_with_hash(h) {
                                let idx = choose|idx: int|
                                    0 <= idx < pre.chunks.len() && (#[trigger] pre.chunks[
                                        idx
                                    ]).chunk_hash == h;
                                assert(cur.chunks[idx].chunk_hash == h);
                            } else {
                                assert(exists|j: int|
                                    0 <= j < i + 1 && h == digest_hash(sha256_digest(csv[j])));
                                let j = choose|j: int|
                                    0 <= j < i + 1 && h == digest_hash(sha256_digest(csv[j]));
                                if j < i {
                                    assert(pre.has_chunk_with_hash(h));
                                    assert(false);
                                } else {
                                    assert(h == dh);
                                    assert(mid.chunk_by_id(cid) matches Some(c) && c.chunk_hash
                                        == dh);
                                    let wc = mid.chunk_by_id(cid)->Some_0;
                                    assert(cur.has_chunk_with_hash(dh));
                                }
                            }
                        }
                        // Prefix of the original chunk table is untouched.
                        assert(old(self)@.chunks.is_prefix_of(cur.chunks)) by {
                            assert(old(self)@.chunks.is_prefix_of(pre.chunks));
                            if !hit {
                                assert(pre.chunks.is_prefix_of(cur.chunks));
                            }
                        }
                    }
                    i = i + 1;
                }
                let ghost endloop = self@;
                let obj = ObjectModel {
                    id: 0,
                    cache_id,
                    nar_id: nid,
                    store_path_hash: info.store_path_hash.to_string(),
                    store_path: info.store_path.clone(),
                    references: copy_strings(&info.references),
                    system: copy_opt_string(&info.system),
                    deriver: copy_opt_string(&info.deriver),
                    sigs: copy_strings(&info.sigs),
                    ca: copy_opt_string(&info.ca),
                    created_at: now,
                    last_accessed_at: Option::None,
                    created_by: Option::None,
                };
                self.upsert_object(obj);
                proof {
                    assert(final(self)@.nars == stn.nars);
                    assert(final(self)@.chunks == endloop.chunks);
                    assert(final(self)@.chunkrefs == endloop.chunkrefs);
                    lemma_nar_by_id_is(final(self)@.nars, nid, final(self)@.nars.len() - 1);
                    assert(final(self)@.nar_by_id(nid) == Some(nar_view));
                    assert forall|s: u64| s < nar_view.num_chunks implies ((
                    #[trigger] final(self)@.resolved_chunk(nid, s)) matches Some(c)
                        && c.chunk_hash == digest_hash(sha256_digest(csv[s as int]))) by {
                        assert(endloop.resolved_chunk(nid, s) matches Some(c) && c.chunk_hash
                            == digest_hash(sha256_digest(csv[s as int])));
                        assert(final(self)@.ref_for(nid, s) == endloop.ref_for(nid, s));
                        assert(final(self)@.resolved_chunk(nid, s) == endloop.resolved_chunk(
                            nid,
                            s,
                        ));
                    }
                    assert(final(self)@.has_nar_with_hash(info.nar_hash@)) by {
                        assert(final(self)@.nars[final(self)@.nars.len() - 1].nar_hash
                            == info.nar_hash@);
                    }
                }
                Ok(
                    UploadPathResult {
                        kind: UploadPathResultKind::Uploaded,
                        file_size: Some(data.len()),
                        frac_deduplicated: Some(
                            DedupFraction { reused_bytes: reused, total_bytes: data.len() as u64 },
                        ),
                    },
                )
            }
        }
    }

    /// Ordered reconstruction of a NAR from its chunk references. A
    /// reference that does not resolve to a stored chunk makes the NAR
    /// incomplete: the read fails with a distinct repair-needed condition
    /// rather than serving truncated bytes.
    pub fn reconstruct_nar(&self, nar_id: i64) -> (r: Result<
        Vec<u8>,
        crate::server_error::ErrorKind,
    >)
        requires
            self@.wf(),
        ensures
            self@.nar_by_id(nar_id) is None ==> (r matches Err(e) && e matches
                crate::server_error::ErrorKind::NoSuchObject),
            self@.nar_by_id(nar_id) matches Some(n) ==> {
                &&& (r is Ok <==> self@.nar_complete(n))
                &&& (r matches Ok(b) ==> b@ == self@.nar_bytes(n))
                &&& (!self@.nar_complete(n) ==> (r matches Err(e) && e matches
                    crate::server_error::ErrorKind::IncompleteNar))
            },
    {
        let idx = match self.find_nar_index_by_id(nar_id) {
            Some(i) => i,
            Option::None => {
                return Err(crate::server_error::ErrorKind::NoSuchObject);
            }
        };
        proof {
            lemma_nar_by_id_is(self@.nars, nar_id, idx as int);
        }
        let ghost nar = self@.nars[idx as int];
        let num = self.nars[idx].num_chunks;
        let mut out: Vec<u8> = Vec::new();
        let mut s: u64 = 0;
        while s < num
            invariant
                s <= num,
                self@.wf(),
                idx < self@.nars.len(),
                self@.nars[idx as int] == nar,
                nar.id == nar_id,
                nar.num_chunks == num,
                out@ == self@.nar_bytes_upto(nar_id, s as int),
                forall|t: u64| t < s ==> (#[trigger] self@.resolved_chunk(nar_id, t)) is Some,
            decreases num - s,
        {
            let ri = match self.find_ref_index(nar_id, s) {
                Some(ri) => ri,
                Option::None => {
                    proof {
                        assert(self@.ref_for(nar_id, s) is None);
                        assert(self@.resolved_chunk(nar_id, s) is None);
                        assert(!self@.nar_complete(nar));
                    }
                    return Err(crate::server_error::ErrorKind::IncompleteNar);
                }
            };
            proof {
                lemma_ref_for_is(self@.chunkrefs, nar_id, s, ri as int);
            }
            let cid = match self.chunkrefs[ri].chunk_id {
                Some(cid) => cid,
                Option::None => {
                    proof {
                        assert(self@.resolved_chunk(nar_id, s) is None);
                        assert(!self@.nar_complete(nar));
                    }
                    return Err(crate::server_error::ErrorKind::IncompleteNar);
                }
            };
            let ci = match self.find_chunk_index_by_id(cid) {
                Some(ci) => ci,
                Option::None => {
                    proof {
                        assert(self@.chunk_by_id(cid) is None);
                        assert(self@.resolved_chunk(nar_id, s) is None);
                        assert(!self@.nar_complete(nar));
                    }
                    return Err(crate::server_error::ErrorKind::IncompleteNar);
                }
            };
            proof {
                lemma_chunk_by_id_is(self@.chunks, cid, ci as int);
                assert(self@.resolved_chunk(nar_id, s) == Some(self@.chunks[ci as int]));
            }
            let chunk_len = self.chunks[ci].bytes.len();
            let mut j: usize = 0;
            while j < chunk_len
                invariant
                    j <= chunk_len,
                    ci < self@.chunks.len(),
                    chunk_len == self@.chunks[ci as int].bytes.len(),
                    self@.chunks[ci as int] == self.chunks@[ci as int]@,
                    out@ == self@.nar_bytes_upto(nar_id, s as int) + self@.chunks[
                        ci as int
                    ].bytes.take(j as int),
                decreases chunk_len - j,
            {
                out.push(self.chunks[ci].bytes[j]);
                proof {
                    assert(out@ =~= self@.nar_bytes_upto(nar_id, s as int) + self@.chunks[
                        ci as int
                    ].bytes.take(j + 1));
                }
                j = j + 1;
            }
            proof {
                assert(self@.chunks[ci as int].bytes.take(chunk_len as int) =~= self@.chunks[
                    ci as int
                ].bytes);
                assert(out@ =~= self@.nar_bytes_upto(nar_id, s + 1));
            }
            s = s + 1;
        }
        proof {
            assert(self@.nar_complete(nar));
            assert(self@.nar_by_id(nar_id) == Some(nar));
        }
        Ok(out)
    }
}

} // verus!
