//! The persisted rows of the dedup store: objects, NARs, chunks and the
//! ordered chunk references joining them, together with their mathematical
//! views.

use vstd::prelude::*;

use crate::hash::HashView;
use crate::narinfo::{Compression, NarInfo, view_opt_string};
use crate::server_error::ServerResult;

verus! {

/// One content-addressed, independently stored byte range. The in-memory
/// `bytes` field stands in for the storage backend: it holds the chunk's
/// content, and `size` its stored size.
#[derive(Debug, Clone)]
pub struct ChunkModel {
    pub id: i64,
    pub chunk_hash: crate::hash::Hash,
    pub size: u64,
    pub compression: Compression,
    pub bytes: Vec<u8>,
}

pub ghost struct ChunkModelView {
    pub id: i64,
    pub chunk_hash: HashView,
    pub size: u64,
    pub compression: Compression,
    pub bytes: Seq<u8>,
}

impl View for ChunkModel {
    type V = ChunkModelView;

    open spec fn view(&self) -> ChunkModelView {
        ChunkModelView {
            id: self.id,
            chunk_hash: self.chunk_hash@,
            size: self.size,
            compression: self.compression,
            bytes: self.bytes@,
        }
    }
}

/// One physical archive body: its content hash, decompressed size,
/// compression, and how many chunks compose it.
#[derive(Debug, Clone)]
pub struct NarModel {
    pub id: i64,
    pub nar_hash: crate::hash::Hash,
    pub nar_size: u64,
    pub compression: Compression,
    pub num_chunks: u64,
}

pub ghost struct NarModelView {
    pub id: i64,
    pub nar_hash: HashView,
    pub nar_size: u64,
    pub compression: Compression,
    pub num_chunks: u64,
}

impl View for NarModel {
    type V = NarModelView;

    open spec fn view(&self) -> NarModelView {
        NarModelView {
            id: self.id,
            nar_hash: self.nar_hash@,
            nar_size: self.nar_size,
            compression: self.compression,
            num_chunks: self.num_chunks,
        }
    }
}

/// The ordered join between a NAR and one of its chunks. The chunk hash is
/// always present; the chunk id may lag behind while the chunk body's
/// at-most-once store is still racing.
#[derive(Debug, Clone)]
pub struct ChunkRefModel {
    pub id: i64,
    pub nar_id: i64,
    pub seq: u64,
    pub chunk_id: Option<i64>,
    pub chunk_hash: crate::hash::Hash,
    pub compression: Compression,
}

pub ghost struct ChunkRefModelView {
    pub id: i64,
    pub nar_id: i64,
    pub seq: u64,
    pub chunk_id: Option<i64>,
    pub chunk_hash: HashView,
    pub compression: Compression,
}

impl View for ChunkRefModel {
    type V = ChunkRefModelView;

    open spec fn view(&self) -> ChunkRefModelView {
        ChunkRefModelView {
            id: self.id,
            nar_id: self.nar_id,
            seq: self.seq,
            chunk_id: self.chunk_id,
            chunk_hash: self.chunk_hash@,
            compression: self.compression,
        }
    }
}

/// One store path within one cache, backed by a NAR in the global cache.
/// `(cache_id, store_path_hash)` is unique; re-upload replaces the row's
/// values but keeps its identity.
#[derive(Debug, Clone)]
pub struct ObjectModel {
    pub id: i64,
    pub cache_id: i64,
    pub nar_id: i64,
    pub store_path_hash: String,
    pub store_path: String,
    pub references: Vec<String>,
    pub system: Option<String>,
    pub deriver: Option<String>,
    pub sigs: Vec<String>,
    pub ca: Option<String>,
    pub created_at: u64,
    pub last_accessed_at: Option<u64>,
    pub created_by: Option<String>,
}

pub ghost struct ObjectModelView {
    pub id: i64,
    pub cache_id: i64,
    pub nar_id: i64,
    pub store_path_hash: Seq<char>,
    pub store_path: Seq<char>,
    pub references: Seq<Seq<char>>,
    pub system: Option<Seq<char>>,
    pub deriver: Option<Seq<char>>,
    pub sigs: Seq<Seq<char>>,
    pub ca: Option<Seq<char>>,
    pub created_at: u64,
    pub last_accessed_at: Option<u64>,
    pub created_by: Option<Seq<char>>,
}

impl View for ObjectModel {
    type V = ObjectModelView;

    open spec fn view(&self) -> ObjectModelView {
        ObjectModelView {
            id: self.id,
            cache_id: self.cache_id,
            nar_id: self.nar_id,
            store_path_hash: self.store_path_hash@,
            store_path: self.store_path@,
            references: self.references.deep_view(),
            system: view_opt_string(self.system),
            deriver: view_opt_string(self.deriver),
            sigs: self.sigs.deep_view(),
            ca: view_opt_string(self.ca),
            created_at: self.created_at,
            last_accessed_at: self.last_accessed_at,
            created_by: view_opt_string(self.created_by),
        }
    }
}

/// An explicit copy of a byte buffer.
pub fn copy_bytes(v: &Vec<u8>) -> (r: Vec<u8>)
    ensures
        r@ == v@,
{
    let n = v.len();
    let mut out: Vec<u8> = Vec::new();
    let mut i: usize = 0;
    while i < n
        invariant
            i <= n,
            n == v@.len(),
            out@ == v@.take(i as int),
        decreases n - i,
    {
        out.push(v[i]);
        proof {
            assert(out@ =~= v@.take(i + 1));
        }
        i = i + 1;
    }
    proof {
        assert(out@ =~= v@);
    }
    out
}

/// An explicit copy of a list of strings.
pub fn copy_strings(v: &Vec<String>) -> (r: Vec<String>)
    ensures
        r.deep_view() == v.deep_view(),
        r@.len() == v@.len(),
        forall|i: int| 0 <= i < v@.len() ==> #[trigger] r@[i]@ == v@[i]@,
{
    let n = v.len();
    let mut out: Vec<String> = Vec::new();
    let mut i: usize = 0;
    while i < n
        invariant
            i <= n,
            n == v@.len(),
            out@.len() == i,
            forall|j: int| 0 <= j < i ==> #[trigger] out@[j]@ == v@[j]@,
        decreases n - i,
    {
        out.push(v[i].clone());
        i = i + 1;
    }
    proof {
        assert(out.deep_view() =~= v.deep_view());
    }
    out
}

/// An explicit copy of an optional string.
pub fn copy_opt_string(v: &Option<String>) -> (r: Option<String>)
    ensures
        view_opt_string(r) == view_opt_string(*v),
{
    match v {
        Some(s) => Some(s.clone()),
        Option::None => Option::None,
    }
}

impl ObjectModel {
    /// Converts this object row, together with its backing NAR row, to the
    /// manifest served to clients. The archive URL is derived from the
    /// store-path hash.
    pub fn to_nar_info(&self, nar: &NarModel) -> (r: ServerResult<NarInfo>)
        ensures
            r is Ok,
            r matches Ok(ni) ==> {
                &&& ni@.store_path == self@.store_path
                &&& ni@.url == "nar/"@ + self@.store_path_hash + ".nar"@
                &&& ni@.compression == nar@.compression
                &&& ni@.file_hash is None
                &&& ni@.file_size is None
                &&& ni@.nar_hash == nar@.nar_hash
                &&& ni@.nar_size == nar@.nar_size
                &&& ni@.system == self@.system
                &&& ni@.references == self@.references
                &&& ni@.deriver == self@.deriver
                &&& ni@.signature is None
                &&& ni@.ca == self@.ca
            },
    {
        let mut url = String::from_str("nar/");
        url.append(self.store_path_hash.as_str());
        url.append(".nar");
        proof {
            assert(url@ =~= "nar/"@ + self@.store_path_hash + ".nar"@);
        }
        Ok(
            NarInfo {
                store_path: self.store_path.clone(),
                url,
                compression: nar.compression,
                file_hash: Option::None,
                file_size: Option::None,
                nar_hash: nar.nar_hash.dup(),
                nar_size: nar.nar_size,
                system: copy_opt_string(&self.system),
                references: copy_strings(&self.references),
                deriver: copy_opt_string(&self.deriver),
                signature: Option::None,
                ca: copy_opt_string(&self.ca),
            },
        )
    }
}

} // verus!
