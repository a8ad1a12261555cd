//! Upload protocol types and framing: one archive upload carries its
//! metadata either in a request header (small metadata) or as a
//! length-prefixed preamble at the start of the body (large metadata), and
//! reports whether the archive was stored or deduplicated.

use vstd::prelude::*;

use crate::cache::CacheName;
use crate::nix_store::StorePathHash;
use crate::server_error::ErrorKind;
use crate::text::str_eq;

verus! {

/// Header that carries the JSON metadata itself (header framing).
pub const BUNKER_NAR_INFO: &'static str = "X-Bunker-Nar-Info";

/// Header that carries the byte length of the metadata preamble at the
/// start of the body (preamble framing).
pub const BUNKER_NAR_INFO_PREAMBLE_SIZE: &'static str = "X-Bunker-Nar-Info-Preamble-Size";

/// Metadata below this many encoded bytes travels in a header; at or above
/// it, in a body preamble.
pub const NAR_INFO_PREAMBLE_THRESHOLD: usize = 4096;

/// The metadata of one archive upload.
#[derive(Debug, Clone)]
pub struct UploadPathNarInfo {
    pub cache: CacheName,
    pub store_path_hash: StorePathHash,
    pub store_path: String,
    pub references: Vec<String>,
    pub system: Option<String>,
    pub deriver: Option<String>,
    pub sigs: Vec<String>,
    pub ca: Option<String>,
    pub nar_hash: crate::hash::Hash,
    pub nar_size: usize,
}

/// What happened to an upload.
#[derive(Debug, Clone, Copy, PartialEq, Eq, Structural)]
pub enum UploadPathResultKind {
    /// The archive was new and its bytes were stored.
    Uploaded,
    /// The archive was already present and nothing was stored.
    Deduplicated,
}

impl Default for UploadPathResultKind {
    /// An unrecognized or absent result kind from a degraded peer is read
    /// as `Uploaded`, for forward compatibility.
    fn default() -> (r: UploadPathResultKind)
        ensures
            r == UploadPathResultKind::Uploaded,
    {
        UploadPathResultKind::Uploaded
    }
}

/// Parses a result-kind name; anything but `Deduplicated` is read as
/// `Uploaded`, for forward compatibility with protocol additions.
pub fn result_kind_from_name(name: &str) -> (r: UploadPathResultKind)
    ensures
        name@ == "Deduplicated"@ ==> r == UploadPathResultKind::Deduplicated,
        name@ != "Deduplicated"@ ==> r == UploadPathResultKind::Uploaded,
{
    if str_eq(name, "Deduplicated") {
        UploadPathResultKind::Deduplicated
    } else {
        UploadPathResultKind::Uploaded
    }
}

/// The deduplicated fraction of an upload, as an exact ratio of bytes.
#[derive(Debug, Clone, Copy, PartialEq, Eq, Structural)]
pub struct DedupFraction {
    /// Bytes of the archive that belonged to already-stored chunks.
    pub reused_bytes: u64,
    /// Total bytes of the archive.
    pub total_bytes: u64,
}

/// What an upload reports back.
#[derive(Debug, Clone, Copy, PartialEq, Eq, Structural)]
pub struct UploadPathResult {
    pub kind: UploadPathResultKind,
    /// Stored file size, when bytes were stored.
    pub file_size: Option<usize>,
    /// Fraction of the archive's bytes that were deduplicated.
    pub frac_deduplicated: Option<DedupFraction>,
}

/// How one upload's metadata is framed on the wire.
#[derive(Debug, Clone, Copy, PartialEq, Eq, Structural)]
pub enum MetadataFraming {
    /// Metadata rides in a request header; the whole body is payload.
    Header,
    /// The body starts with this many bytes of metadata, then the payload.
    Preamble(usize),
}

/// Picks the framing for metadata of the given encoded length: the preamble
/// exists because some transports cap header sizes.
pub fn choose_framing(metadata_len: usize, force_preamble: bool) -> (r: MetadataFraming)
    ensures
        (force_preamble || metadata_len >= NAR_INFO_PREAMBLE_THRESHOLD) ==> r
            == MetadataFraming::Preamble(metadata_len),
        !(force_preamble || metadata_len >= NAR_INFO_PREAMBLE_THRESHOLD) ==> r
            == MetadataFraming::Header,
{
    if force_preamble || metadata_len >= NAR_INFO_PREAMBLE_THRESHOLD {
        MetadataFraming::Preamble(metadata_len)
    } else {
        MetadataFraming::Header
    }
}

/// Terminates one upload after its metadata has been decoded: validates the
/// declared store path against the base-name grammar, checks that the
/// declared store-path hash is the path's own hash segment, and drives the
/// dedup store.
pub fn handle_upload(store: &mut crate::dedup::DedupStore, cache_id: i64,
    info: &UploadPathNarInfo, payload: Vec<u8>, now: u64) -> (r: Result<
    UploadPathResult,
    ErrorKind,
>)
    requires
        old(store)@.wf(),
        old(store)@.next_id + 2 * payload@.len() + 2 < i64::MAX,
    ensures
        final(store)@.wf(),
        !crate::nix_store::is_valid_base_name(info.store_path@) ==> (r matches Err(e) && e
            matches ErrorKind::BunkerError { .. } && final(store)@ == old(store)@),
        crate::nix_store::is_valid_base_name(info.store_path@) && info.store_path_hash@
            != info.store_path@.subrange(0, 32) ==> (r matches Err(e) && e matches
            ErrorKind::RequestError { .. } && final(store)@ == old(store)@),
        crate::nix_store::is_valid_base_name(info.store_path@) && info.store_path_hash@
            == info.store_path@.subrange(0, 32) && !(info.nar_hash@ == crate::dedup::digest_hash(
            crate::hash::sha256_digest(payload@),
        ) && info.nar_size == payload@.len()) ==> (r matches Err(e) && e matches
            ErrorKind::RequestError { .. } && final(store)@ == old(store)@),
        crate::nix_store::is_valid_base_name(info.store_path@) && info.store_path_hash@
            == info.store_path@.subrange(0, 32) && info.nar_hash@ == crate::dedup::digest_hash(
            crate::hash::sha256_digest(payload@),
        ) && info.nar_size == payload@.len() ==> (r matches Ok(res) && {
            &&& final(store)@.has_nar_with_hash(info.nar_hash@)
            &&& final(store)@.object_for(cache_id, info.store_path_hash@) is Some
            &&& (old(store)@.has_nar_with_hash(info.nar_hash@) ==> res.kind
                == UploadPathResultKind::Deduplicated)
            &&& (!old(store)@.has_nar_with_hash(info.nar_hash@) ==> res.kind
                == UploadPathResultKind::Uploaded)
        }),
{
    let path = match crate::nix_store::StorePath::from_base_name(info.store_path.clone()) {
        Ok(p) => p,
        Err(e) => {
            return Err(ErrorKind::BunkerError(e));
        }
    };
    let hash_of_path = path.to_hash();
    if !crate::text::str_eq(hash_of_path.as_str(), info.store_path_hash.as_str()) {
        return Err(
            ErrorKind::RequestError(
                String::from_str("store path hash does not match the store path"),
            ),
        );
    }
    store.upload(cache_id, info, payload, now)
}

/// Splits a preamble-framed body: exactly `preamble_size` bytes of metadata,
/// and everything after them as payload, with no delimiter in between. A
/// declared size beyond the body is a request error.
pub fn split_preamble(body: Vec<u8>, preamble_size: usize) -> (r: Result<
    (Vec<u8>, Vec<u8>),
    ErrorKind,
>)
    ensures
        r is Ok <==> preamble_size <= body@.len(),
        r matches Ok(p) ==> p.0@ == body@.take(preamble_size as int) && p.1@ == body@.skip(
            preamble_size as int,
        ),
        r matches Err(e) ==> e matches ErrorKind::RequestError { .. },
{
    let n = body.len();
    if preamble_size > n {
        return Err(
            ErrorKind::RequestError(
                String::from_str("declared preamble size exceeds the request body"),
            ),
        );
    }
    let mut preamble: Vec<u8> = Vec::new();
    let mut i: usize = 0;
    while i < preamble_size
        invariant
            i <= preamble_size <= n,
            n == body@.len(),
            preamble@ == body@.take(i as int),
        decreases preamble_size - i,
    {
        preamble.push(body[i]);
        proof {
            assert(preamble@ =~= body@.take(i + 1));
        }
        i = i + 1;
    }
    let mut payload: Vec<u8> = Vec::new();
    let mut j: usize = preamble_size;
    while j < n
        invariant
            preamble_size <= j <= n,
            n == body@.len(),
            payload@ == body@.subrange(preamble_size as int, j as int),
        decreases n - j,
    {
        payload.push(body[j]);
        proof {
            assert(payload@ =~= body@.subrange(preamble_size as int, j + 1));
        }
        j = j + 1;
    }
    proof {
        assert(payload@ =~= body@.skip(preamble_size as int));
    }
    Ok((preamble, payload))
}

} // verus!
