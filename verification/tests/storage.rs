use bunker::cache::CacheName;
use bunker::chunking::{MAX_CHUNK_SIZE, chunk_bytes};
use bunker::dedup::DedupStore;
use bunker::narinfo::{Compression, NarInfo};
use bunker::nix_manifest;
use bunker::nix_store::StorePathHash;
use bunker::server_error::ErrorKind;
use bunker::upload_path::{
    DedupFraction, MetadataFraming, NAR_INFO_PREAMBLE_THRESHOLD, UploadPathNarInfo,
    UploadPathResultKind, choose_framing, handle_upload, result_kind_from_name, split_preamble,
};

const HASH_A: &str = "ia70ss13m22znbl8khrf2hq72qmh5drr";
const HASH_B: &str = "0123456789abcdfghijklmnpqrsvwxyz";

/// A 500-byte block of filler that ends in a window the chunker always
/// takes as a content-defined boundary.
fn block(tag: u8) -> Vec<u8> {
    let mut b = vec![tag; 496];
    b.extend_from_slice(&[0, 0, 3, 255]);
    b
}

fn concat_blocks(tags: &[u8]) -> Vec<u8> {
    let mut out = Vec::new();
    for &t in tags {
        out.extend_from_slice(&block(t));
    }
    out
}

fn mk_info(cache: &str, sph: &str, name: &str, data: &[u8]) -> UploadPathNarInfo {
    UploadPathNarInfo {
        cache: CacheName::new(cache.to_string()).unwrap(),
        store_path_hash: StorePathHash::new(sph.to_string()).unwrap(),
        store_path: format!("{}-{}", sph, name),
        references: vec![],
        system: None,
        deriver: None,
        sigs: vec![],
        ca: None,
        nar_hash: bunker::hash::Hash::sha256_from_bytes(data),
        nar_size: data.len(),
    }
}

#[test]
fn chunks_concatenate_to_input() {
    let data = concat_blocks(&[10, 20, 30, 40]);
    let chunks = chunk_bytes(&data);
    assert!(chunks.len() >= 2);
    let mut joined = Vec::new();
    for c in &chunks {
        assert!(!c.is_empty());
        assert!(c.len() <= MAX_CHUNK_SIZE);
        joined.extend_from_slice(c);
    }
    assert_eq!(joined, data);
    assert!(chunk_bytes(&Vec::new()).is_empty());
}

#[test]
fn upload_then_reupload_deduplicates() {
    let mut store = DedupStore::new();
    let data = concat_blocks(&[1, 2, 3, 4, 5, 6, 7, 8]);
    let info = mk_info("cache", HASH_A, "pkg-1.0", &data);

    let r1 = store.upload(1, &info, data.clone(), 1_700_000_000).unwrap();
    assert_eq!(r1.kind, UploadPathResultKind::Uploaded);
    assert_eq!(r1.file_size, Some(data.len()));
    let f1 = r1.frac_deduplicated.unwrap();
    assert_eq!(f1.total_bytes, data.len() as u64);
    assert_eq!(f1.reused_bytes, 0);

    let nars_before = store.nar_count();
    let chunks_before = store.chunk_count();
    let r2 = store.upload(1, &info, data.clone(), 1_700_000_100).unwrap();
    assert_eq!(r2.kind, UploadPathResultKind::Deduplicated);
    assert_eq!(r2.file_size, None);
    assert_eq!(
        r2.frac_deduplicated,
        Some(DedupFraction { reused_bytes: data.len() as u64, total_bytes: data.len() as u64 })
    );
    // Nothing new was stored, and the object row was replaced, not added.
    assert_eq!(store.nar_count(), nars_before);
    assert_eq!(store.chunk_count(), chunks_before);
    assert_eq!(store.object_count(), 1);
}

#[test]
fn partially_shared_archive_reports_fraction() {
    let mut store = DedupStore::new();
    let data1 = concat_blocks(&[1, 2, 3, 4, 5, 6, 7, 8]);
    let data2 = concat_blocks(&[11, 12, 13, 14, 5, 6, 7, 8]);
    let info1 = mk_info("cache", HASH_A, "pkg-1.0", &data1);
    let info2 = mk_info("cache", HASH_B, "pkg-1.1", &data2);

    store.upload(1, &info1, data1.clone(), 0).unwrap();
    let r2 = store.upload(1, &info2, data2.clone(), 1).unwrap();
    assert_eq!(r2.kind, UploadPathResultKind::Uploaded);
    let f = r2.frac_deduplicated.unwrap();
    assert_eq!(f.total_bytes, data2.len() as u64);
    // Half the blocks are shared: the reused fraction is strictly between
    // a quarter and three quarters, not 0 and not 1.
    assert!(f.reused_bytes * 4 >= f.total_bytes);
    assert!(f.reused_bytes * 4 <= f.total_bytes * 3);
}

#[test]
fn shared_chunks_are_stored_once() {
    let mut store = DedupStore::new();
    let data1 = concat_blocks(&[1, 2, 3, 4, 5, 6, 7, 8]);
    let data2 = concat_blocks(&[11, 12, 13, 14, 5, 6, 7, 8]);
    let info1 = mk_info("cache", HASH_A, "pkg-1.0", &data1);
    let info2 = mk_info("cache", HASH_B, "pkg-1.1", &data2);

    store.upload(1, &info1, data1.clone(), 0).unwrap();
    let chunks_after_first = store.chunk_count();
    let second_chunks = chunk_bytes(&data2).len();
    store.upload(1, &info2, data2.clone(), 1).unwrap();
    // The second archive added some chunks, but its shared chunks were
    // reused rather than stored again.
    assert!(store.chunk_count() > chunks_after_first);
    assert!(store.chunk_count() < chunks_after_first + second_chunks);

    // Both archives still read back exactly.
    let nid1 = store.lookup_nar_id(&info1.nar_hash).unwrap();
    let nid2 = store.lookup_nar_id(&info2.nar_hash).unwrap();
    assert_eq!(store.reconstruct_nar(nid1).unwrap(), data1);
    assert_eq!(store.reconstruct_nar(nid2).unwrap(), data2);
}

#[test]
fn deleted_chunk_makes_nar_incomplete() {
    let mut store = DedupStore::new();
    let data = concat_blocks(&[1, 2, 3, 4]);
    let info = mk_info("cache", HASH_A, "pkg-1.0", &data);
    store.upload(1, &info, data.clone(), 0).unwrap();

    let nid = store.lookup_nar_id(&info.nar_hash).unwrap();
    assert_eq!(store.reconstruct_nar(nid).unwrap(), data);

    // Simulate external GC misbehavior: drop a referenced chunk row.
    let cid = store.chunk_id_at(nid, 0).unwrap();
    assert!(store.delete_chunk(cid).is_some());
    match store.reconstruct_nar(nid) {
        Err(ErrorKind::IncompleteNar) => {}
        _ => panic!("expected IncompleteNar"),
    }
}

#[test]
fn reconstructing_unknown_nar_is_a_lookup_miss() {
    let store = DedupStore::new();
    match store.reconstruct_nar(7) {
        Err(ErrorKind::NoSuchObject) => {}
        _ => panic!("expected NoSuchObject"),
    }
}

#[test]
fn upload_rejects_mismatched_declarations() {
    let mut store = DedupStore::new();
    let data = concat_blocks(&[1, 2]);
    let mut info = mk_info("cache", HASH_A, "pkg-1.0", &data);
    info.nar_hash = bunker::hash::Hash::sha256_from_bytes(b"other bytes");
    match store.upload(1, &info, data.clone(), 0) {
        Err(ErrorKind::RequestError(_)) => {}
        _ => panic!("expected RequestError for hash mismatch"),
    }
    let mut info = mk_info("cache", HASH_A, "pkg-1.0", &data);
    info.nar_size = data.len() - 1;
    match store.upload(1, &info, data.clone(), 0) {
        Err(ErrorKind::RequestError(_)) => {}
        _ => panic!("expected RequestError for size mismatch"),
    }
}

#[test]
fn handle_upload_validates_identifiers() {
    let mut store = DedupStore::new();
    let data = concat_blocks(&[1, 2]);

    // Malformed store path.
    let mut info = mk_info("cache", HASH_A, "pkg-1.0", &data);
    info.store_path = "not-a-store-path".to_string();
    match handle_upload(&mut store, 1, &info, data.clone(), 0) {
        Err(ErrorKind::BunkerError(e)) => assert_eq!(e.name(), "InvalidStorePathName"),
        _ => panic!("expected BunkerError"),
    }

    // Hash segment that does not belong to the path.
    let mut info = mk_info("cache", HASH_A, "pkg-1.0", &data);
    info.store_path = format!("{}-pkg-1.0", HASH_B);
    match handle_upload(&mut store, 1, &info, data.clone(), 0) {
        Err(ErrorKind::RequestError(_)) => {}
        _ => panic!("expected RequestError"),
    }

    // A consistent upload goes through.
    let info = mk_info("cache", HASH_A, "pkg-1.0", &data);
    let r = handle_upload(&mut store, 1, &info, data.clone(), 0).unwrap();
    assert_eq!(r.kind, UploadPathResultKind::Uploaded);
}

#[test]
fn framing_threshold() {
    assert_eq!(choose_framing(100, false), MetadataFraming::Header);
    assert_eq!(
        choose_framing(NAR_INFO_PREAMBLE_THRESHOLD - 1, false),
        MetadataFraming::Header
    );
    assert_eq!(
        choose_framing(NAR_INFO_PREAMBLE_THRESHOLD, false),
        MetadataFraming::Preamble(NAR_INFO_PREAMBLE_THRESHOLD)
    );
    assert_eq!(choose_framing(10, true), MetadataFraming::Preamble(10));
}

#[test]
fn preamble_split_is_exact() {
    let body = b"{\"k\":1}PAYLOAD".to_vec();
    let (pre, payload) = split_preamble(body, 7).unwrap();
    assert_eq!(pre, b"{\"k\":1}".to_vec());
    assert_eq!(payload, b"PAYLOAD".to_vec());
    match split_preamble(b"tiny".to_vec(), 10) {
        Err(ErrorKind::RequestError(_)) => {}
        _ => panic!("expected RequestError"),
    }
}

#[test]
fn result_kind_parsing_is_forward_compatible() {
    assert_eq!(result_kind_from_name("Deduplicated"), UploadPathResultKind::Deduplicated);
    assert_eq!(result_kind_from_name("Uploaded"), UploadPathResultKind::Uploaded);
    assert_eq!(result_kind_from_name("SomeFutureKind"), UploadPathResultKind::Uploaded);
    assert_eq!(UploadPathResultKind::default(), UploadPathResultKind::Uploaded);
}

fn sample_nar_info() -> NarInfo {
    NarInfo {
        store_path: format!("/nix/store/{}-pkg-1.0", HASH_A),
        url: format!("nar/{}.nar", HASH_A),
        compression: Compression::Zstd,
        file_hash: Some(bunker::hash::Hash::sha256_from_bytes(b"compressed")),
        file_size: Some(12345),
        nar_hash: bunker::hash::Hash::sha256_from_bytes(b"uncompressed"),
        nar_size: 67890,
        system: Some("x86_64-linux".to_string()),
        references: vec![
            format!("{}-dep-a", HASH_A),
            format!("{}-dep-b", HASH_B),
        ],
        deriver: Some(format!("{}-pkg-1.0.drv", HASH_B)),
        signature: Some("cache.example-1:c2lnbmF0dXJl".to_string()),
        ca: Some("fixed:r:sha256:abcd".to_string()),
    }
}

fn assert_nar_info_eq(a: &NarInfo, b: &NarInfo) {
    assert_eq!(a.store_path, b.store_path);
    assert_eq!(a.url, b.url);
    assert_eq!(a.compression, b.compression);
    match (&a.file_hash, &b.file_hash) {
        (Some(x), Some(y)) => assert!(x.same_hash(y)),
        (None, None) => {}
        _ => panic!("file_hash mismatch"),
    }
    assert_eq!(a.file_size, b.file_size);
    assert!(a.nar_hash.same_hash(&b.nar_hash));
    assert_eq!(a.nar_size, b.nar_size);
    assert_eq!(a.system, b.system);
    assert_eq!(a.references, b.references);
    assert_eq!(a.deriver, b.deriver);
    assert_eq!(a.signature, b.signature);
    assert_eq!(a.ca, b.ca);
}

#[test]
fn manifest_round_trips_full() {
    let ni = sample_nar_info();
    let text = nix_manifest::to_string(&ni).unwrap();
    let back = nix_manifest::from_str(&text).unwrap();
    assert_nar_info_eq(&ni, &back);
}

#[test]
fn manifest_round_trips_minimal() {
    let mut ni = sample_nar_info();
    ni.file_hash = None;
    ni.file_size = None;
    ni.system = None;
    ni.references = vec![];
    ni.deriver = None;
    ni.signature = None;
    ni.ca = None;
    let text = nix_manifest::to_string(&ni).unwrap();
    assert!(text.contains("References: \n"));
    let back = nix_manifest::from_str(&text).unwrap();
    assert_nar_info_eq(&ni, &back);
}

#[test]
fn manifest_serialized_shape() {
    let mut ni = sample_nar_info();
    ni.file_hash = None;
    ni.file_size = None;
    ni.system = None;
    ni.deriver = None;
    ni.signature = None;
    ni.ca = None;
    ni.references = vec!["a".to_string(), "b".to_string()];
    let text = nix_manifest::to_string(&ni).unwrap();
    let expected = format!(
        "StorePath: /nix/store/{h}-pkg-1.0\nURL: nar/{h}.nar\nCompression: zstd\nNarHash: {nh}\nNarSize: 67890\nReferences: a b\n",
        h = HASH_A,
        nh = ni.nar_hash.to_typed(),
    );
    assert_eq!(text, expected);
}

#[test]
fn manifest_missing_colon_is_rejected() {
    let text = "StorePath /nix/store/x\n";
    match nix_manifest::deserialize_nar_info(text) {
        Err(nix_manifest::Error::ExpectedColon) => {}
        _ => panic!("expected ExpectedColon"),
    }
}

#[test]
fn manifest_tolerates_trailing_fields() {
    let ni = sample_nar_info();
    let mut text = nix_manifest::to_string(&ni).unwrap();
    text.push_str("SomeFutureField: some future value\nAnother: one\n");
    let back = nix_manifest::from_str(&text).unwrap();
    assert_nar_info_eq(&ni, &back);
}

#[test]
fn manifest_rejects_structural_damage_in_trailing_content() {
    // Extra well-formed fields pass; a structurally damaged trailing line
    // does not: the permissiveness is bounded to extra fields.
    let ni = sample_nar_info();
    let mut text = nix_manifest::to_string(&ni).unwrap();
    text.push_str("garbage without separator\n");
    match nix_manifest::deserialize_nar_info(&text) {
        Err(nix_manifest::Error::ExpectedColon) => {}
        _ => panic!("expected ExpectedColon"),
    }
}

#[test]
fn manifest_repeated_key_takes_last_value() {
    let ni = sample_nar_info();
    let mut text = nix_manifest::to_string(&ni).unwrap();
    text.push_str("URL: nar/other.nar\n");
    let back = nix_manifest::from_str(&text).unwrap();
    assert_eq!(back.url, "nar/other.nar");
}

#[test]
fn manifest_bad_integer_is_rejected() {
    let ni = sample_nar_info();
    let text = nix_manifest::to_string(&ni).unwrap();
    let text = text.replace("NarSize: 67890", "NarSize: notanumber");
    match nix_manifest::deserialize_nar_info(&text) {
        Err(nix_manifest::Error::ExpectedInteger) => {}
        _ => panic!("expected ExpectedInteger"),
    }
    let text2 = nix_manifest::to_string(&ni).unwrap().replace(
        "NarSize: 67890",
        "NarSize: 99999999999999999999999999",
    );
    match nix_manifest::deserialize_nar_info(&text2) {
        Err(nix_manifest::Error::ExpectedInteger) => {}
        _ => panic!("expected ExpectedInteger for overflow"),
    }
}

#[test]
fn manifest_missing_required_field_is_rejected() {
    match nix_manifest::deserialize_nar_info("StorePath: x\n") {
        Err(nix_manifest::Error::Custom(msg)) => {
            assert_eq!(msg, "missing required field");
        }
        _ => panic!("expected Custom error"),
    }
}

#[test]
fn manifest_unterminated_line_is_rejected() {
    match nix_manifest::deserialize_nar_info("StorePath: x") {
        Err(nix_manifest::Error::UnexpectedEof) => {}
        _ => panic!("expected UnexpectedEof"),
    }
    match nix_manifest::deserialize_nar_info("StorePath") {
        Err(nix_manifest::Error::UnexpectedEof) => {}
        _ => panic!("expected UnexpectedEof"),
    }
}

#[test]
fn manifest_boolean_values() {
    assert_eq!(nix_manifest::parse_bool("true").unwrap(), true);
    assert_eq!(nix_manifest::parse_bool("false").unwrap(), false);
    match nix_manifest::parse_bool("yes") {
        Err(nix_manifest::Error::ExpectedBoolean) => {}
        _ => panic!("expected ExpectedBoolean"),
    }
    match nix_manifest::parse_bool("") {
        Err(nix_manifest::Error::ExpectedBoolean) => {}
        _ => panic!("expected ExpectedBoolean"),
    }
}

#[test]
fn manifest_error_names() {
    assert_eq!(nix_manifest::Error::ExpectedColon.name(), "ExpectedColon");
    assert_eq!(nix_manifest::Error::UnexpectedEof.name(), "UnexpectedEof");
    assert_eq!(nix_manifest::Error::ExpectedBoolean.name(), "ExpectedBoolean");
    assert_eq!(nix_manifest::Error::ExpectedInteger.name(), "ExpectedInteger");
    assert_eq!(nix_manifest::Error::NoneUnsupported.name(), "NoneUnsupported");
    assert_eq!(nix_manifest::Error::NestedMapUnsupported.name(), "NestedMapUnsupported");
    assert_eq!(nix_manifest::Error::FloatUnsupported.name(), "FloatUnsupported");
    assert_eq!(nix_manifest::Error::AnyUnsupported.name(), "AnyUnsupported");
}

#[test]
fn object_row_converts_to_nar_info() {
    let obj = bunker::entity::ObjectModel {
        id: 1,
        cache_id: 1,
        nar_id: 2,
        store_path_hash: HASH_A.to_string(),
        store_path: format!("/nix/store/{}-pkg-1.0", HASH_A),
        references: vec!["r1".to_string()],
        system: Some("x86_64-linux".to_string()),
        deriver: None,
        sigs: vec![],
        ca: None,
        created_at: 0,
        last_accessed_at: None,
        created_by: None,
    };
    let nar = bunker::entity::NarModel {
        id: 2,
        nar_hash: bunker::hash::Hash::sha256_from_bytes(b"body"),
        nar_size: 4,
        compression: Compression::Zstd,
        num_chunks: 1,
    };
    let ni = obj.to_nar_info(&nar).unwrap();
    assert_eq!(ni.url, format!("nar/{}.nar", HASH_A));
    assert_eq!(ni.compression, Compression::Zstd);
    assert_eq!(ni.nar_size, 4);
    assert!(ni.nar_hash.same_hash(&nar.nar_hash));
    assert!(ni.file_hash.is_none());
    assert!(ni.signature.is_none());
    assert_eq!(ni.references, vec!["r1".to_string()]);
}
