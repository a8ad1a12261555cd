use bunker::cache::CacheName;
use bunker::server_error::{ErrorKind, ServerError};
use bunker::error::BunkerError;
use bunker::hash::{HashAlgorithm, HashError};
use bunker::narinfo::Compression;
use bunker::nix_store::{StorePath, StorePathHash, derive_path_from_root, to_base_name};

const GOOD_HASH: &str = "ia70ss13m22znbl8khrf2hq72qmh5drr";

#[test]
fn store_path_hash_round_trips() {
    let h = StorePathHash::new(GOOD_HASH.to_string()).unwrap();
    assert_eq!(h.as_str(), GOOD_HASH);
    assert_eq!(h.to_string(), GOOD_HASH);
}

#[test]
fn store_path_hash_rejects_wrong_length() {
    let e = StorePathHash::new("abc".to_string()).unwrap_err();
    match e {
        BunkerError::InvalidStorePathHash { hash, reason } => {
            assert_eq!(hash, "abc");
            assert_eq!(reason, "Hash is of invalid length");
        }
        _ => panic!("wrong error variant"),
    }
}

#[test]
fn store_path_hash_rejects_wrong_alphabet() {
    // 'e' is excluded from the hash alphabet.
    let bad = "eeeeeeeeeeeeeeeeeeeeeeeeeeeeeeee";
    let e = StorePathHash::new(bad.to_string()).unwrap_err();
    match e {
        BunkerError::InvalidStorePathHash { reason, .. } => {
            assert_eq!(reason, "Hash is of invalid format");
        }
        _ => panic!("wrong error variant"),
    }
    // Uppercase is rejected too.
    assert!(StorePathHash::new("IA70SS13M22ZNBL8KHRF2HQ72QMH5DRR".to_string()).is_err());
}

#[test]
fn store_path_accepts_valid_base_name() {
    let base = format!("{}-ruby-2.7.5", GOOD_HASH);
    let p = StorePath::from_base_name(base.clone()).unwrap();
    assert_eq!(p.to_hash().as_str(), GOOD_HASH);
    assert_eq!(p.name(), "ruby-2.7.5");
    assert_eq!(p.as_base_name_bytes(), base.as_bytes());
}

#[test]
fn store_path_rejects_bad_base_names() {
    for bad in [
        "whatevenisthisthing",
        "",
        "ia70ss13m22znbl8khrf2hq72qmh5drr",      // no dash and name
        "ia70ss13m22znbl8khrf2hq72qmh5drr-",     // empty name
        "ia70ss13m22znbl8khrf2hq72qmh5drr-a b",  // space in name
        "eeeeeeeeeeeeeeeeeeeeeeeeeeeeeeee-ruby", // bad hash alphabet
    ] {
        let e = StorePath::from_base_name(bad.to_string()).unwrap_err();
        match e {
            BunkerError::InvalidStorePathName { reason, .. } => {
                assert_eq!(reason, "Name is of invalid format");
            }
            _ => panic!("wrong error variant for {:?}", bad),
        }
    }
}

#[test]
fn to_base_name_strips_store_dir() {
    let full = format!("/nix/store/{}-ruby-2.7.5", GOOD_HASH);
    let base = to_base_name("/nix/store", &full).unwrap();
    assert_eq!(base, format!("{}-ruby-2.7.5", GOOD_HASH));
    // Nested children still yield the first segment.
    let nested = format!("/nix/store/{}-ruby-2.7.5/bin/ruby", GOOD_HASH);
    assert_eq!(to_base_name("/nix/store", &nested).unwrap(), format!("{}-ruby-2.7.5", GOOD_HASH));
}

#[test]
fn to_base_name_rejects_store_dir_itself() {
    let e = to_base_name("/nix/store", "/nix/store").unwrap_err();
    match e {
        BunkerError::InvalidStorePath { reason, .. } => {
            assert_eq!(reason, "Path is store directory itself");
        }
        _ => panic!("wrong error variant"),
    }
    let e = to_base_name("/nix/store", "/nix/store/").unwrap_err();
    match e {
        BunkerError::InvalidStorePath { reason, .. } => {
            assert_eq!(reason, "Path is store directory itself");
        }
        _ => panic!("wrong error variant"),
    }
}

#[test]
fn to_base_name_rejects_foreign_paths() {
    let e = to_base_name("/nix/store", "/etc/passwd").unwrap_err();
    match e {
        BunkerError::InvalidStorePath { reason, .. } => {
            assert_eq!(reason, "Path is not in store directory");
        }
        _ => panic!("wrong error variant"),
    }
}

#[test]
fn to_base_name_rejects_short_segments() {
    let e = to_base_name("/nix/store", "/nix/store/short").unwrap_err();
    match e {
        BunkerError::InvalidStorePath { reason, .. } => {
            assert_eq!(reason, "Path is too short");
        }
        _ => panic!("wrong error variant"),
    }
}

#[test]
fn derive_path_from_root_validates() {
    let full = format!("/nix/store/{}-ruby-2.7.5", GOOD_HASH);
    let p = derive_path_from_root("/nix/store", &full).unwrap();
    assert_eq!(p.to_hash().as_str(), GOOD_HASH);
    assert!(derive_path_from_root("/nix/store", "/nix/store/AAAAAAAAAAAAAAAAAAAAAAAAAAAAAAAA-x")
        .is_err());
}

#[test]
fn bunker_error_names() {
    let e = StorePathHash::new("x".to_string()).unwrap_err();
    assert_eq!(e.name(), "InvalidStorePathHash");
    let e = StorePath::from_base_name("x".to_string()).unwrap_err();
    assert_eq!(e.name(), "InvalidStorePathName");
    let e = to_base_name("/s", "/x").unwrap_err();
    assert_eq!(e.name(), "InvalidStorePath");
    let e = CacheName::new("-bad".to_string()).unwrap_err();
    assert_eq!(e.name(), "InvalidCacheName");
}

#[test]
fn sha256_matches_known_vector() {
    let h = bunker::hash::Hash::sha256_from_bytes(b"hello world");
    assert_eq!(h.algo, HashAlgorithm::Sha256);
    assert_eq!(
        h.to_typed(),
        "sha256:b94d27b9934d3e08a52e52d7da7dabfac484efe37a5380ee9088f7ace2efcde9"
    );
}

#[test]
fn typed_hash_round_trips() {
    let h = bunker::hash::Hash::sha256_from_bytes(b"some bytes");
    let typed = h.to_typed();
    let back = bunker::hash::Hash::from_typed(&typed).unwrap();
    assert!(back.same_hash(&h));
}

#[test]
fn typed_hash_rejects_malformed_text() {
    assert_eq!(bunker::hash::Hash::from_typed("md5:abcd").unwrap_err(), HashError::UnknownAlgorithm);
    assert_eq!(bunker::hash::Hash::from_typed("sha256:abcd").unwrap_err(), HashError::InvalidDigestLength);
    let bad = format!("sha256:{}", "zz".repeat(32));
    assert_eq!(bunker::hash::Hash::from_typed(&bad).unwrap_err(), HashError::InvalidDigest);
    // Uppercase hex is not canonical.
    let upper = format!("sha256:{}", "AB".repeat(32));
    assert_eq!(bunker::hash::Hash::from_typed(&upper).unwrap_err(), HashError::InvalidDigest);
}

#[test]
fn compression_names_round_trip() {
    for (c, name) in [
        (Compression::NoCompression, "none"),
        (Compression::Xz, "xz"),
        (Compression::Bzip2, "bzip2"),
        (Compression::Brotli, "br"),
        (Compression::Zstd, "zstd"),
    ] {
        assert_eq!(c.as_str(), name);
        assert_eq!(Compression::from_str(name).unwrap(), c);
    }
}

#[test]
fn compression_rejects_unknown_names() {
    let e = Compression::from_str("lz4").unwrap_err();
    match e {
        bunker::server_error::ErrorKind::InvalidCompressionType { name } => {
            assert_eq!(name, "lz4");
        }
        _ => panic!("wrong error variant"),
    }
}

#[test]
fn cache_name_validation() {
    let c = CacheName::new("my-cache_1".to_string()).unwrap();
    assert_eq!(c.as_str(), "my-cache_1");
    assert_eq!(c.to_string(), "my-cache_1");
    assert!(CacheName::new("".to_string()).is_err());
    assert!(CacheName::new("-leading".to_string()).is_err());
    assert!(CacheName::new("_leading".to_string()).is_err());
    assert!(CacheName::new("has space".to_string()).is_err());
    match CacheName::new("bad/name".to_string()).unwrap_err() {
        BunkerError::InvalidCacheName { name } => assert_eq!(name, "bad/name"),
        _ => panic!("wrong error variant"),
    }
}

#[test]
fn cache_config_blank_is_empty() {
    let c = bunker::cache_config::CacheConfig::blank();
    assert!(c.keypair.is_none());
    assert!(c.substituter_endpoint.is_none());
    assert!(c.api_endpoint.is_none());
    assert!(c.public_key.is_none());
    assert!(c.is_public.is_none());
    assert!(c.store_dir.is_none());
    assert!(c.priority.is_none());
    assert!(c.upstream_cache_key_names.is_none());
    assert!(c.retention_period.is_none());
}

#[test]
fn structured_api_error_display() {
    let e = bunker::api::StructuredApiError {
        code: 404,
        error: "NotFound".to_string(),
        message: "The URL you requested was not found.".to_string(),
    };
    assert_eq!(e.display_string(), "NotFound: The URL you requested was not found.");
}

#[test]
fn api_error_classification() {
    let s = bunker::api::StructuredApiError {
        code: 400,
        error: "X".to_string(),
        message: "Y".to_string(),
    };
    match bunker::api::ApiError::from_response_parts(400, "body".to_string(), Some(s)) {
        bunker::api::ApiError::Structured(st) => assert_eq!(st.error, "X"),
        _ => panic!("expected structured"),
    }
    match bunker::api::ApiError::from_response_parts(502, "oops".to_string(), None) {
        bunker::api::ApiError::Unstructured(code, body) => {
            assert_eq!(code, 502);
            assert_eq!(body, "oops");
        }
        _ => panic!("expected unstructured"),
    }
}

#[test]
fn server_error_kinds_and_statuses() {
    assert_eq!(ErrorKind::NotFound.name(), "NotFound");
    assert_eq!(ErrorKind::IncompleteNar.name(), "IncompleteNar");
    assert_eq!(ErrorKind::NoSuchObject.name(), "NoSuchObject");
    assert_eq!(ErrorKind::NotFound.http_status_code(), 404);
    assert_eq!(ErrorKind::Unauthorized.http_status_code(), 401);
    assert_eq!(ErrorKind::IncompleteNar.http_status_code(), 503);
    assert_eq!(ErrorKind::CacheAlreadyExists.http_status_code(), 400);
    assert_eq!(ErrorKind::DatabaseError("x".to_string()).http_status_code(), 500);
    assert!(matches!(
        ErrorKind::NoSuchCache.into_no_discovery_permissions(),
        ErrorKind::Unauthorized
    ));
    assert!(matches!(
        ErrorKind::NoSuchObject.into_no_discovery_permissions(),
        ErrorKind::Unauthorized
    ));
    assert!(matches!(
        ErrorKind::DatabaseError("secret".to_string()).into_clients(),
        ErrorKind::InternalServerError
    ));
    assert!(matches!(
        ErrorKind::StorageError("secret".to_string()).into_clients(),
        ErrorKind::InternalServerError
    ));
    assert!(matches!(ErrorKind::IncompleteNar.into_clients(), ErrorKind::IncompleteNar));
    // A manifest codec failure is the client's own bad input: it is not
    // demoted to a generic internal error.
    assert!(matches!(
        ErrorKind::ManifestSerializationError(bunker::nix_manifest::Error::ExpectedColon)
            .into_clients(),
        ErrorKind::ManifestSerializationError(_)
    ));
}

#[test]
fn server_error_response_surfaces_codec_failures_as_client_errors() {
    let e = ServerError::from_kind(ErrorKind::ManifestSerializationError(
        bunker::nix_manifest::Error::ExpectedColon,
    ));
    let (status, resp) = e.into_error_response();
    assert_eq!(status, 400);
    assert_eq!(resp.code, 400);
    assert_eq!(resp.error, "ManifestSerializationError");
    assert_eq!(resp.message, "Manifest serialization error: ExpectedColon");
}

#[test]
fn server_error_response_hides_lookup_misses_without_discovery() {
    let mut e = ServerError::from_kind(ErrorKind::NoSuchCache);
    e.set_discovery_permission(false);
    let (status, resp) = e.into_error_response();
    assert_eq!(status, 401);
    assert_eq!(resp.code, 401);
    assert_eq!(resp.error, "Unauthorized");
    assert_eq!(resp.message, "Unauthorized.");
}

#[test]
fn server_error_response_masks_backend_failures() {
    let e = ServerError::database_error("connection refused".to_string());
    let (status, resp) = e.into_error_response();
    assert_eq!(status, 500);
    assert_eq!(resp.error, "InternalServerError");
    assert_eq!(resp.message, "The server encountered an internal error or misconfiguration.");
    let e = ServerError::from_kind(ErrorKind::NoSuchCache);
    let (status, resp) = e.into_error_response();
    assert_eq!(status, 404);
    assert_eq!(resp.error, "NoSuchCache");
    assert_eq!(resp.message, "The requested cache does not exist.");
}
