//! Validated store-path identifiers: the 32-character fixed-alphabet hash
//! segment, the full `<hash>-<name>` base name, and the derivation of a base
//! name from a full path under a store directory.

use vstd::prelude::*;

use vstd::string::StringSliceAdditionalSpecFns;

use crate::error::{BunkerError, BunkerResult};
use crate::text::{find_char, find_char_from, lemma_find_char_from, lemma_skip_char_from,
    skip_char, skip_char_from};

verus! {

/// Number of characters in the hash segment of a store-path base name.
pub const STORE_PATH_HASH_LEN: usize = 32;

/// The 32-symbol hash alphabet: digits and lowercase letters, with
/// `e`, `o`, `u` and `t` excluded.
pub open spec fn is_hash_char(c: char) -> bool {
    let u = c as u32;
    (48 <= u && u <= 57) || (97 <= u && u <= 122 && c != 'e' && c != 'o' && c != 'u' && c != 't')
}

/// Characters allowed in the human-readable part of a base name:
/// `A-Za-z0-9` and `+-._?=`.
pub open spec fn is_name_char(c: char) -> bool {
    let u = c as u32;
    (48 <= u && u <= 57) || (65 <= u && u <= 90) || (97 <= u && u <= 122) || c == '+' || c == '-'
        || c == '.' || c == '_' || c == '?' || c == '='
}

/// A valid store-path hash: exactly 32 characters of the hash alphabet.
pub open spec fn is_valid_store_path_hash(s: Seq<char>) -> bool {
    s.len() == 32 && (forall|i: int| 0 <= i < s.len() ==> is_hash_char(#[trigger] s[i]))
}

/// A valid base name: a 32-character hash, a `-`, and a nonempty
/// human-readable name.
pub open spec fn is_valid_base_name(s: Seq<char>) -> bool {
    &&& s.len() >= 34
    &&& is_valid_store_path_hash(s.subrange(0, 32))
    &&& s[32] == '-'
    &&& forall|i: int| 33 <= i < s.len() ==> is_name_char(#[trigger] s[i])
}

fn is_hash_char_exec(c: char) -> (r: bool)
    ensures
        r == is_hash_char(c),
{
    let u = c as u32;
    (48 <= u && u <= 57) || (97 <= u && u <= 122 && c != 'e' && c != 'o' && c != 'u' && c != 't')
}

fn is_name_char_exec(c: char) -> (r: bool)
    ensures
        r == is_name_char(c),
{
    let u = c as u32;
    (48 <= u && u <= 57) || (65 <= u && u <= 90) || (97 <= u && u <= 122) || c == '+' || c == '-'
        || c == '.' || c == '_' || c == '?' || c == '='
}

/// Whether every character of `s` in `[from, to)` is a hash character.
fn check_hash_chars(s: &str, from: usize, to: usize) -> (r: bool)
    requires
        from <= to <= s@.len(),
    ensures
        r == forall|i: int| from <= i < to ==> is_hash_char(#[trigger] s@[i]),
{
    let mut i: usize = from;
    while i < to
        invariant
            from <= i <= to <= s@.len(),
            forall|j: int| from <= j < i ==> is_hash_char(#[trigger] s@[j]),
        decreases to - i,
    {
        if !is_hash_char_exec(s.get_char(i)) {
            return false;
        }
        i = i + 1;
    }
    true
}

fn check_name_chars(s: &str, from: usize, to: usize) -> (r: bool)
    requires
        from <= to <= s@.len(),
    ensures
        r == forall|i: int| from <= i < to ==> is_name_char(#[trigger] s@[i]),
{
    let mut i: usize = from;
    while i < to
        invariant
            from <= i <= to <= s@.len(),
            forall|j: int| from <= j < i ==> is_name_char(#[trigger] s@[j]),
        decreases to - i,
    {
        if !is_name_char_exec(s.get_char(i)) {
            return false;
        }
        i = i + 1;
    }
    true
}

/// A path in the store: a base name whose format has been validated. It may
/// or may not exist on any disk.
#[derive(Debug, Clone)]
pub struct StorePath {
    base_name: String,
}

impl View for StorePath {
    type V = Seq<char>;

    closed spec fn view(&self) -> Seq<char> {
        self.base_name@
    }
}

/// A fixed-length store path hash: the first segment of a base name,
/// validated against the hash alphabet.
#[derive(Debug, Clone)]
pub struct StorePathHash {
    hash: String,
}

impl View for StorePathHash {
    type V = Seq<char>;

    closed spec fn view(&self) -> Seq<char> {
        self.hash@
    }
}

impl StorePath {
    /// Every reachable `StorePath` satisfies the base-name grammar.
    pub open spec fn wf(&self) -> bool {
        is_valid_base_name(self@)
    }

    /// Validates an externally supplied base name. Succeeds exactly on
    /// strings matching the base-name grammar and returns them unchanged.
    pub fn from_base_name(base_name: String) -> (r: BunkerResult<StorePath>)
        ensures
            r is Ok <==> is_valid_base_name(base_name@),
            r matches Ok(p) ==> p@ == base_name@ && p.wf(),
            r matches Err(e) ==> (e matches BunkerError::InvalidStorePathName {
                base_name: b,
                reason,
            } && b@ == base_name@ && reason@ == "Name is of invalid format"@),
    {
        let n = base_name.as_str().unicode_len();
        let valid = if n < 34 {
            false
        } else {
            let hash_ok = check_hash_chars(base_name.as_str(), 0, 32);
            let dash_ok = base_name.as_str().get_char(32) == '-';
            let name_ok = check_name_chars(base_name.as_str(), 33, n);
            proof {
                if hash_ok {
                    assert(forall|i: int|
                        0 <= i < 32 ==> is_hash_char(#[trigger] base_name@.subrange(0, 32)[i]));
                }
            }
            hash_ok && dash_ok && name_ok
        };
        if valid {
            Ok(StorePath { base_name })
        } else {
            proof {
                if is_valid_base_name(base_name@) {
                    assert(forall|i: int|
                        0 <= i < 32 ==> is_hash_char(#[trigger] base_name@[i])) by {
                        assert(forall|i: int|
                            0 <= i < 32 ==> base_name@[i] == base_name@.subrange(0, 32)[i]);
                    }
                }
            }
            Err(BunkerError::InvalidStorePathName {
                base_name,
                reason: "Name is of invalid format",
            })
        }
    }

    /// The hash segment of this store path.
    pub fn to_hash(&self) -> (r: StorePathHash)
        requires
            self.wf(),
        ensures
            r@ == self@.subrange(0, 32),
            is_valid_store_path_hash(r@),
    {
        let s = self.base_name.as_str().substring_char(0, STORE_PATH_HASH_LEN);
        StorePathHash { hash: String::from_str(s) }
    }

    /// The human-readable name after the `<hash>-` prefix.
    pub fn name(&self) -> (r: String)
        requires
            self.wf(),
        ensures
            r@ == self@.subrange(33, self@.len() as int),
    {
        let n = self.base_name.as_str().unicode_len();
        let s = self.base_name.as_str().substring_char(STORE_PATH_HASH_LEN + 1, n);
        String::from_str(s)
    }

    /// The whole validated base name, as UTF-8 bytes.
    pub fn as_base_name_bytes(&self) -> (r: &[u8])
        ensures
            r@ == vstd::utf8::encode_utf8(self@),
    {
        self.base_name.as_str().as_bytes()
    }
}

impl StorePathHash {
    /// Validates an externally supplied hash segment. Succeeds exactly on
    /// 32-character strings over the hash alphabet, returned unchanged; a
    /// wrong length and a wrong alphabet are rejected with distinct reasons.
    pub fn new(hash: String) -> (r: BunkerResult<StorePathHash>)
        ensures
            r is Ok <==> is_valid_store_path_hash(hash@),
            r matches Ok(h) ==> h@ == hash@,
            hash@.len() != 32 ==> (r matches Err(e) && e matches
                BunkerError::InvalidStorePathHash { hash: h2, reason } && h2@ == hash@ && reason@
                == "Hash is of invalid length"@),
            hash@.len() == 32 && !is_valid_store_path_hash(hash@) ==> (r matches Err(e) && e
                matches BunkerError::InvalidStorePathHash { hash: h2, reason } && h2@ == hash@
                && reason@ == "Hash is of invalid format"@),
    {
        let n = hash.as_str().unicode_len();
        if n != STORE_PATH_HASH_LEN {
            return Err(BunkerError::InvalidStorePathHash {
                hash,
                reason: "Hash is of invalid length",
            });
        }
        if !check_hash_chars(hash.as_str(), 0, STORE_PATH_HASH_LEN) {
            return Err(BunkerError::InvalidStorePathHash {
                hash,
                reason: "Hash is of invalid format",
            });
        }
        Ok(StorePathHash { hash })
    }

    pub fn as_str(&self) -> (r: &str)
        ensures
            r@ == self@,
    {
        self.hash.as_str()
    }

    pub fn to_string(&self) -> (r: String)
        ensures
            r@ == self@,
    {
        self.hash.clone()
    }
}

/// Information on a valid store path, as reported by an archive reader.
#[derive(Debug)]
pub struct ValidPathInfo {
    /// The store path.
    pub path: StorePath,
    /// Hash of the archive body.
    pub nar_hash: crate::hash::Hash,
    /// Size of the archive body in bytes.
    pub nar_size: u64,
    /// Base names of the paths this one references.
    pub references: Vec<String>,
    /// Signatures.
    pub sigs: Vec<String>,
    /// Content address.
    pub ca: Option<String>,
}

/// Outcome of stripping a store directory from a full path, at the level of
/// the path text: the first segment after the directory prefix, or the way
/// in which there is none.
pub open spec fn base_name_of(store_dir: Seq<char>, path: Seq<char>) -> BaseNameOutcome {
    if path == store_dir {
        BaseNameOutcome::IsStoreDir
    } else if !(path.len() > store_dir.len() && path.subrange(0, store_dir.len() as int)
        == store_dir && path[store_dir.len() as int] == '/') {
        BaseNameOutcome::NotInStore
    } else {
        let start = skip_char_from(path, store_dir.len() as int, '/');
        if start == path.len() {
            BaseNameOutcome::IsStoreDir
        } else {
            let end = find_char_from(path, start, '/');
            if end - start < 32 {
                BaseNameOutcome::TooShort
            } else {
                BaseNameOutcome::Segment(path.subrange(start, end))
            }
        }
    }
}

pub ghost enum BaseNameOutcome {
    IsStoreDir,
    NotInStore,
    TooShort,
    Segment(Seq<char>),
}

/// Strips `store_dir` from `path` and returns the first remaining path
/// segment, which must be at least as long as a store-path hash. Fails when
/// the path is not under the store directory, is the store directory itself,
/// or has a first segment shorter than the hash length.
pub fn to_base_name(store_dir: &str, path: &str) -> (r: BunkerResult<String>)
    ensures
        r matches Ok(b) ==> base_name_of(store_dir@, path@) == BaseNameOutcome::Segment(b@),
        r matches Err(e) ==> (e matches BunkerError::InvalidStorePath { path: p, reason } && p@
            == path@ && (base_name_of(store_dir@, path@) matches BaseNameOutcome::IsStoreDir
            ==> reason@ == "Path is store directory itself"@) && (base_name_of(
            store_dir@,
            path@,
        ) matches BaseNameOutcome::NotInStore ==> reason@ == "Path is not in store directory"@)
            && (base_name_of(store_dir@, path@) matches BaseNameOutcome::TooShort ==> reason@
            == "Path is too short"@)),
        r is Ok <==> base_name_of(store_dir@, path@) is Segment,
{
    let dn = store_dir.unicode_len();
    let pn = path.unicode_len();
    // Compare the prefix character by character.
    let mut i: usize = 0;
    let limit = if dn < pn {
        dn
    } else {
        pn
    };
    while i < limit
        invariant
            i <= limit,
            limit == if dn < pn { dn } else { pn },
            dn == store_dir@.len(),
            pn == path@.len(),
            forall|j: int| 0 <= j < i ==> store_dir@[j] == path@[j],
        decreases limit - i,
    {
        if store_dir.get_char(i) != path.get_char(i) {
            proof {
                if path@ == store_dir@ {
                    assert(false);
                }
                if path@.len() > store_dir@.len() && path@.subrange(0, store_dir@.len() as int)
                    == store_dir@ {
                    assert(path@.subrange(0, store_dir@.len() as int)[i as int] == path@[i as int]);
                    assert(false);
                }
            }
            return Err(BunkerError::InvalidStorePath {
                path: String::from_str(path),
                reason: "Path is not in store directory",
            });
        }
        i = i + 1;
    }
    if pn == dn {
        proof {
            assert(path@ =~= store_dir@);
        }
        return Err(BunkerError::InvalidStorePath {
            path: String::from_str(path),
            reason: "Path is store directory itself",
        });
    }
    if pn < dn || path.get_char(dn) != '/' {
        proof {
            if pn > dn {
                assert(path@.subrange(0, dn as int) =~= store_dir@);
            }
            if path@ == store_dir@ {
                assert(false);
            }
        }
        return Err(BunkerError::InvalidStorePath {
            path: String::from_str(path),
            reason: "Path is not in store directory",
        });
    }
    proof {
        assert(path@.subrange(0, dn as int) =~= store_dir@);
        assert(path@ != store_dir@);
    }
    let start = skip_char(path, pn, dn, '/');
    proof {
        lemma_skip_char_from(path@, dn as int, '/');
    }
    if start == pn {
        return Err(BunkerError::InvalidStorePath {
            path: String::from_str(path),
            reason: "Path is store directory itself",
        });
    }
    let end = find_char(path, pn, start, '/');
    proof {
        lemma_find_char_from(path@, start as int, '/');
    }
    if end - start < STORE_PATH_HASH_LEN {
        return Err(BunkerError::InvalidStorePath {
            path: String::from_str(path),
            reason: "Path is too short",
        });
    }
    let seg = path.substring_char(start, end);
    Ok(String::from_str(seg))
}

/// Derives a validated store path from a full path under a store directory:
/// strips the directory, then validates the remaining base name.
pub fn derive_path_from_root(store_dir: &str, path: &str) -> (r: BunkerResult<StorePath>)
    ensures
        r is Ok <==> (base_name_of(store_dir@, path@) matches BaseNameOutcome::Segment(b)
            && is_valid_base_name(b)),
        r matches Ok(p) ==> (base_name_of(store_dir@, path@) matches BaseNameOutcome::Segment(b)
            && p@ == b && p.wf()),
{
    let base = to_base_name(store_dir, path)?;
    match StorePath::from_base_name(base) {
        Ok(p) => Ok(p),
        Err(e) => Err(e),
    }
}

} // verus!
