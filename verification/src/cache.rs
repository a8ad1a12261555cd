//! Validated cache names.

use vstd::prelude::*;

use crate::error::{BunkerError, BunkerResult};

verus! {

/// Characters allowed in a cache name: ASCII letters, digits, `-` and `_`.
pub open spec fn is_cache_name_char(c: char) -> bool {
    let u = c as u32;
    (48 <= u && u <= 57) || (65 <= u && u <= 90) || (97 <= u && u <= 122) || c == '-' || c == '_'
}

/// A valid cache name: nonempty, over the cache-name alphabet, and not
/// starting with a separator.
pub open spec fn is_valid_cache_name(s: Seq<char>) -> bool {
    &&& s.len() >= 1
    &&& forall|i: int| 0 <= i < s.len() ==> is_cache_name_char(#[trigger] s[i])
    &&& s[0] != '-'
    &&& s[0] != '_'
}

/// The name of one cache, validated on construction.
#[derive(Debug, Clone)]
pub struct CacheName {
    name: String,
}

impl View for CacheName {
    type V = Seq<char>;

    closed spec fn view(&self) -> Seq<char> {
        self.name@
    }
}

impl CacheName {
    /// Validates an externally supplied cache name; succeeds exactly on
    /// strings matching the cache-name grammar, returned unchanged.
    pub fn new(name: String) -> (r: BunkerResult<CacheName>)
        ensures
            r is Ok <==> is_valid_cache_name(name@),
            r matches Ok(c) ==> c@ == name@,
            r matches Err(e) ==> (e matches BunkerError::InvalidCacheName { name: n } && n@
                == name@),
    {
        let n = name.as_str().unicode_len();
        let mut ok = n >= 1;
        if ok {
            let c0 = name.as_str().get_char(0);
            ok = c0 != '-' && c0 != '_';
        }
        if ok {
            let mut i: usize = 0;
            while i < n
                invariant
                    i <= n,
                    n == name@.len(),
                    forall|j: int| 0 <= j < i ==> is_cache_name_char(#[trigger] name@[j]),
                decreases n - i,
            {
                let c = name.as_str().get_char(i);
                let u = c as u32;
                if !((48 <= u && u <= 57) || (65 <= u && u <= 90) || (97 <= u && u <= 122) || c
                    == '-' || c == '_') {
                    return Err(BunkerError::InvalidCacheName { name });
                }
                i = i + 1;
            }
            Ok(CacheName { name })
        } else {
            Err(BunkerError::InvalidCacheName { name })
        }
    }

    pub fn as_str(&self) -> (r: &str)
        ensures
            r@ == self@,
    {
        self.name.as_str()
    }

    pub fn to_string(&self) -> (r: String)
        ensures
            r@ == self@,
    {
        self.name.clone()
    }
}

} // verus!
