//! The discovery metadata of one archive: the fields of a narinfo manifest.

use vstd::prelude::*;

use crate::hash::HashView;
use crate::server_error::ErrorKind;
use crate::text::str_eq;

verus! {

/// The compression applied to an archive or chunk when it was stored.
#[derive(Debug, Clone, Copy, PartialEq, Eq, Structural)]
pub enum Compression {
    NoCompression,
    Xz,
    Bzip2,
    Brotli,
    Zstd,
}

/// The canonical text of each compression kind.
pub open spec fn compression_str(c: Compression) -> Seq<char> {
    match c {
        Compression::NoCompression => "none"@,
        Compression::Xz => "xz"@,
        Compression::Bzip2 => "bzip2"@,
        Compression::Brotli => "br"@,
        Compression::Zstd => "zstd"@,
    }
}

/// The compression kind a text names, if any.
pub open spec fn compression_of(s: Seq<char>) -> Option<Compression> {
    if s == "none"@ {
        Some(Compression::NoCompression)
    } else if s == "xz"@ {
        Some(Compression::Xz)
    } else if s == "bzip2"@ {
        Some(Compression::Bzip2)
    } else if s == "br"@ {
        Some(Compression::Brotli)
    } else if s == "zstd"@ {
        Some(Compression::Zstd)
    } else {
        Option::None
    }
}

/// Parsing the canonical text of a compression kind gives that kind back.
pub proof fn lemma_compression_round_trip(c: Compression)
    ensures
        compression_of(compression_str(c)) == Some(c),
{
    reveal_strlit("none");
    reveal_strlit("xz");
    reveal_strlit("bzip2");
    reveal_strlit("br");
    reveal_strlit("zstd");
    match c {
        Compression::NoCompression => {}
        Compression::Xz => {
            assert("xz"@ != "none"@) by {
                assert("xz"@.len() != "none"@.len());
            }
        }
        Compression::Bzip2 => {
            assert("bzip2"@ != "none"@) by {
                assert("bzip2"@.len() != "none"@.len());
            }
            assert("bzip2"@ != "xz"@) by {
                assert("bzip2"@.len() != "xz"@.len());
            }
        }
        Compression::Brotli => {
            assert("br"@ != "none"@) by {
                assert("br"@.len() != "none"@.len());
            }
            assert("br"@ != "xz"@) by {
                assert("br"@[0] != "xz"@[0]);
            }
            assert("br"@ != "bzip2"@) by {
                assert("br"@.len() != "bzip2"@.len());
            }
        }
        Compression::Zstd => {
            assert("zstd"@ != "none"@) by {
                assert("zstd"@[0] != "none"@[0]);
            }
            assert("zstd"@ != "xz"@) by {
                assert("zstd"@.len() != "xz"@.len());
            }
            assert("zstd"@ != "bzip2"@) by {
                assert("zstd"@.len() != "bzip2"@.len());
            }
            assert("zstd"@ != "br"@) by {
                assert("zstd"@.len() != "br"@.len());
            }
        }
    }
}

impl Compression {
    /// Parses a compression name; unknown names are a client error carrying
    /// the offending name.
    pub fn from_str(s: &str) -> (r: Result<Compression, ErrorKind>)
        ensures
            r is Ok <==> compression_of(s@) is Some,
            r matches Ok(c) ==> compression_of(s@) == Some(c),
            r matches Err(e) ==> (e matches ErrorKind::InvalidCompressionType { name } && name@
                == s@),
    {
        if str_eq(s, "none") {
            Ok(Compression::NoCompression)
        } else if str_eq(s, "xz") {
            Ok(Compression::Xz)
        } else if str_eq(s, "bzip2") {
            Ok(Compression::Bzip2)
        } else if str_eq(s, "br") {
            Ok(Compression::Brotli)
        } else if str_eq(s, "zstd") {
            Ok(Compression::Zstd)
        } else {
            Err(ErrorKind::InvalidCompressionType { name: String::from_str(s) })
        }
    }

    pub fn as_str(&self) -> (r: &'static str)
        ensures
            r@ == compression_str(*self),
    {
        match self {
            Compression::NoCompression => "none",
            Compression::Xz => "xz",
            Compression::Bzip2 => "bzip2",
            Compression::Brotli => "br",
            Compression::Zstd => "zstd",
        }
    }
}

/// The manifest of one archive: everything a client needs to fetch and
/// verify it.
#[derive(Debug, Clone)]
pub struct NarInfo {
    /// Full store path of the object.
    pub store_path: String,
    /// Relative URL the archive body can be fetched from.
    pub url: String,
    /// Compression of the stored file.
    pub compression: Compression,
    /// Hash of the stored (compressed) file, when known.
    pub file_hash: Option<crate::hash::Hash>,
    /// Size of the stored (compressed) file, when known.
    pub file_size: Option<u64>,
    /// Hash of the archive body.
    pub nar_hash: crate::hash::Hash,
    /// Size of the archive body.
    pub nar_size: u64,
    /// Platform the object was built for.
    pub system: Option<String>,
    /// Base names of referenced store paths.
    pub references: Vec<String>,
    /// Base name of the deriver, when known.
    pub deriver: Option<String>,
    /// Signature over the manifest, when present.
    pub signature: Option<String>,
    /// Content address, when present.
    pub ca: Option<String>,
}

/// The mathematical content of a manifest.
pub ghost struct NarInfoView {
    pub store_path: Seq<char>,
    pub url: Seq<char>,
    pub compression: Compression,
    pub file_hash: Option<HashView>,
    pub file_size: Option<u64>,
    pub nar_hash: HashView,
    pub nar_size: u64,
    pub system: Option<Seq<char>>,
    pub references: Seq<Seq<char>>,
    pub deriver: Option<Seq<char>>,
    pub signature: Option<Seq<char>>,
    pub ca: Option<Seq<char>>,
}

pub open spec fn view_opt_string(s: Option<String>) -> Option<Seq<char>> {
    match s {
        Some(x) => Some(x@),
        Option::None => Option::None,
    }
}

pub open spec fn view_opt_hash(h: Option<crate::hash::Hash>) -> Option<HashView> {
    match h {
        Some(x) => Some(x@),
        Option::None => Option::None,
    }
}

impl View for NarInfo {
    type V = NarInfoView;

    open spec fn view(&self) -> NarInfoView {
        NarInfoView {
            store_path: self.store_path@,
            url: self.url@,
            compression: self.compression,
            file_hash: view_opt_hash(self.file_hash),
            file_size: self.file_size,
            nar_hash: self.nar_hash@,
            nar_size: self.nar_size,
            system: view_opt_string(self.system),
            references: self.references.deep_view(),
            deriver: view_opt_string(self.deriver),
            signature: view_opt_string(self.signature),
            ca: view_opt_string(self.ca),
        }
    }
}

} // verus!
