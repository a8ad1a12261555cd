//! Content hashes: an algorithm tag plus digest bytes, with the canonical
//! text form `<algo>:<lowercase-hex-digest>`.

use vstd::prelude::*;

verus! {

/// The digest algorithm of a content hash. Two hashes are interchangeable
/// for identity purposes only when algorithm and digest both match.
#[derive(Debug, Clone, Copy, PartialEq, Eq, Structural)]
pub enum HashAlgorithm {
    Sha256,
}

/// A content hash: an algorithm tag and the raw digest bytes.
#[derive(Debug, Clone)]
pub struct Hash {
    pub algo: HashAlgorithm,
    pub digest: Vec<u8>,
}

/// The mathematical content of a hash value.
pub ghost struct HashView {
    pub algo: HashAlgorithm,
    pub digest: Seq<u8>,
}

impl View for Hash {
    type V = HashView;

    open spec fn view(&self) -> HashView {
        HashView { algo: self.algo, digest: self.digest@ }
    }
}

/// A malformed canonical hash string.
#[derive(Debug, Clone, Copy, PartialEq, Eq, Structural)]
pub enum HashError {
    /// The algorithm tag before the colon is not a known algorithm.
    UnknownAlgorithm,
    /// The digest part has the wrong length for the algorithm.
    InvalidDigestLength,
    /// The digest part holds a character outside `0-9a-f`.
    InvalidDigest,
}

/// The SHA-256 digest of a byte sequence, a function of the bytes alone.
pub uninterp spec fn sha256_digest(bytes: Seq<u8>) -> Seq<u8>;

/// Relies on sha2::Sha256::digest: computes the SHA-256 digest of the input,
/// a pure function of the input bytes; a SHA-256 digest is 32 bytes long.
#[verifier::external_body]
fn sha256_bytes(data: &[u8]) -> (r: Vec<u8>)
    ensures
        r@ == sha256_digest(data@),
        r@.len() == 32,
{
    <sha2::Sha256 as sha2::Digest>::digest(data).to_vec()
}

pub open spec fn hex_digit(n: int) -> char {
    if n == 0 { '0' } else if n == 1 { '1' } else if n == 2 { '2' } else if n == 3 { '3' }
    else if n == 4 { '4' } else if n == 5 { '5' } else if n == 6 { '6' } else if n == 7 { '7' }
    else if n == 8 { '8' } else if n == 9 { '9' } else if n == 10 { 'a' } else if n == 11 { 'b' }
    else if n == 12 { 'c' } else if n == 13 { 'd' } else if n == 14 { 'e' } else { 'f' }
}

pub open spec fn hex_of_byte(b: u8) -> Seq<char> {
    seq![hex_digit(b as int / 16), hex_digit(b as int % 16)]
}

/// Lowercase hexadecimal encoding of a byte sequence, two digits per byte.
pub open spec fn hex_of(bs: Seq<u8>) -> Seq<char>
    decreases bs.len(),
{
    if bs.len() == 0 {
        Seq::empty()
    } else {
        hex_of(bs.drop_last()) + hex_of_byte(bs.last())
    }
}

/// The value of one hexadecimal character, or -1 if it is not one.
pub open spec fn hex_val(c: char) -> int {
    let u = c as u32;
    if 48 <= u && u <= 57 {
        u - 48
    } else if 97 <= u && u <= 102 {
        u - 87
    } else {
        -1
    }
}

pub open spec fn is_hex_char(c: char) -> bool {
    0 <= hex_val(c) < 16
}

/// The bytes denoted by a sequence of hexadecimal characters, two per byte.
pub open spec fn hex_decode(s: Seq<char>) -> Seq<u8>
    decreases s.len(),
{
    if s.len() < 2 {
        Seq::empty()
    } else {
        hex_decode(s.drop_last().drop_last()) + seq![
            (hex_val(s[s.len() - 2]) * 16 + hex_val(s[s.len() - 1])) as u8,
        ]
    }
}

pub proof fn lemma_hex_val_of_digit(n: int)
    requires
        0 <= n < 16,
    ensures
        hex_val(hex_digit(n)) == n,
{
}

pub proof fn lemma_digit_of_hex_val(c: char)
    requires
        is_hex_char(c),
    ensures
        hex_digit(hex_val(c)) == c,
{
    let u = c as u32;
    if 48 <= u && u <= 57 {
        assert(c == '0' || c == '1' || c == '2' || c == '3' || c == '4' || c == '5' || c == '6'
            || c == '7' || c == '8' || c == '9');
    } else {
        assert(c == 'a' || c == 'b' || c == 'c' || c == 'd' || c == 'e' || c == 'f');
    }
}

pub proof fn lemma_hex_of_len(bs: Seq<u8>)
    ensures
        hex_of(bs).len() == 2 * bs.len(),
        forall|i: int| 0 <= i < hex_of(bs).len() ==> is_hex_char(#[trigger] hex_of(bs)[i]),
    decreases bs.len(),
{
    if bs.len() > 0 {
        lemma_hex_of_len(bs.drop_last());
        let b = bs.last();
        lemma_hex_val_of_digit(b as int / 16);
        lemma_hex_val_of_digit(b as int % 16);
    }
}

/// Hexadecimal encoding loses nothing: decoding the encoding of any byte
/// sequence gives the bytes back.
pub proof fn lemma_hex_round_trip(bs: Seq<u8>)
    ensures
        hex_decode(hex_of(bs)) == bs,
    decreases bs.len(),
{
    if bs.len() > 0 {
        let rest = bs.drop_last();
        let b = bs.last();
        lemma_hex_round_trip(rest);
        lemma_hex_of_len(rest);
        let enc = hex_of(bs);
        assert(enc =~= hex_of(rest) + hex_of_byte(b));
        assert(enc.drop_last().drop_last() =~= hex_of(rest));
        lemma_hex_val_of_digit(b as int / 16);
        lemma_hex_val_of_digit(b as int % 16);
        assert(enc[enc.len() - 2] == hex_digit(b as int / 16));
        assert(enc[enc.len() - 1] == hex_digit(b as int % 16));
        assert(hex_decode(enc) =~= bs);
    } else {
        assert(hex_decode(hex_of(bs)) =~= bs);
    }
}

/// One lowercase hexadecimal digit as text.
pub(crate) fn hex_str(n: u8) -> (r: &'static str)
    requires
        n < 16,
    ensures
        r@ == seq![hex_digit(n as int)],
{
    proof {
        reveal_strlit("0");
        reveal_strlit("1");
        reveal_strlit("2");
        reveal_strlit("3");
        reveal_strlit("4");
        reveal_strlit("5");
        reveal_strlit("6");
        reveal_strlit("7");
        reveal_strlit("8");
        reveal_strlit("9");
        reveal_strlit("a");
        reveal_strlit("b");
        reveal_strlit("c");
        reveal_strlit("d");
        reveal_strlit("e");
        reveal_strlit("f");
    }
    match n {
        0 => "0",
        1 => "1",
        2 => "2",
        3 => "3",
        4 => "4",
        5 => "5",
        6 => "6",
        7 => "7",
        8 => "8",
        9 => "9",
        10 => "a",
        11 => "b",
        12 => "c",
        13 => "d",
        14 => "e",
        _ => "f",
    }
}

/// Appends the two hex digits of one byte.
fn push_hex_byte(out: &mut String, b: u8)
    ensures
        final(out)@ == old(out)@ + hex_of_byte(b),
{
    out.append(hex_str(b / 16));
    out.append(hex_str(b % 16));
    proof {
        assert(final(out)@ =~= old(out)@ + hex_of_byte(b));
    }
}

/// Appends the lowercase hexadecimal encoding of `bs`.
pub fn push_hex(out: &mut String, bs: &Vec<u8>)
    ensures
        final(out)@ == old(out)@ + hex_of(bs@),
{
    let n = bs.len();
    let mut i: usize = 0;
    while i < n
        invariant
            i <= n,
            n == bs@.len(),
            out@ == old(out)@ + hex_of(bs@.take(i as int)),
        decreases n - i,
    {
        push_hex_byte(out, bs[i]);
        proof {
            assert(bs@.take(i + 1).drop_last() =~= bs@.take(i as int));
            assert(hex_of(bs@.take(i + 1)) == hex_of(bs@.take(i as int)) + hex_of_byte(bs@[i as int]));
        }
        i = i + 1;
    }
    proof {
        assert(bs@.take(n as int) =~= bs@);
    }
}

/// The canonical text form of a SHA-256 hash value.
pub open spec fn typed_sha256(digest: Seq<u8>) -> Seq<char> {
    "sha256:"@ + hex_of(digest)
}

/// A string in the canonical SHA-256 text form: the `sha256:` tag and then
/// exactly 64 lowercase hexadecimal characters.
pub open spec fn is_typed_sha256(s: Seq<char>) -> bool {
    &&& s.len() == 71
    &&& s.subrange(0, 7) == "sha256:"@
    &&& forall|i: int| 7 <= i < 71 ==> is_hex_char(#[trigger] s[i])
}

impl Hash {
    /// A hash value is well-formed when its digest has the algorithm's length.
    pub open spec fn wf(&self) -> bool {
        self.digest@.len() == 32
    }

    /// Whether two hash values denote the same content identity: same
    /// algorithm and same digest bytes.
    pub open spec fn same_spec(&self, other: &Hash) -> bool {
        self.algo == other.algo && self.digest@ == other.digest@
    }

    pub fn same_hash(&self, other: &Hash) -> (r: bool)
        ensures
            r == self.same_spec(other),
    {
        if !(self.algo == other.algo) {
            return false;
        }
        let n = self.digest.len();
        if n != other.digest.len() {
            proof {
                assert(self.digest@ != other.digest@);
            }
            return false;
        }
        let mut i: usize = 0;
        while i < n
            invariant
                i <= n,
                n == self.digest@.len() == other.digest@.len(),
                forall|j: int| 0 <= j < i ==> self.digest@[j] == other.digest@[j],
            decreases n - i,
        {
            if self.digest[i] != other.digest[i] {
                return false;
            }
            i = i + 1;
        }
        proof {
            assert(self.digest@ =~= other.digest@);
        }
        true
    }

    /// An explicit copy of this hash value.
    pub fn dup(&self) -> (r: Hash)
        ensures
            r@ == self@,
    {
        let n = self.digest.len();
        let mut digest: Vec<u8> = Vec::new();
        let mut i: usize = 0;
        while i < n
            invariant
                i <= n,
                n == self.digest@.len(),
                digest@ == self.digest@.take(i as int),
            decreases n - i,
        {
            digest.push(self.digest[i]);
            proof {
                assert(digest@ =~= self.digest@.take(i + 1));
            }
            i = i + 1;
        }
        proof {
            assert(digest@ =~= self.digest@);
        }
        Hash { algo: self.algo, digest }
    }

    /// Hashes archive or chunk bytes with SHA-256.
    pub fn sha256_from_bytes(data: &[u8]) -> (r: Hash)
        ensures
            r.algo == HashAlgorithm::Sha256,
            r.digest@ == sha256_digest(data@),
            r.wf(),
    {
        Hash { algo: HashAlgorithm::Sha256, digest: sha256_bytes(data) }
    }

    /// The canonical text form, `sha256:<64 hex digits>`.
    pub fn to_typed(&self) -> (r: String)
        ensures
            r@ == typed_sha256(self.digest@),
    {
        let mut out = String::from_str("sha256:");
        push_hex(&mut out, &self.digest);
        out
    }

    /// Parses the canonical text form; rejects unknown algorithm tags, wrong
    /// digest lengths and non-hexadecimal digest characters, each with its
    /// own error.
    pub fn from_typed(s: &str) -> (r: Result<Hash, HashError>)
        ensures
            r is Ok <==> is_typed_sha256(s@),
            r matches Ok(h) ==> h.algo == HashAlgorithm::Sha256 && h.digest@ == hex_decode(
                s@.subrange(7, 71),
            ) && h.wf() && s@ == typed_sha256(h.digest@),
    {
        proof {
            reveal_strlit("sha256:");
        }
        let n = s.unicode_len();
        if n < 7 {
            proof {
                assert(!is_typed_sha256(s@));
            }
            return Err(HashError::UnknownAlgorithm);
        }
        let tag: &str = "sha256:";
        let mut i: usize = 0;
        while i < 7
            invariant
                i <= 7,
                n == s@.len(),
                7 <= n,
                tag@ == "sha256:"@,
                tag@.len() == 7,
                forall|j: int| 0 <= j < i ==> s@[j] == tag@[j],
            decreases 7 - i,
        {
            if s.get_char(i) != tag.get_char(i) {
                proof {
                    assert(s@.subrange(0, 7) != "sha256:"@) by {
                        assert(s@.subrange(0, 7)[i as int] != "sha256:"@[i as int]);
                    }
                }
                return Err(HashError::UnknownAlgorithm);
            }
            i = i + 1;
        }
        proof {
            assert(s@.subrange(0, 7) =~= "sha256:"@);
        }
        if n != 71 {
            return Err(HashError::InvalidDigestLength);
        }
        let mut digest: Vec<u8> = Vec::new();
        let mut j: usize = 7;
        while j < 71
            invariant
                7 <= j <= 71,
                j % 2 == 1,
                n == s@.len() == 71,
                digest@.len() * 2 + 7 == j,
                forall|k: int| 7 <= k < j ==> is_hex_char(#[trigger] s@[k]),
                digest@ == hex_decode(s@.subrange(7, j as int)),
            decreases 71 - j,
        {
            let c1 = s.get_char(j);
            let c2 = s.get_char(j + 1);
            let v1 = hex_val_exec(c1);
            let v2 = hex_val_exec(c2);
            if v1 < 0 || v2 < 0 {
                return Err(HashError::InvalidDigest);
            }
            let b: u8 = (v1 as u8) * 16 + (v2 as u8);
            digest.push(b);
            proof {
                let pre = s@.subrange(7, j as int);
                let post = s@.subrange(7, j + 2);
                assert(post.drop_last().drop_last() =~= pre);
                assert(post[post.len() - 2] == s@[j as int]);
                assert(post[post.len() - 1] == s@[j + 1]);
                assert(digest@ =~= hex_decode(post));
            }
            j = j + 2;
        }
        proof {
            assert(is_typed_sha256(s@));
            lemma_hex_round_trip(digest@);
            assert(s@.subrange(7, 71) =~= hex_of(hex_decode(s@.subrange(7, 71)))) by {
                lemma_hex_decode_of_len(s@.subrange(7, 71));
            }
            assert(s@ =~= typed_sha256(digest@));
        }
        Ok(Hash { algo: HashAlgorithm::Sha256, digest })
    }
}

/// Decoding then encoding gives back any even-length all-hexadecimal string.
pub proof fn lemma_hex_decode_of_len(s: Seq<char>)
    requires
        s.len() % 2 == 0,
        forall|i: int| 0 <= i < s.len() ==> is_hex_char(#[trigger] s[i]),
    ensures
        hex_decode(s).len() * 2 == s.len(),
        hex_of(hex_decode(s)) == s,
    decreases s.len(),
{
    if s.len() >= 2 {
        let rest = s.drop_last().drop_last();
        lemma_hex_decode_of_len(rest);
        let b = (hex_val(s[s.len() - 2]) * 16 + hex_val(s[s.len() - 1])) as u8;
        assert(hex_decode(s) =~= hex_decode(rest) + seq![b]);
        assert(hex_decode(s).drop_last() =~= hex_decode(rest));
        assert(b as int / 16 == hex_val(s[s.len() - 2]) && b as int % 16 == hex_val(
            s[s.len() - 1],
        )) by {
            assert(0 <= hex_val(s[s.len() - 2]) < 16 && 0 <= hex_val(s[s.len() - 1]) < 16);
        }
        lemma_digit_of_hex_val(s[s.len() - 2]);
        lemma_digit_of_hex_val(s[s.len() - 1]);
        assert(hex_of_byte(b) =~= seq![s[s.len() - 2], s[s.len() - 1]]);
        assert(hex_of(hex_decode(s)) =~= s);
    } else {
        assert(hex_of(hex_decode(s)) =~= s);
    }
}

fn hex_val_exec(c: char) -> (r: i8)
    ensures
        r as int == hex_val(c),
{
    let u = c as u32;
    if 48 <= u && u <= 57 {
        (u - 48) as i8
    } else if 97 <= u && u <= 102 {
        (u - 87) as i8
    } else {
        -1
    }
}

} // verus!
