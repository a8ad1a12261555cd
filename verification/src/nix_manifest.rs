//! The line-oriented `Key: Value` manifest codec ("narinfo"): serialization
//! of one archive's discovery metadata and its exact inverse.
//!
//! Grammar: each field occupies one line, `Key: Value`, colon-space
//! separator, newline terminator. List-valued fields are one space-separated
//! line; runs of spaces act as one separator and never yield empty tokens.
//!
//! The decoder is deliberately permissive toward input beyond the
//! recognized fields, in a bounded form: it reads the document to its end,
//! consumes lines with unrecognized keys without complaint (so any number
//! of trailing or interleaved extra fields deserialize successfully, and a
//! document is never rejected merely for saying more than the reader
//! understands), and takes the last value when a key repeats. The bound is
//! structural soundness: every line, recognized or not, must still be a
//! well-formed `Key: Value` line, so a missing separator or a truncated
//! line is reported wherever it stands rather than silently skipped. This
//! is a deliberate narrowing of blanket trailing-input acceptance: extra
//! *fields* pass, structural *damage* does not.

use vstd::prelude::*;

use crate::hash::{HashAlgorithm, hex_decode, hex_of, hex_str, is_hex_char, is_typed_sha256,
    lemma_hex_of_len, lemma_hex_round_trip, push_hex, typed_sha256};
use crate::narinfo::{Compression, NarInfo, NarInfoView, compression_of, compression_str,
    lemma_compression_round_trip};

verus! {

/// A structural failure of the manifest codec.
#[derive(Debug, Clone)]
pub enum Error {
    /// The input violated the grammar in a way described by the payload.
    Unexpected(&'static str),
    /// The input ended in the middle of a field.
    UnexpectedEof,
    /// A field line has no colon-space separator.
    ExpectedColon,
    /// A boolean field does not hold `true` or `false`.
    ExpectedBoolean,
    /// An integer field does not hold a decimal number.
    ExpectedInteger,
    /// The named construct has no manifest representation.
    Unsupported(&'static str),
    /// Self-describing values have no manifest representation.
    AnyUnsupported,
    /// Absent values have no manifest representation in value position.
    NoneUnsupported,
    /// Nested maps have no manifest representation.
    NestedMapUnsupported,
    /// Floating-point numbers have no manifest representation.
    FloatUnsupported,
    /// Any other failure, described by a message.
    Custom(String),
}

/// The mathematical content of a codec error.
pub ghost enum ErrorV {
    Unexpected(Seq<char>),
    UnexpectedEof,
    ExpectedColon,
    ExpectedBoolean,
    ExpectedInteger,
    Unsupported(Seq<char>),
    AnyUnsupported,
    NoneUnsupported,
    NestedMapUnsupported,
    FloatUnsupported,
    Custom(Seq<char>),
}

impl View for Error {
    type V = ErrorV;

    open spec fn view(&self) -> ErrorV {
        match self {
            Error::Unexpected(s) => ErrorV::Unexpected(s@),
            Error::UnexpectedEof => ErrorV::UnexpectedEof,
            Error::ExpectedColon => ErrorV::ExpectedColon,
            Error::ExpectedBoolean => ErrorV::ExpectedBoolean,
            Error::ExpectedInteger => ErrorV::ExpectedInteger,
            Error::Unsupported(s) => ErrorV::Unsupported(s@),
            Error::AnyUnsupported => ErrorV::AnyUnsupported,
            Error::NoneUnsupported => ErrorV::NoneUnsupported,
            Error::NestedMapUnsupported => ErrorV::NestedMapUnsupported,
            Error::FloatUnsupported => ErrorV::FloatUnsupported,
            Error::Custom(s) => ErrorV::Custom(s@),
        }
    }
}

impl Error {
    pub open spec fn name_spec(&self) -> Seq<char> {
        match self {
            Error::Unexpected(_) => "Unexpected"@,
            Error::UnexpectedEof => "UnexpectedEof"@,
            Error::ExpectedColon => "ExpectedColon"@,
            Error::ExpectedBoolean => "ExpectedBoolean"@,
            Error::ExpectedInteger => "ExpectedInteger"@,
            Error::Unsupported(_) => "Unsupported"@,
            Error::AnyUnsupported => "AnyUnsupported"@,
            Error::NoneUnsupported => "NoneUnsupported"@,
            Error::NestedMapUnsupported => "NestedMapUnsupported"@,
            Error::FloatUnsupported => "FloatUnsupported"@,
            Error::Custom(_) => "Custom"@,
        }
    }

    /// The stable machine-readable name of this error's kind.
    pub fn name(&self) -> (r: &'static str)
        ensures
            r@ == self.name_spec(),
    {
        match self {
            Error::Unexpected(_) => "Unexpected",
            Error::UnexpectedEof => "UnexpectedEof",
            Error::ExpectedColon => "ExpectedColon",
            Error::ExpectedBoolean => "ExpectedBoolean",
            Error::ExpectedInteger => "ExpectedInteger",
            Error::Unsupported(_) => "Unsupported",
            Error::AnyUnsupported => "AnyUnsupported",
            Error::NoneUnsupported => "NoneUnsupported",
            Error::NestedMapUnsupported => "NestedMapUnsupported",
            Error::FloatUnsupported => "FloatUnsupported",
            Error::Custom(_) => "Custom",
        }
    }
}

/// One manifest line: `Key: Value` and a newline.
pub open spec fn line_of(key: Seq<char>, value: Seq<char>) -> Seq<char> {
    key + ": "@ + value + "\n"@
}

pub open spec fn opt_line(key: Seq<char>, value: Option<Seq<char>>) -> Seq<char> {
    match value {
        Some(v) => line_of(key, v),
        Option::None => Seq::empty(),
    }
}

/// The decimal digits of a non-negative number.
pub open spec fn dec_of(n: int) -> Seq<char>
    decreases n,
{
    if n < 10 {
        seq![crate::hash::hex_digit(if n < 0 { 0 } else { n })]
    } else {
        dec_of(n / 10) + seq![crate::hash::hex_digit(n % 10)]
    }
}

/// Space-separated encoding of a list, with no trailing separator.
pub open spec fn join_spaces(items: Seq<Seq<char>>) -> Seq<char>
    decreases items.len(),
{
    if items.len() == 0 {
        Seq::empty()
    } else if items.len() == 1 {
        items[0]
    } else {
        items[0] + " "@ + join_spaces(items.drop_first())
    }
}

/// The serialized text of one manifest: each present field on its own
/// `Key: Value` line, in a fixed field order.
pub open spec fn spec_serialize(m: NarInfoView) -> Seq<char> {
    line_of("StorePath"@, m.store_path) + line_of("URL"@, m.url) + line_of(
        "Compression"@,
        compression_str(m.compression),
    ) + opt_line(
        "FileHash"@,
        match m.file_hash {
            Some(h) => Some(typed_sha256(h.digest)),
            Option::None => Option::None,
        },
    ) + opt_line(
        "FileSize"@,
        match m.file_size {
            Some(n) => Some(dec_of(n as int)),
            Option::None => Option::None,
        },
    ) + line_of("NarHash"@, typed_sha256(m.nar_hash.digest)) + line_of(
        "NarSize"@,
        dec_of(m.nar_size as int),
    ) + opt_line("System"@, m.system) + line_of("References"@, join_spaces(m.references))
        + opt_line("Deriver"@, m.deriver) + opt_line("Sig"@, m.signature) + opt_line(
        "CA"@,
        m.ca,
    )
}

/// Appends the decimal digits of `n`.
fn push_dec(out: &mut String, n: u64)
    ensures
        final(out)@ == old(out)@ + dec_of(n as int),
    decreases n,
{
    if n >= 10 {
        push_dec(out, n / 10);
        out.append(hex_str((n % 10) as u8));
        proof {
            assert(final(out)@ =~= old(out)@ + dec_of(n as int));
        }
    } else {
        out.append(hex_str(n as u8));
        proof {
            assert(final(out)@ =~= old(out)@ + dec_of(n as int));
        }
    }
}

/// Appends one `Key: Value` line.
fn push_line(out: &mut String, key: &str, value: &str)
    ensures
        final(out)@ == old(out)@ + line_of(key@, value@),
{
    out.append(key);
    out.append(": ");
    out.append(value);
    out.append("\n");
    proof {
        assert(final(out)@ =~= old(out)@ + line_of(key@, value@));
    }
}

/// Appends the space-separated encoding of `items`.
fn push_joined(out: &mut String, items: &Vec<String>)
    ensures
        final(out)@ == old(out)@ + join_spaces(items.deep_view()),
{
    let n = items.len();
    let ghost iv = items.deep_view();
    let mut i: usize = 0;
    while i < n
        invariant
            i <= n,
            n == items@.len(),
            iv == items.deep_view(),
            iv.len() == n,
            forall|j: int| 0 <= j < n ==> #[trigger] iv[j] == items@[j]@,
            out@ == old(out)@ + join_spaces(iv.take(i as int)),
        decreases n - i,
    {
        if i > 0 {
            out.append(" ");
        }
        out.append(items[i].as_str());
        proof {
            lemma_join_take(iv, i as int);
            assert(out@ =~= old(out)@ + join_spaces(iv.take(i + 1)));
        }
        i = i + 1;
    }
    proof {
        assert(iv.take(n as int) =~= iv);
    }
}

/// How joining grows, one item at a time from the left.
proof fn lemma_join_take(items: Seq<Seq<char>>, i: int)
    requires
        0 <= i < items.len(),
    ensures
        i == 0 ==> join_spaces(items.take(1)) == items[0],
        i > 0 ==> join_spaces(items.take(i + 1)) == join_spaces(items.take(i)) + " "@ + items[i],
    decreases i,
{
    if i == 0 {
        assert(items.take(1).len() == 1);
        assert(items.take(1)[0] == items[0]);
    } else {
        lemma_join_take(items, i - 1);
        lemma_join_split(items.take(i + 1), items.take(i));
    }
}

/// Splitting a join at the last element.
proof fn lemma_join_split(full: Seq<Seq<char>>, front: Seq<Seq<char>>)
    requires
        full.len() == front.len() + 1,
        front.len() >= 1,
        forall|j: int| 0 <= j < front.len() ==> full[j] == front[j],
    ensures
        join_spaces(full) == join_spaces(front) + " "@ + full[full.len() - 1],
    decreases front.len(),
{
    if front.len() == 1 {
        assert(join_spaces(full) == full[0] + " "@ + join_spaces(full.drop_first()));
        assert(full.drop_first().len() == 1);
        assert(join_spaces(full.drop_first()) == full.drop_first()[0]);
        assert(full.drop_first()[0] == full[1]);
        assert(join_spaces(front) == front[0]);
    } else {
        lemma_join_split(full.drop_first(), front.drop_first());
        assert(join_spaces(full) == full[0] + " "@ + join_spaces(full.drop_first()));
        assert(join_spaces(front) == front[0] + " "@ + join_spaces(front.drop_first()));
        assert(full.drop_first()[full.drop_first().len() - 1] == full[full.len() - 1]);
        assert(join_spaces(full) =~= join_spaces(front) + " "@ + full[full.len() - 1]);
    }
}

/// Serializes one manifest. Serialization is total over the manifest type:
/// every value shape it can hold has a representation.
pub fn serialize_nar_info(value: &NarInfo) -> (r: String)
    ensures
        r@ == spec_serialize(value@),
{
    let mut out = String::new();
    push_line(&mut out, "StorePath", value.store_path.as_str());
    push_line(&mut out, "URL", value.url.as_str());
    push_line(&mut out, "Compression", value.compression.as_str());
    match &value.file_hash {
        Some(h) => {
            let typed = h.to_typed();
            push_line(&mut out, "FileHash", typed.as_str());
        }
        Option::None => {}
    }
    match &value.file_size {
        Some(n) => {
            let mut v = String::new();
            push_dec(&mut v, *n);
            push_line(&mut out, "FileSize", v.as_str());
        }
        Option::None => {}
    }
    let nar_hash_typed = value.nar_hash.to_typed();
    push_line(&mut out, "NarHash", nar_hash_typed.as_str());
    let mut ns = String::new();
    push_dec(&mut ns, value.nar_size);
    push_line(&mut out, "NarSize", ns.as_str());
    match &value.system {
        Some(s) => {
            push_line(&mut out, "System", s.as_str());
        }
        Option::None => {}
    }
    let mut refs = String::new();
    push_joined(&mut refs, &value.references);
    push_line(&mut out, "References", refs.as_str());
    match &value.deriver {
        Some(s) => {
            push_line(&mut out, "Deriver", s.as_str());
        }
        Option::None => {}
    }
    match &value.signature {
        Some(s) => {
            push_line(&mut out, "Sig", s.as_str());
        }
        Option::None => {}
    }
    match &value.ca {
        Some(s) => {
            push_line(&mut out, "CA", s.as_str());
        }
        Option::None => {}
    }
    proof {
        assert(out@ =~= spec_serialize(value@));
    }
    out
}

/// Deserializes a manifest, wrapping a codec failure as a server error.
pub fn from_str(s: &str) -> (r: crate::server_error::ServerResult<NarInfo>)
    ensures
        r matches Ok(ni) ==> spec_deserialize(s@) == Ok::<NarInfoView, ErrorV>(ni@),
        r matches Err(e) ==> (spec_deserialize(s@) matches Err(ev)
            && e.spec_kind() matches crate::server_error::ErrorKind::ManifestSerializationError(
            me,
        ) && me@ == ev),
{
    match deserialize_nar_info(s) {
        Ok(ni) => Ok(ni),
        Err(e) => Err(
            crate::server_error::ServerError::from_kind(
                crate::server_error::ErrorKind::ManifestSerializationError(e),
            ),
        ),
    }
}

/// Serializes a manifest; total over the supported value shapes.
pub fn to_string(value: &NarInfo) -> (r: crate::server_error::ServerResult<String>)
    ensures
        r matches Ok(s) && s@ == spec_serialize(value@),
{
    Ok(serialize_nar_info(value))
}

/// A decimal digit.
pub open spec fn is_digit(c: char) -> bool {
    48 <= c as u32 <= 57
}

/// A nonempty all-digit string.
pub open spec fn is_digits(s: Seq<char>) -> bool {
    s.len() >= 1 && forall|i: int| 0 <= i < s.len() ==> is_digit(#[trigger] s[i])
}

/// The number a digit string denotes.
pub open spec fn digits_val(s: Seq<char>) -> int
    decreases s.len(),
{
    if s.len() == 0 {
        0
    } else {
        digits_val(s.drop_last()) * 10 + (s.last() as u32 - 48)
    }
}

/// Tokens of a line, separated by runs of spaces; empty values and runs of
/// separators yield no empty tokens. (The clamps keep recursion visibly
/// bounded; they never fire, since a skip never moves left and a find never
/// moves left of its start.)
pub open spec fn split_ws_from(s: Seq<char>, pos: int) -> Seq<Seq<char>>
    decreases s.len() - pos when 0 <= pos <= s.len()
{
    let i0 = crate::text::skip_char_from(s, pos, ' ');
    let i = if i0 < pos {
        pos
    } else if i0 > s.len() {
        s.len() as int
    } else {
        i0
    };
    if i >= s.len() {
        Seq::empty()
    } else {
        let e0 = crate::text::find_char_from(s, i, ' ');
        let e = if e0 <= i {
            i + 1
        } else if e0 > s.len() {
            s.len() as int
        } else {
            e0
        };
        seq![s.subrange(i, e)] + split_ws_from(s, e)
    }
}

/// The fields recognized so far while reading a manifest.
pub ghost struct PartialManifest {
    pub store_path: Option<Seq<char>>,
    pub url: Option<Seq<char>>,
    pub compression: Option<Compression>,
    pub file_hash: Option<Seq<u8>>,
    pub file_size: Option<u64>,
    pub nar_hash: Option<Seq<u8>>,
    pub nar_size: Option<u64>,
    pub system: Option<Seq<char>>,
    pub references: Option<Seq<Seq<char>>>,
    pub deriver: Option<Seq<char>>,
    pub signature: Option<Seq<char>>,
    pub ca: Option<Seq<char>>,
}

pub open spec fn empty_partial() -> PartialManifest {
    PartialManifest {
        store_path: Option::None,
        url: Option::None,
        compression: Option::None,
        file_hash: Option::None,
        file_size: Option::None,
        nar_hash: Option::None,
        nar_size: Option::None,
        system: Option::None,
        references: Option::None,
        deriver: Option::None,
        signature: Option::None,
        ca: Option::None,
    }
}

/// Outcome of reading one line at `pos`.
pub ghost enum LineParse {
    /// End of input: all lines consumed.
    Done,
    /// A structural error.
    Fail(ErrorV),
    /// A field line: key, value, and the position after the newline.
    Field(Seq<char>, Seq<char>, int),
}

/// Reads one `Key: Value` line: the first colon or newline decides; a
/// newline (or a colon not followed by a space) before the separator is a
/// missing colon, and input ending mid-line is an unexpected end of input.
pub open spec fn parse_line_at(s: Seq<char>, pos: int) -> LineParse {
    if pos >= s.len() {
        LineParse::Done
    } else {
        let c = crate::text::find_either_from(s, pos, ':', '\n');
        if c >= s.len() {
            LineParse::Fail(ErrorV::UnexpectedEof)
        } else if s[c] == '\n' {
            LineParse::Fail(ErrorV::ExpectedColon)
        } else if c + 1 >= s.len() {
            LineParse::Fail(ErrorV::UnexpectedEof)
        } else if s[c + 1] != ' ' {
            LineParse::Fail(ErrorV::ExpectedColon)
        } else {
            let e = crate::text::find_char_from(s, c + 2, '\n');
            if e >= s.len() {
                LineParse::Fail(ErrorV::UnexpectedEof)
            } else {
                LineParse::Field(s.subrange(pos, c), s.subrange(c + 2, e), e + 1)
            }
        }
    }
}

/// Folds one recognized field into the partial manifest; unknown keys are
/// consumed and ignored, which is what keeps trailing extra fields
/// harmless. Duplicate keys are last-writer-wins.
pub open spec fn apply_field(st: PartialManifest, key: Seq<char>, value: Seq<char>) -> Result<
    PartialManifest,
    ErrorV,
> {
    if key == "StorePath"@ {
        Ok(PartialManifest { store_path: Some(value), ..st })
    } else if key == "URL"@ {
        Ok(PartialManifest { url: Some(value), ..st })
    } else if key == "Compression"@ {
        match compression_of(value) {
            Some(c) => Ok(PartialManifest { compression: Some(c), ..st }),
            Option::None => Err(ErrorV::Custom("unknown compression type"@)),
        }
    } else if key == "FileHash"@ {
        if is_typed_sha256(value) {
            Ok(PartialManifest { file_hash: Some(hex_decode(value.subrange(7, 71))), ..st })
        } else {
            Err(ErrorV::Custom("invalid content hash"@))
        }
    } else if key == "FileSize"@ {
        if is_digits(value) && digits_val(value) <= u64::MAX {
            Ok(PartialManifest { file_size: Some(digits_val(value) as u64), ..st })
        } else {
            Err(ErrorV::ExpectedInteger)
        }
    } else if key == "NarHash"@ {
        if is_typed_sha256(value) {
            Ok(PartialManifest { nar_hash: Some(hex_decode(value.subrange(7, 71))), ..st })
        } else {
            Err(ErrorV::Custom("invalid content hash"@))
        }
    } else if key == "NarSize"@ {
        if is_digits(value) && digits_val(value) <= u64::MAX {
            Ok(PartialManifest { nar_size: Some(digits_val(value) as u64), ..st })
        } else {
            Err(ErrorV::ExpectedInteger)
        }
    } else if key == "System"@ {
        Ok(PartialManifest { system: Some(value), ..st })
    } else if key == "References"@ {
        Ok(PartialManifest { references: Some(split_ws_from(value, 0)), ..st })
    } else if key == "Deriver"@ {
        Ok(PartialManifest { deriver: Some(value), ..st })
    } else if key == "Sig"@ {
        Ok(PartialManifest { signature: Some(value), ..st })
    } else if key == "CA"@ {
        Ok(PartialManifest { ca: Some(value), ..st })
    } else {
        Ok(st)
    }
}

/// Builds the manifest once all input is consumed; the required fields must
/// all have appeared.
pub open spec fn finalize_partial(st: PartialManifest) -> Result<NarInfoView, ErrorV> {
    if st.store_path is Some && st.url is Some && st.compression is Some && st.nar_hash is Some
        && st.nar_size is Some && st.references is Some {
        Ok(
            NarInfoView {
                store_path: st.store_path->Some_0,
                url: st.url->Some_0,
                compression: st.compression->Some_0,
                file_hash: match st.file_hash {
                    Some(d) => Some(
                        crate::hash::HashView { algo: HashAlgorithm::Sha256, digest: d },
                    ),
                    Option::None => Option::None,
                },
                file_size: st.file_size,
                nar_hash: crate::hash::HashView {
                    algo: HashAlgorithm::Sha256,
                    digest: st.nar_hash->Some_0,
                },
                nar_size: st.nar_size->Some_0,
                system: st.system,
                references: st.references->Some_0,
                deriver: st.deriver,
                signature: st.signature,
                ca: st.ca,
            },
        )
    } else {
        Err(ErrorV::Custom("missing required field"@))
    }
}

/// Reads lines from `pos` on, folding recognized fields. (The clamp keeps
/// the recursion visibly bounded; it never fires, since the position after
/// a line lies beyond the line's start.)
pub open spec fn spec_deserialize_from(s: Seq<char>, pos: int, st: PartialManifest) -> Result<
    NarInfoView,
    ErrorV,
>
    decreases s.len() - pos when 0 <= pos <= s.len()
{
    match parse_line_at(s, pos) {
        LineParse::Done => finalize_partial(st),
        LineParse::Fail(e) => Err(e),
        LineParse::Field(k, v, np0) => {
            let np = if np0 <= pos {
                pos + 1
            } else if np0 > s.len() {
                s.len() as int
            } else {
                np0
            };
            match apply_field(st, k, v) {
                Ok(st2) => spec_deserialize_from(s, np, st2),
                Err(e) => Err(e),
            }
        }
    }
}

/// What a manifest text denotes: the deserialization of its lines.
pub open spec fn spec_deserialize(s: Seq<char>) -> Result<NarInfoView, ErrorV> {
    spec_deserialize_from(s, 0, empty_partial())
}

proof fn lemma_digits_nonneg(s: Seq<char>)
    requires
        forall|i: int| 0 <= i < s.len() ==> is_digit(#[trigger] s[i]),
    ensures
        digits_val(s) >= 0,
    decreases s.len(),
{
    if s.len() > 0 {
        lemma_digits_nonneg(s.drop_last());
    }
}

/// A digit prefix never denotes more than the whole digit string.
proof fn lemma_digits_prefix_le(s: Seq<char>, j: int)
    requires
        forall|i: int| 0 <= i < s.len() ==> is_digit(#[trigger] s[i]),
        0 <= j <= s.len(),
    ensures
        digits_val(s.take(j)) <= digits_val(s),
    decreases s.len(),
{
    if j < s.len() {
        lemma_digits_nonneg(s.drop_last());
        assert(forall|i: int| 0 <= i < s.drop_last().len() ==> is_digit(
            #[trigger] s.drop_last()[i],
        ));
        lemma_digits_prefix_le(s.drop_last(), j);
        assert(s.drop_last().take(j) =~= s.take(j));
        assert(digits_val(s) == digits_val(s.drop_last()) * 10 + (s.last() as u32 - 48));
    } else {
        assert(s.take(j) =~= s);
    }
}

/// Parses a decimal integer field; anything else is an integer-shape error.
fn parse_u64(value: &str) -> (r: Result<u64, Error>)
    ensures
        r matches Ok(v) ==> is_digits(value@) && digits_val(value@) == v,
        r is Err ==> !(is_digits(value@) && digits_val(value@) <= u64::MAX),
        r matches Err(e) ==> e@ == ErrorV::ExpectedInteger,
{
    let n = value.unicode_len();
    if n == 0 {
        return Err(Error::ExpectedInteger);
    }
    let mut acc: u64 = 0;
    let mut i: usize = 0;
    while i < n
        invariant
            i <= n,
            n == value@.len(),
            n >= 1,
            forall|j: int| 0 <= j < i ==> is_digit(#[trigger] value@[j]),
            acc == digits_val(value@.take(i as int)),
        decreases n - i,
    {
        let c = value.get_char(i);
        let u = c as u32;
        if !(48 <= u && u <= 57) {
            return Err(Error::ExpectedInteger);
        }
        let d: u64 = (u - 48) as u64;
        let lim: u64 = (u64::MAX - d) / 10;
        proof {
            assert(value@.take(i + 1).drop_last() =~= value@.take(i as int));
            assert(digits_val(value@.take(i + 1)) == acc * 10 + d);
        }
        if acc > lim {
            proof {
                assert(acc * 10 + d > u64::MAX);
                if is_digits(value@) {
                    lemma_digits_prefix_le(value@, i + 1);
                }
            }
            return Err(Error::ExpectedInteger);
        }
        acc = acc * 10 + d;
        i = i + 1;
    }
    proof {
        assert(value@.take(n as int) =~= value@);
    }
    Ok(acc)
}

/// Parses a boolean field value; anything but `true` or `false` is a
/// boolean-shape error, distinct from structural and integer failures.
pub fn parse_bool(value: &str) -> (r: Result<bool, Error>)
    ensures
        value@ == "true"@ ==> (r matches Ok(b) && b),
        value@ == "false"@ ==> (r matches Ok(b) && !b),
        value@ != "true"@ && value@ != "false"@ ==> (r matches Err(e) && e@
            == ErrorV::ExpectedBoolean),
{
    proof {
        reveal_strlit("true");
        reveal_strlit("false");
        assert("true"@ != "false"@) by {
            assert("true"@.len() != "false"@.len());
        }
    }
    if crate::text::str_eq(value, "true") {
        Ok(true)
    } else if crate::text::str_eq(value, "false") {
        Ok(false)
    } else {
        Err(Error::ExpectedBoolean)
    }
}

/// Splits a space-separated list value into its tokens.
fn split_refs(value: &str) -> (r: Vec<String>)
    ensures
        r.deep_view() == split_ws_from(value@, 0),
{
    let n = value.unicode_len();
    let mut out: Vec<String> = Vec::new();
    let mut pos: usize = 0;
    while pos < n
        invariant
            pos <= n,
            n == value@.len(),
            out.deep_view() + split_ws_from(value@, pos as int) =~~= split_ws_from(value@, 0),
        decreases n - pos,
    {
        let i = crate::text::skip_char(value, n, pos, ' ');
        proof {
            crate::text::lemma_skip_char_from(value@, pos as int, ' ');
        }
        if i == n {
            proof {
                assert(split_ws_from(value@, pos as int) =~~= Seq::<Seq<char>>::empty());
            }
            pos = n;
        } else {
            let e = crate::text::find_char(value, n, i, ' ');
            proof {
                crate::text::lemma_find_char_from(value@, i as int, ' ');
                assert(value@[i as int] != ' ');
                assert(e > i);
            }
            let tok = value.substring_char(i, e);
            let ghost old_out = out.deep_view();
            out.push(String::from_str(tok));
            proof {
                assert(out.deep_view() =~~= old_out.push(tok@));
                assert(split_ws_from(value@, pos as int) == seq![
                    value@.subrange(i as int, e as int),
                ] + split_ws_from(value@, e as int));
                assert(out.deep_view() + split_ws_from(value@, e as int) =~~= split_ws_from(
                    value@,
                    0,
                ));
            }
            pos = e;
        }
    }
    proof {
        assert(split_ws_from(value@, n as int) =~~= Seq::<Seq<char>>::empty());
        assert(out.deep_view() =~~= split_ws_from(value@, 0));
    }
    out
}

struct PartialNarInfo {
    store_path: Option<String>,
    url: Option<String>,
    compression: Option<Compression>,
    file_hash: Option<Vec<u8>>,
    file_size: Option<u64>,
    nar_hash: Option<Vec<u8>>,
    nar_size: Option<u64>,
    system: Option<String>,
    references: Option<Vec<String>>,
    deriver: Option<String>,
    signature: Option<String>,
    ca: Option<String>,
}

impl View for PartialNarInfo {
    type V = PartialManifest;

    closed spec fn view(&self) -> PartialManifest {
        PartialManifest {
            store_path: match self.store_path {
                Some(ref s) => Some(s@),
                Option::None => Option::None,
            },
            url: match self.url {
                Some(ref s) => Some(s@),
                Option::None => Option::None,
            },
            compression: self.compression,
            file_hash: match self.file_hash {
                Some(ref d) => Some(d@),
                Option::None => Option::None,
            },
            file_size: self.file_size,
            nar_hash: match self.nar_hash {
                Some(ref d) => Some(d@),
                Option::None => Option::None,
            },
            nar_size: self.nar_size,
            system: match self.system {
                Some(ref s) => Some(s@),
                Option::None => Option::None,
            },
            references: match self.references {
                Some(ref v) => Some(v.deep_view()),
                Option::None => Option::None,
            },
            deriver: match self.deriver {
                Some(ref s) => Some(s@),
                Option::None => Option::None,
            },
            signature: match self.signature {
                Some(ref s) => Some(s@),
                Option::None => Option::None,
            },
            ca: match self.ca {
                Some(ref s) => Some(s@),
                Option::None => Option::None,
            },
        }
    }
}

/// Deserializes one manifest, line by line; the result (or the exact
/// error) is what `spec_deserialize` assigns to the text.
pub fn deserialize_nar_info(s: &str) -> (r: Result<NarInfo, Error>)
    ensures
        r matches Ok(ni) ==> spec_deserialize(s@) == Ok::<NarInfoView, ErrorV>(ni@),
        r matches Err(e) ==> spec_deserialize(s@) matches Err(ev) && e@ == ev,
{
    let n = s.unicode_len();
    let mut st = PartialNarInfo {
        store_path: Option::None,
        url: Option::None,
        compression: Option::None,
        file_hash: Option::None,
        file_size: Option::None,
        nar_hash: Option::None,
        nar_size: Option::None,
        system: Option::None,
        references: Option::None,
        deriver: Option::None,
        signature: Option::None,
        ca: Option::None,
    };
    let mut pos: usize = 0;
    proof {
        assert(st@ == empty_partial());
    }
    while pos < n
        invariant
            pos <= n,
            n == s@.len(),
            spec_deserialize(s@) == spec_deserialize_from(s@, pos as int, st@),
        decreases n - pos,
    {
        let c = crate::text::find_either(s, n, pos, ':', '\n');
        proof {
            crate::text::lemma_find_either_from(s@, pos as int, ':', '\n');
        }
        if c == n {
            return Err(Error::UnexpectedEof);
        }
        if s.get_char(c) == '\n' {
            return Err(Error::ExpectedColon);
        }
        if c + 1 == n {
            return Err(Error::UnexpectedEof);
        }
        if s.get_char(c + 1) != ' ' {
            return Err(Error::ExpectedColon);
        }
        let e = crate::text::find_char(s, n, c + 2, '\n');
        proof {
            crate::text::lemma_find_char_from(s@, c + 2, '\n');
        }
        if e == n {
            return Err(Error::UnexpectedEof);
        }
        let key = s.substring_char(pos, c);
        let value = s.substring_char(c + 2, e);
        let ghost st_before = st@;
        proof {
            assert(parse_line_at(s@, pos as int) == LineParse::Field(key@, value@, e + 1));
        }
        if crate::text::str_eq(key, "StorePath") {
            st.store_path = Some(String::from_str(value));
        } else if crate::text::str_eq(key, "URL") {
            st.url = Some(String::from_str(value));
        } else if crate::text::str_eq(key, "Compression") {
            match Compression::from_str(value) {
                Ok(comp) => {
                    st.compression = Some(comp);
                }
                Err(_) => {
                    return Err(Error::Custom(String::from_str("unknown compression type")));
                }
            }
        } else if crate::text::str_eq(key, "FileHash") {
            match crate::hash::Hash::from_typed(value) {
                Ok(h) => {
                    st.file_hash = Some(h.digest);
                }
                Err(_) => {
                    return Err(Error::Custom(String::from_str("invalid content hash")));
                }
            }
        } else if crate::text::str_eq(key, "FileSize") {
            match parse_u64(value) {
                Ok(v) => {
                    st.file_size = Some(v);
                }
                Err(err) => {
                    return Err(err);
                }
            }
        } else if crate::text::str_eq(key, "NarHash") {
            match crate::hash::Hash::from_typed(value) {
                Ok(h) => {
                    st.nar_hash = Some(h.digest);
                }
                Err(_) => {
                    return Err(Error::Custom(String::from_str("invalid content hash")));
                }
            }
        } else if crate::text::str_eq(key, "NarSize") {
            match parse_u64(value) {
                Ok(v) => {
                    st.nar_size = Some(v);
                }
                Err(err) => {
                    return Err(err);
                }
            }
        } else if crate::text::str_eq(key, "System") {
            st.system = Some(String::from_str(value));
        } else if crate::text::str_eq(key, "References") {
            st.references = Some(split_refs(value));
        } else if crate::text::str_eq(key, "Deriver") {
            st.deriver = Some(String::from_str(value));
        } else if crate::text::str_eq(key, "Sig") {
            st.signature = Some(String::from_str(value));
        } else if crate::text::str_eq(key, "CA") {
            st.ca = Some(String::from_str(value));
        }
        proof {
            assert(apply_field(st_before, key@, value@) == Ok::<PartialManifest, ErrorV>(st@));
        }
        pos = e + 1;
    }
    proof {
        assert(parse_line_at(s@, pos as int) == LineParse::Done);
        assert(spec_deserialize(s@) == finalize_partial(st@));
    }
    let PartialNarInfo {
        store_path,
        url,
        compression,
        file_hash,
        file_size,
        nar_hash,
        nar_size,
        system,
        references,
        deriver,
        signature,
        ca,
    } = st;
    let store_path = match store_path {
        Some(v) => v,
        Option::None => {
            return Err(Error::Custom(String::from_str("missing required field")));
        }
    };
    let url = match url {
        Some(v) => v,
        Option::None => {
            return Err(Error::Custom(String::from_str("missing required field")));
        }
    };
    let compression = match compression {
        Some(v) => v,
        Option::None => {
            return Err(Error::Custom(String::from_str("missing required field")));
        }
    };
    let nar_hash = match nar_hash {
        Some(v) => v,
        Option::None => {
            return Err(Error::Custom(String::from_str("missing required field")));
        }
    };
    let nar_size = match nar_size {
        Some(v) => v,
        Option::None => {
            return Err(Error::Custom(String::from_str("missing required field")));
        }
    };
    let references = match references {
        Some(v) => v,
        Option::None => {
            return Err(Error::Custom(String::from_str("missing required field")));
        }
    };
    Ok(
        NarInfo {
            store_path,
            url,
            compression,
            file_hash: match file_hash {
                Some(d) => Some(
                    crate::hash::Hash { algo: HashAlgorithm::Sha256, digest: d },
                ),
                Option::None => Option::None,
            },
            file_size,
            nar_hash: crate::hash::Hash { algo: HashAlgorithm::Sha256, digest: nar_hash },
            nar_size,
            system,
            references,
            deriver,
            signature,
            ca,
        },
    )
}

/// A reference token: nonempty and free of separators and newlines.
pub open spec fn token_ok(t: Seq<char>) -> bool {
    t.len() >= 1 && (forall|i: int| 0 <= i < t.len() ==> (#[trigger] t[i]) != ' ' && t[i] != '\n')
}

/// A value that fits on one line.
pub open spec fn text_ok(v: Seq<char>) -> bool {
    forall|i: int| 0 <= i < v.len() ==> (#[trigger] v[i]) != '\n'
}

pub open spec fn opt_text_ok(v: Option<Seq<char>>) -> bool {
    match v {
        Some(x) => text_ok(x),
        Option::None => true,
    }
}

/// The manifests the format can represent: every value on one line,
/// reference tokens nonempty and free of separators, digests of full
/// SHA-256 length.
pub open spec fn wf_manifest(m: NarInfoView) -> bool {
    &&& text_ok(m.store_path)
    &&& text_ok(m.url)
    &&& (match m.file_hash {
        Some(h) => h.algo == HashAlgorithm::Sha256 && h.digest.len() == 32,
        Option::None => true,
    })
    &&& m.nar_hash.algo == HashAlgorithm::Sha256
    &&& m.nar_hash.digest.len() == 32
    &&& opt_text_ok(m.system)
    &&& (forall|i: int| 0 <= i < m.references.len() ==> token_ok(#[trigger] m.references[i]))
    &&& opt_text_ok(m.deriver)
    &&& opt_text_ok(m.signature)
    &&& opt_text_ok(m.ca)
}

pub open spec fn wf_line(k: Seq<char>, v: Seq<char>) -> bool {
    k.len() >= 1 && (forall|i: int| 0 <= i < k.len() ==> (#[trigger] k[i]) != ':' && k[i] != '\n')
        && text_ok(v)
}

/// The text of a list of `Key: Value` lines.
pub open spec fn lines_text(ls: Seq<(Seq<char>, Seq<char>)>) -> Seq<char>
    decreases ls.len(),
{
    if ls.len() == 0 {
        Seq::empty()
    } else {
        line_of(ls[0].0, ls[0].1) + lines_text(ls.drop_first())
    }
}

/// Folding a list of fields into a partial manifest.
pub open spec fn fold_fields(st: PartialManifest, ls: Seq<(Seq<char>, Seq<char>)>) -> Result<
    PartialManifest,
    ErrorV,
>
    decreases ls.len(),
{
    if ls.len() == 0 {
        Ok(st)
    } else {
        match apply_field(st, ls[0].0, ls[0].1) {
            Ok(st2) => fold_fields(st2, ls.drop_first()),
            Err(e) => Err(e),
        }
    }
}

/// Reading one well-formed line at its position in a larger text.
proof fn lemma_parse_line(s: Seq<char>, pos: int, k: Seq<char>, v: Seq<char>)
    requires
        0 <= pos,
        pos + k.len() + 2 + v.len() + 1 <= s.len(),
        wf_line(k, v),
        forall|i: int| 0 <= i < k.len() ==> s[pos + i] == k[i],
        s[pos + k.len()] == ':',
        s[pos + k.len() + 1] == ' ',
        forall|i: int| 0 <= i < v.len() ==> s[pos + k.len() + 2 + i] == v[i],
        s[pos + k.len() + 2 + v.len()] == '\n',
    ensures
        parse_line_at(s, pos) == LineParse::Field(k, v, pos + k.len() + 2 + v.len() + 1),
{
    let c = pos + k.len();
    assert forall|j: int| pos <= j < c implies (s[j] != ':' && s[j] != '\n') by {
        assert(s[j] == k[j - pos]);
    }
    crate::text::lemma_find_either_at(s, pos, ':', '\n', c);
    let e = c + 2 + v.len();
    assert forall|j: int| c + 2 <= j < e implies s[j] != '\n' by {
        assert(s[j] == v[j - c - 2]);
    }
    crate::text::lemma_find_char_at(s, c + 2, '\n', e);
    assert(s.subrange(pos, c) =~= k);
    assert(s.subrange(c + 2, e) =~= v);
}

/// Reading a suffix made of well-formed lines folds each field in turn.
proof fn lemma_deserialize_lines(s: Seq<char>, pos: int, ls: Seq<(Seq<char>, Seq<char>)>,
    st: PartialManifest)
    requires
        0 <= pos <= s.len(),
        s.subrange(pos, s.len() as int) == lines_text(ls),
        forall|i: int| 0 <= i < ls.len() ==> wf_line((#[trigger] ls[i]).0, ls[i].1),
    ensures
        spec_deserialize_from(s, pos, st) == (match fold_fields(st, ls) {
            Ok(st2) => finalize_partial(st2),
            Err(e) => Err(e),
        }),
    decreases ls.len(),
{
    reveal_strlit(": ");
    reveal_strlit("\n");
    if ls.len() == 0 {
        assert(s.subrange(pos, s.len() as int).len() == 0);
        assert(pos == s.len());
    } else {
        let k = ls[0].0;
        let v = ls[0].1;
        let line = line_of(k, v);
        let big = k.len() + 2 + v.len() + 1;
        assert(line.len() == big);
        let rest = lines_text(ls.drop_first());
        assert(s.subrange(pos, s.len() as int) == line + rest);
        assert(pos + big + rest.len() == s.len());
        assert forall|t: int| 0 <= t < big implies s[pos + t] == line[t] by {
            assert(s.subrange(pos, s.len() as int)[t] == s[pos + t]);
        }
        assert(forall|i: int| 0 <= i < k.len() ==> line[i] == k[i]);
        assert(line[k.len() as int] == ':');
        assert(line[k.len() as int + 1] == ' ');
        assert(forall|i: int| 0 <= i < v.len() ==> line[k.len() as int + 2 + i] == v[i]);
        assert(line[k.len() as int + 2 + v.len() as int] == '\n');
        lemma_parse_line(s, pos, k, v);
        let np = pos + big;
        assert(s.subrange(np, s.len() as int) =~= rest) by {
            assert forall|t: int| 0 <= t < rest.len() implies s.subrange(np, s.len() as int)[t]
                == rest[t] by {
                assert(s.subrange(pos, s.len() as int)[big + t] == s[np + t]);
            }
        }
        match apply_field(st, k, v) {
            Ok(st2) => {
                lemma_deserialize_lines(s, np, ls.drop_first(), st2);
            }
            Err(_) => {}
        }
    }
}

proof fn lemma_lines_concat(a: Seq<(Seq<char>, Seq<char>)>, b: Seq<(Seq<char>, Seq<char>)>)
    ensures
        lines_text(a + b) == lines_text(a) + lines_text(b),
    decreases a.len(),
{
    if a.len() == 0 {
        assert(a + b =~= b);
        assert(lines_text(a + b) =~= lines_text(a) + lines_text(b));
    } else {
        assert((a + b).drop_first() =~= a.drop_first() + b);
        lemma_lines_concat(a.drop_first(), b);
        assert((a + b)[0] == a[0]);
        assert(lines_text(a + b) =~= lines_text(a) + lines_text(b));
    }
}

proof fn lemma_fold_concat(st: PartialManifest, a: Seq<(Seq<char>, Seq<char>)>,
    b: Seq<(Seq<char>, Seq<char>)>)
    ensures
        fold_fields(st, a + b) == (match fold_fields(st, a) {
            Ok(st2) => fold_fields(st2, b),
            Err(e) => Err(e),
        }),
    decreases a.len(),
{
    if a.len() == 0 {
        assert(a + b =~= b);
    } else {
        assert((a + b).drop_first() =~= a.drop_first() + b);
        assert((a + b)[0] == a[0]);
        match apply_field(st, a[0].0, a[0].1) {
            Ok(st2) => {
                lemma_fold_concat(st2, a.drop_first(), b);
            }
            Err(_) => {}
        }
    }
}

/// The decimal encoding denotes its number and holds only digits.
proof fn lemma_dec_of(n: int)
    requires
        n >= 0,
    ensures
        is_digits(dec_of(n)),
        digits_val(dec_of(n)) == n,
        text_ok(dec_of(n)),
    decreases n,
{
    if n < 10 {
        crate::hash::lemma_hex_val_of_digit(n);
        assert(crate::hash::hex_digit(n) as u32 == n + 48);
        assert(dec_of(n) == seq![crate::hash::hex_digit(n)]);
        assert(dec_of(n).drop_last() =~= Seq::<char>::empty());
        assert(digits_val(dec_of(n).drop_last()) == 0);
        assert(digits_val(dec_of(n)) == 0 * 10 + (dec_of(n).last() as u32 - 48));
    } else {
        lemma_dec_of(n / 10);
        crate::hash::lemma_hex_val_of_digit(n % 10);
        assert(crate::hash::hex_digit(n % 10) as u32 == n % 10 + 48);
        let d = dec_of(n);
        assert(d == dec_of(n / 10) + seq![crate::hash::hex_digit(n % 10)]);
        assert(d.drop_last() =~= dec_of(n / 10));
        assert(is_digit(crate::hash::hex_digit(n % 10)));
        assert(digits_val(d) == digits_val(dec_of(n / 10)) * 10 + (d.last() as u32 - 48));
    }
}

/// The canonical hash text is well-formed, parses back to its digest, and
/// fits on one line.
proof fn lemma_typed_round_trip(d: Seq<u8>)
    requires
        d.len() == 32,
    ensures
        is_typed_sha256(typed_sha256(d)),
        hex_decode(typed_sha256(d).subrange(7, 71)) == d,
        text_ok(typed_sha256(d)),
{
    reveal_strlit("sha256:");
    lemma_hex_of_len(d);
    let t = typed_sha256(d);
    assert(t.subrange(0, 7) =~= "sha256:"@);
    assert(t.subrange(7, 71) =~= hex_of(d));
    lemma_hex_round_trip(d);
    assert forall|i: int| 0 <= i < t.len() implies (#[trigger] t[i]) != '\n' by {
        if i >= 7 {
            assert(is_hex_char(hex_of(d)[i - 7]));
        }
    }
}

/// Joining then splitting a list of well-formed tokens gives it back.
proof fn lemma_split_skip_space(s: Seq<char>, pos: int)
    requires
        0 <= pos < s.len(),
        s[pos] == ' ',
    ensures
        split_ws_from(s, pos) == split_ws_from(s, pos + 1),
{
    let i0 = crate::text::skip_char_from(s, pos + 1, ' ');
    assert(crate::text::skip_char_from(s, pos, ' ') == i0);
    crate::text::lemma_skip_char_from(s, pos + 1, ' ');
    if i0 >= s.len() {
        assert(split_ws_from(s, pos) =~~= split_ws_from(s, pos + 1));
    } else {
        assert(split_ws_from(s, pos) =~~= split_ws_from(s, pos + 1));
    }
}

proof fn lemma_split_join_at(s: Seq<char>, pos: int, items: Seq<Seq<char>>)
    requires
        0 <= pos <= s.len(),
        s.subrange(pos, s.len() as int) == join_spaces(items),
        forall|i: int| 0 <= i < items.len() ==> token_ok(#[trigger] items[i]),
    ensures
        split_ws_from(s, pos) == items,
    decreases items.len(),
{
    reveal_strlit(" ");
    if items.len() == 0 {
        assert(s.subrange(pos, s.len() as int).len() == 0);
        assert(pos == s.len());
        assert(split_ws_from(s, pos) =~~= items);
    } else {
        let t0 = items[0];
        let j = join_spaces(items);
        assert forall|t: int| 0 <= t < j.len() implies s[pos + t] == j[t] by {
            assert(s.subrange(pos, s.len() as int)[t] == s[pos + t]);
        }
        if items.len() == 1 {
            assert(j == t0);
            assert(pos + t0.len() == s.len());
            assert forall|i: int| 0 <= i < t0.len() implies s[pos + i] == t0[i] by {
                assert(s[pos + i] == j[i]);
            }
            assert(s[pos] == t0[0]);
            assert(s[pos] != ' ');
            assert(crate::text::skip_char_from(s, pos, ' ') == pos);
            assert forall|q: int| pos <= q < s.len() implies s[q] != ' ' by {
                assert(s[q] == t0[q - pos]);
            }
            crate::text::lemma_find_char_at(s, pos, ' ', s.len() as int);
            assert(s.subrange(pos, s.len() as int) =~= t0);
            assert(split_ws_from(s, s.len() as int) =~~= Seq::<Seq<char>>::empty());
            assert(split_ws_from(s, pos) =~~= items);
        } else {
            let rest = items.drop_first();
            assert(j == t0 + " "@ + join_spaces(rest));
            assert(" "@.len() == 1 && " "@[0] == ' ');
            assert forall|i: int| 0 <= i < t0.len() implies s[pos + i] == t0[i] by {
                assert(s[pos + i] == j[i]);
                assert(j[i] == t0[i]);
            }
            let e = pos + t0.len();
            assert(s[e] == ' ') by {
                assert(j[t0.len() as int] == ' ');
            }
            assert(s[pos] == t0[0]);
            assert(s[pos] != ' ');
            assert(crate::text::skip_char_from(s, pos, ' ') == pos);
            assert forall|q: int| pos <= q < e implies s[q] != ' ' by {
                assert(s[q] == t0[q - pos]);
            }
            crate::text::lemma_find_char_at(s, pos, ' ', e);
            assert(s.subrange(pos, e) =~= t0);
            assert(e + 1 + join_spaces(rest).len() == s.len());
            assert(s.subrange(e + 1, s.len() as int) =~= join_spaces(rest)) by {
                assert forall|t: int| 0 <= t < join_spaces(rest).len() implies s.subrange(
                    e + 1,
                    s.len() as int,
                )[t] == join_spaces(rest)[t] by {
                    assert(s.subrange(e + 1, s.len() as int)[t] == s[e + 1 + t]);
                    assert(s[e + 1 + t] == j[t0.len() + 1 + t]);
                    assert(j[t0.len() + 1 + t] == join_spaces(rest)[t]);
                }
            }
            lemma_split_join_at(s, e + 1, rest);
            lemma_split_skip_space(s, e);
            assert(split_ws_from(s, pos) =~~= items);
        }
    }
}

/// The `(key, value)` lines of one serialized manifest, in order.
pub open spec fn fields_of(m: NarInfoView) -> Seq<(Seq<char>, Seq<char>)> {
    seq![
        ("StorePath"@, m.store_path),
        ("URL"@, m.url),
        ("Compression"@, compression_str(m.compression)),
    ] + (match m.file_hash {
        Some(h) => seq![("FileHash"@, typed_sha256(h.digest))],
        Option::None => Seq::empty(),
    }) + (match m.file_size {
        Some(n) => seq![("FileSize"@, dec_of(n as int))],
        Option::None => Seq::empty(),
    }) + seq![
        ("NarHash"@, typed_sha256(m.nar_hash.digest)),
        ("NarSize"@, dec_of(m.nar_size as int)),
    ] + (match m.system {
        Some(x) => seq![("System"@, x)],
        Option::None => Seq::empty(),
    }) + seq![("References"@, join_spaces(m.references))] + (match m.deriver {
        Some(x) => seq![("Deriver"@, x)],
        Option::None => Seq::empty(),
    }) + (match m.signature {
        Some(x) => seq![("Sig"@, x)],
        Option::None => Seq::empty(),
    }) + (match m.ca {
        Some(x) => seq![("CA"@, x)],
        Option::None => Seq::empty(),
    })
}

proof fn reveal_keys()
    ensures
        "StorePath"@.len() == 9,
        "URL"@.len() == 3,
        "Compression"@.len() == 11,
        "FileHash"@.len() == 8,
        "FileSize"@.len() == 8,
        "NarHash"@.len() == 7,
        "NarSize"@.len() == 7,
        "System"@.len() == 6,
        "References"@.len() == 10,
        "Deriver"@.len() == 7,
        "Sig"@.len() == 3,
        "CA"@.len() == 2,
        "FileHash"@ != "FileSize"@,
        "NarHash"@ != "NarSize"@,
        "NarHash"@ != "Deriver"@,
        "NarSize"@ != "Deriver"@,
        "URL"@ != "Sig"@,
        forall|i: int| 0 <= i < "StorePath"@.len() ==> ((#[trigger] "StorePath"@[i]) != ':'
            && "StorePath"@[i] != '\n'),
        forall|i: int| 0 <= i < "URL"@.len() ==> ((#[trigger] "URL"@[i]) != ':' && "URL"@[i]
            != '\n'),
        forall|i: int| 0 <= i < "Compression"@.len() ==> ((#[trigger] "Compression"@[i]) != ':'
            && "Compression"@[i] != '\n'),
        forall|i: int| 0 <= i < "FileHash"@.len() ==> ((#[trigger] "FileHash"@[i]) != ':'
            && "FileHash"@[i] != '\n'),
        forall|i: int| 0 <= i < "FileSize"@.len() ==> ((#[trigger] "FileSize"@[i]) != ':'
            && "FileSize"@[i] != '\n'),
        forall|i: int| 0 <= i < "NarHash"@.len() ==> ((#[trigger] "NarHash"@[i]) != ':'
            && "NarHash"@[i] != '\n'),
        forall|i: int| 0 <= i < "NarSize"@.len() ==> ((#[trigger] "NarSize"@[i]) != ':'
            && "NarSize"@[i] != '\n'),
        forall|i: int| 0 <= i < "System"@.len() ==> ((#[trigger] "System"@[i]) != ':'
            && "System"@[i] != '\n'),
        forall|i: int| 0 <= i < "References"@.len() ==> ((#[trigger] "References"@[i]) != ':'
            && "References"@[i] != '\n'),
        forall|i: int| 0 <= i < "Deriver"@.len() ==> ((#[trigger] "Deriver"@[i]) != ':'
            && "Deriver"@[i] != '\n'),
        forall|i: int| 0 <= i < "Sig"@.len() ==> ((#[trigger] "Sig"@[i]) != ':' && "Sig"@[i]
            != '\n'),
        forall|i: int| 0 <= i < "CA"@.len() ==> ((#[trigger] "CA"@[i]) != ':' && "CA"@[i]
            != '\n'),
{
    reveal_strlit("StorePath");
    reveal_strlit("URL");
    reveal_strlit("Compression");
    reveal_strlit("FileHash");
    reveal_strlit("FileSize");
    reveal_strlit("NarHash");
    reveal_strlit("NarSize");
    reveal_strlit("System");
    reveal_strlit("References");
    reveal_strlit("Deriver");
    reveal_strlit("Sig");
    reveal_strlit("CA");
    assert("FileHash"@[4] != "FileSize"@[4]);
    assert("NarHash"@[3] != "NarSize"@[3]);
    assert("NarHash"@[0] != "Deriver"@[0]);
    assert("NarSize"@[0] != "Deriver"@[0]);
    assert("URL"@[0] != "Sig"@[0]);
}

proof fn lemma_compression_text(c: Compression)
    ensures
        text_ok(compression_str(c)),
{
    reveal_strlit("none");
    reveal_strlit("xz");
    reveal_strlit("bzip2");
    reveal_strlit("br");
    reveal_strlit("zstd");
}

proof fn lemma_join_text(items: Seq<Seq<char>>)
    requires
        forall|i: int| 0 <= i < items.len() ==> token_ok(#[trigger] items[i]),
    ensures
        text_ok(join_spaces(items)),
    decreases items.len(),
{
    reveal_strlit(" ");
    if items.len() > 1 {
        lemma_join_text(items.drop_first());
        let j = join_spaces(items);
        assert forall|i: int| 0 <= i < j.len() implies (#[trigger] j[i]) != '\n' by {
            if i < items[0].len() {
                assert(j[i] == items[0][i]);
            } else if i > items[0].len() {
                assert(j[i] == join_spaces(items.drop_first())[i - items[0].len() - 1]);
            }
        }
    }
}

proof fn lemma_lines_triple(k1: Seq<char>, v1: Seq<char>, k2: Seq<char>, v2: Seq<char>,
    k3: Seq<char>, v3: Seq<char>)
    ensures
        lines_text(seq![(k1, v1), (k2, v2), (k3, v3)]) == line_of(k1, v1) + line_of(k2, v2)
            + line_of(k3, v3),
{
    let a = seq![(k1, v1), (k2, v2), (k3, v3)];
    let b1 = a.drop_first();
    let b2 = b1.drop_first();
    let b3 = b2.drop_first();
    assert(b1[0] == a[1] && b2[0] == a[2]);
    assert(b3 =~= Seq::<(Seq<char>, Seq<char>)>::empty());
    assert(lines_text(b3) == Seq::<char>::empty());
    assert(lines_text(b2) == line_of(k3, v3) + lines_text(b3));
    assert(lines_text(b1) == line_of(k2, v2) + lines_text(b2));
    assert(lines_text(a) == line_of(k1, v1) + lines_text(b1));
    assert(lines_text(a) =~= line_of(k1, v1) + line_of(k2, v2) + line_of(k3, v3));
}

proof fn lemma_lines_pair(k1: Seq<char>, v1: Seq<char>, k2: Seq<char>, v2: Seq<char>)
    ensures
        lines_text(seq![(k1, v1), (k2, v2)]) == line_of(k1, v1) + line_of(k2, v2),
{
    let a = seq![(k1, v1), (k2, v2)];
    let b1 = a.drop_first();
    let b2 = b1.drop_first();
    assert(b1[0] == a[1]);
    assert(b2 =~= Seq::<(Seq<char>, Seq<char>)>::empty());
    assert(lines_text(b2) == Seq::<char>::empty());
    assert(lines_text(b1) == line_of(k2, v2) + lines_text(b2));
    assert(lines_text(a) == line_of(k1, v1) + lines_text(b1));
    assert(lines_text(a) =~= line_of(k1, v1) + line_of(k2, v2));
}

proof fn lemma_lines_single(k: Seq<char>, v: Seq<char>)
    ensures
        lines_text(seq![(k, v)]) == line_of(k, v),
{
    let a = seq![(k, v)];
    assert(a.drop_first() =~= Seq::<(Seq<char>, Seq<char>)>::empty());
    assert(lines_text(a.drop_first()) == Seq::<char>::empty());
    assert(lines_text(a) =~= line_of(k, v));
}

proof fn lemma_fold_single(st: PartialManifest, k: Seq<char>, v: Seq<char>)
    ensures
        fold_fields(st, seq![(k, v)]) == (match apply_field(st, k, v) {
            Ok(st2) => Ok(st2),
            Err(e) => Err(e),
        }),
{
    let a = seq![(k, v)];
    assert(a.drop_first() =~= Seq::<(Seq<char>, Seq<char>)>::empty());
    match apply_field(st, k, v) {
        Ok(st2) => {
            assert(fold_fields(st2, a.drop_first()) == Ok::<PartialManifest, ErrorV>(st2));
        }
        Err(_) => {}
    }
}

proof fn lemma_regroup(l1: Seq<char>, l2: Seq<char>, l3: Seq<char>, l4: Seq<char>,
    l5: Seq<char>, l6: Seq<char>, l7: Seq<char>, l8: Seq<char>, l9: Seq<char>, l10: Seq<char>,
    l11: Seq<char>, l12: Seq<char>)
    ensures
        (l1 + l2 + l3) + (l4 + (l5 + ((l6 + l7) + (l8 + (l9 + (l10 + (l11 + l12))))))) == l1 + l2
            + l3 + l4 + l5 + l6 + l7 + l8 + l9 + l10 + l11 + l12,
{
    assert((l1 + l2 + l3) + (l4 + (l5 + ((l6 + l7) + (l8 + (l9 + (l10 + (l11 + l12))))))) =~= l1
        + l2 + l3 + l4 + l5 + l6 + l7 + l8 + l9 + l10 + l11 + l12);
}

/// The serialized text of a manifest is exactly its field lines.
#[verifier::rlimit(100)]
proof fn lemma_fields_text(m: NarInfoView)
    ensures
        lines_text(fields_of(m)) == spec_serialize(m),
{
    let a1 = seq![
        ("StorePath"@, m.store_path),
        ("URL"@, m.url),
        ("Compression"@, compression_str(m.compression)),
    ];
    let a2 = (match m.file_hash {
        Some(h) => seq![("FileHash"@, typed_sha256(h.digest))],
        Option::None => Seq::empty(),
    });
    let a3 = (match m.file_size {
        Some(n) => seq![("FileSize"@, dec_of(n as int))],
        Option::None => Seq::empty(),
    });
    let a4 = seq![
        ("NarHash"@, typed_sha256(m.nar_hash.digest)),
        ("NarSize"@, dec_of(m.nar_size as int)),
    ];
    let a5 = (match m.system {
        Some(x) => seq![("System"@, x)],
        Option::None => Seq::empty(),
    });
    let a6 = seq![("References"@, join_spaces(m.references))];
    let a7 = (match m.deriver {
        Some(x) => seq![("Deriver"@, x)],
        Option::None => Seq::empty(),
    });
    let a8 = (match m.signature {
        Some(x) => seq![("Sig"@, x)],
        Option::None => Seq::empty(),
    });
    let a9 = (match m.ca {
        Some(x) => seq![("CA"@, x)],
        Option::None => Seq::empty(),
    });
    let r8 = a8 + a9;
    let r7 = a7 + r8;
    let r6 = a6 + r7;
    let r5 = a5 + r6;
    let r4 = a4 + r5;
    let r3 = a3 + r4;
    let r2 = a2 + r3;
    assert(fields_of(m) =~= a1 + r2);
    lemma_lines_concat(a1, r2);
    lemma_lines_concat(a2, r3);
    lemma_lines_concat(a3, r4);
    lemma_lines_concat(a4, r5);
    lemma_lines_concat(a5, r6);
    lemma_lines_concat(a6, r7);
    lemma_lines_concat(a7, r8);
    lemma_lines_concat(a8, a9);
    lemma_lines_triple(
        "StorePath"@,
        m.store_path,
        "URL"@,
        m.url,
        "Compression"@,
        compression_str(m.compression),
    );
    lemma_lines_pair(
        "NarHash"@,
        typed_sha256(m.nar_hash.digest),
        "NarSize"@,
        dec_of(m.nar_size as int),
    );
    lemma_lines_single("References"@, join_spaces(m.references));
    match m.file_hash {
        Some(h) => {
            lemma_lines_single("FileHash"@, typed_sha256(h.digest));
        }
        Option::None => {}
    }
    match m.file_size {
        Some(n) => {
            lemma_lines_single("FileSize"@, dec_of(n as int));
        }
        Option::None => {}
    }
    match m.system {
        Some(x) => {
            lemma_lines_single("System"@, x);
        }
        Option::None => {}
    }
    match m.deriver {
        Some(x) => {
            lemma_lines_single("Deriver"@, x);
        }
        Option::None => {}
    }
    match m.signature {
        Some(x) => {
            lemma_lines_single("Sig"@, x);
        }
        Option::None => {}
    }
    match m.ca {
        Some(x) => {
            lemma_lines_single("CA"@, x);
        }
        Option::None => {}
    }
    let t1 = line_of("StorePath"@, m.store_path);
    let t2 = line_of("URL"@, m.url);
    let t3 = line_of("Compression"@, compression_str(m.compression));
    let t4 = opt_line(
        "FileHash"@,
        match m.file_hash {
            Some(h) => Some(typed_sha256(h.digest)),
            Option::None => Option::None,
        },
    );
    let t5 = opt_line(
        "FileSize"@,
        match m.file_size {
            Some(n) => Some(dec_of(n as int)),
            Option::None => Option::None,
        },
    );
    let t6 = line_of("NarHash"@, typed_sha256(m.nar_hash.digest));
    let t7 = line_of("NarSize"@, dec_of(m.nar_size as int));
    let t8 = opt_line("System"@, m.system);
    let t9 = line_of("References"@, join_spaces(m.references));
    let t10 = opt_line("Deriver"@, m.deriver);
    let t11 = opt_line("Sig"@, m.signature);
    let t12 = opt_line("CA"@, m.ca);
    assert(lines_text(a1) == t1 + t2 + t3);
    assert(lines_text(a2) == t4);
    assert(lines_text(a3) == t5);
    assert(lines_text(a4) == t6 + t7);
    assert(lines_text(a5) == t8);
    assert(lines_text(a6) == t9);
    assert(lines_text(a7) == t10);
    assert(lines_text(a8) == t11);
    assert(lines_text(a9) == t12);
    assert(lines_text(fields_of(m)) == (t1 + t2 + t3) + (t4 + (t5 + ((t6 + t7) + (t8 + (t9 + (t10
        + (t11 + t12))))))));
    lemma_regroup(t1, t2, t3, t4, t5, t6, t7, t8, t9, t10, t11, t12);
    assert(lines_text(fields_of(m)) == spec_serialize(m));
}

/// Round trip: deserializing the serialization of any representable
/// manifest gives that manifest back exactly.
#[verifier::rlimit(50)]
pub proof fn lemma_manifest_round_trip(m: NarInfoView)
    requires
        wf_manifest(m),
    ensures
        spec_deserialize(spec_serialize(m)) == Ok::<NarInfoView, ErrorV>(m),
{
    reveal_keys();
    lemma_compression_text(m.compression);
    lemma_join_text(m.references);
    lemma_typed_round_trip(m.nar_hash.digest);
    lemma_dec_of(m.nar_size as int);
    match m.file_hash {
        Some(h) => {
            lemma_typed_round_trip(h.digest);
        }
        Option::None => {}
    }
    match m.file_size {
        Some(n) => {
            lemma_dec_of(n as int);
        }
        Option::None => {}
    }
    let ls = fields_of(m);
    lemma_fields_text(m);
    assert forall|i: int| 0 <= i < ls.len() implies wf_line((#[trigger] ls[i]).0, ls[i].1) by {}
    let s = spec_serialize(m);
    assert(s.subrange(0, s.len() as int) =~= lines_text(ls));
    lemma_deserialize_lines(s, 0, ls, empty_partial());
    lemma_fold_eval(m);
}

/// Folding the field lines of a manifest rebuilds exactly that manifest.
#[verifier::rlimit(100)]
proof fn lemma_fold_eval(m: NarInfoView)
    requires
        wf_manifest(m),
    ensures
        fold_fields(empty_partial(), fields_of(m)) matches Ok(st) && finalize_partial(st)
            == Ok::<NarInfoView, ErrorV>(m),
{
    reveal_keys();
    lemma_compression_round_trip(m.compression);
    lemma_typed_round_trip(m.nar_hash.digest);
    lemma_dec_of(m.nar_size as int);
    lemma_split_join_direct(m.references);
    match m.file_hash {
        Some(h) => {
            lemma_typed_round_trip(h.digest);
        }
        Option::None => {}
    }
    match m.file_size {
        Some(n) => {
            lemma_dec_of(n as int);
        }
        Option::None => {}
    }
    let a1 = seq![
        ("StorePath"@, m.store_path),
        ("URL"@, m.url),
        ("Compression"@, compression_str(m.compression)),
    ];
    let a2 = (match m.file_hash {
        Some(h) => seq![("FileHash"@, typed_sha256(h.digest))],
        Option::None => Seq::empty(),
    });
    let a3 = (match m.file_size {
        Some(n) => seq![("FileSize"@, dec_of(n as int))],
        Option::None => Seq::empty(),
    });
    let a4 = seq![
        ("NarHash"@, typed_sha256(m.nar_hash.digest)),
        ("NarSize"@, dec_of(m.nar_size as int)),
    ];
    let a5 = (match m.system {
        Some(x) => seq![("System"@, x)],
        Option::None => Seq::empty(),
    });
    let a6 = seq![("References"@, join_spaces(m.references))];
    let a7 = (match m.deriver {
        Some(x) => seq![("Deriver"@, x)],
        Option::None => Seq::empty(),
    });
    let a8 = (match m.signature {
        Some(x) => seq![("Sig"@, x)],
        Option::None => Seq::empty(),
    });
    let a9 = (match m.ca {
        Some(x) => seq![("CA"@, x)],
        Option::None => Seq::empty(),
    });
    let st0 = empty_partial();
    let r8 = a8 + a9;
    let r7 = a7 + r8;
    let r6 = a6 + r7;
    let r5 = a5 + r6;
    let r4 = a4 + r5;
    let r3 = a3 + r4;
    let r2 = a2 + r3;
    assert(fields_of(m) =~= a1 + r2);
    lemma_fold_concat(st0, a1, r2);
    let st1 = apply_field(st0, "StorePath"@, m.store_path)->Ok_0;
    let st2 = apply_field(st1, "URL"@, m.url)->Ok_0;
    let st3 = apply_field(st2, "Compression"@, compression_str(m.compression))->Ok_0;
    assert(fold_fields(st0, a1) == Ok::<PartialManifest, ErrorV>(st3)) by {
        let b1 = a1.drop_first();
        let b2 = b1.drop_first();
        let b3 = b2.drop_first();
        assert(b1[0] == a1[1] && b2[0] == a1[2]);
        assert(b3 =~= Seq::<(Seq<char>, Seq<char>)>::empty());
        assert(fold_fields(st0, a1) == fold_fields(st1, b1));
        assert(fold_fields(st1, b1) == fold_fields(st2, b2));
        assert(fold_fields(st2, b2) == fold_fields(st3, b3));
        assert(fold_fields(st3, b3) == Ok::<PartialManifest, ErrorV>(st3));
    }
    let st4 = (match m.file_hash {
        Some(h) => apply_field(st3, "FileHash"@, typed_sha256(h.digest))->Ok_0,
        Option::None => st3,
    });
    lemma_fold_concat(st3, a2, r3);
    match m.file_hash {
        Some(h) => {
            lemma_fold_single(st3, "FileHash"@, typed_sha256(h.digest));
        }
        Option::None => {}
    }
    assert(fold_fields(st3, a2) == Ok::<PartialManifest, ErrorV>(st4));
    let st5 = (match m.file_size {
        Some(n) => apply_field(st4, "FileSize"@, dec_of(n as int))->Ok_0,
        Option::None => st4,
    });
    lemma_fold_concat(st4, a3, r4);
    match m.file_size {
        Some(n) => {
            lemma_fold_single(st4, "FileSize"@, dec_of(n as int));
        }
        Option::None => {}
    }
    assert(fold_fields(st4, a3) == Ok::<PartialManifest, ErrorV>(st5));
    lemma_fold_concat(st5, a4, r5);
    assert(a4.drop_first().drop_first() =~= Seq::<(Seq<char>, Seq<char>)>::empty());
    let st6 = apply_field(st5, "NarHash"@, typed_sha256(m.nar_hash.digest))->Ok_0;
    let st7 = apply_field(st6, "NarSize"@, dec_of(m.nar_size as int))->Ok_0;
    assert(fold_fields(st5, a4) == Ok::<PartialManifest, ErrorV>(st7)) by {
        let b1 = a4.drop_first();
        let b2 = b1.drop_first();
        assert(b1[0] == a4[1]);
        assert(b2 =~= Seq::<(Seq<char>, Seq<char>)>::empty());
        assert(fold_fields(st5, a4) == fold_fields(st6, b1));
        assert(fold_fields(st6, b1) == fold_fields(st7, b2));
        assert(fold_fields(st7, b2) == Ok::<PartialManifest, ErrorV>(st7));
    }
    let st8 = (match m.system {
        Some(x) => apply_field(st7, "System"@, x)->Ok_0,
        Option::None => st7,
    });
    lemma_fold_concat(st7, a5, r6);
    match m.system {
        Some(x) => {
            lemma_fold_single(st7, "System"@, x);
        }
        Option::None => {}
    }
    assert(fold_fields(st7, a5) == Ok::<PartialManifest, ErrorV>(st8));
    lemma_fold_concat(st8, a6, r7);
    lemma_fold_single(st8, "References"@, join_spaces(m.references));
    let st9 = apply_field(st8, "References"@, join_spaces(m.references))->Ok_0;
    assert(fold_fields(st8, a6) == Ok::<PartialManifest, ErrorV>(st9));
    let st10 = (match m.deriver {
        Some(x) => apply_field(st9, "Deriver"@, x)->Ok_0,
        Option::None => st9,
    });
    lemma_fold_concat(st9, a7, r8);
    match m.deriver {
        Some(x) => {
            lemma_fold_single(st9, "Deriver"@, x);
        }
        Option::None => {}
    }
    assert(fold_fields(st9, a7) == Ok::<PartialManifest, ErrorV>(st10));
    let st11 = (match m.signature {
        Some(x) => apply_field(st10, "Sig"@, x)->Ok_0,
        Option::None => st10,
    });
    lemma_fold_concat(st10, a8, a9);
    match m.signature {
        Some(x) => {
            lemma_fold_single(st10, "Sig"@, x);
        }
        Option::None => {}
    }
    assert(fold_fields(st10, a8) == Ok::<PartialManifest, ErrorV>(st11));
    let st12 = (match m.ca {
        Some(x) => apply_field(st11, "CA"@, x)->Ok_0,
        Option::None => st11,
    });
    match m.ca {
        Some(x) => {
            lemma_fold_single(st11, "CA"@, x);
        }
        Option::None => {}
    }
    assert(fold_fields(st11, a9) == Ok::<PartialManifest, ErrorV>(st12));
    assert(fold_fields(st0, fields_of(m)) == Ok::<PartialManifest, ErrorV>(st12));
    assert(finalize_partial(st12) matches Ok(out) && out == m) by {
        assert(finalize_partial(st12)->Ok_0 == m);
    }
}

/// Splitting the joined encoding of well-formed tokens gives them back.
pub proof fn lemma_split_join_direct(items: Seq<Seq<char>>)
    requires
        forall|i: int| 0 <= i < items.len() ==> token_ok(#[trigger] items[i]),
    ensures
        split_ws_from(join_spaces(items), 0) == items,
{
    let s = join_spaces(items);
    assert(s.subrange(0, s.len() as int) =~= s);
    lemma_split_join_at(s, 0, items);
}

} // verus!
