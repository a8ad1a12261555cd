//! Content-defined chunking: an archive byte stream is split into
//! variable-size chunks whose boundaries depend on a rolling window of the
//! content itself, so a local edit shifts only the chunks near the edit.

use vstd::prelude::*;

verus! {

/// No boundary is taken before a chunk has this many bytes.
pub const MIN_CHUNK_SIZE: usize = 256;

/// A boundary is forced once a chunk has this many bytes.
pub const MAX_CHUNK_SIZE: usize = 65536;

/// The chunker sees a content-defined boundary after position `i` when a
/// mix of the four bytes ending at `i` has its low ten bits all set.
pub open spec fn is_boundary(data: Seq<u8>, i: int) -> bool
    recommends 3 <= i < data.len(),
{
    let h = ((data[i - 3] as u32) << 24) | ((data[i - 2] as u32) << 16) | ((data[i - 1] as u32)
        << 8) | (data[i] as u32);
    ((h ^ (h >> 15)) & 0x3ff) == 0x3ff
}

/// Scans for the end (exclusive) of the chunk that starts at `s`: the first
/// position where a content-defined boundary falls after at least
/// `MIN_CHUNK_SIZE` bytes, a forced cut at `MAX_CHUNK_SIZE` bytes, or the
/// end of the data.
pub open spec fn chunk_scan(data: Seq<u8>, s: int, i: int) -> int
    decreases data.len() - i when s <= i <= data.len()
{
    if i >= data.len() {
        data.len() as int
    } else if (i - s + 1 >= MIN_CHUNK_SIZE && i >= 3 && is_boundary(data, i)) || i - s + 1
        >= MAX_CHUNK_SIZE {
        i + 1
    } else {
        chunk_scan(data, s, i + 1)
    }
}

/// The end of the chunk starting at `s` (clamped so it always advances and
/// stays in range; the clamps never fire, see `lemma_chunk_end`).
pub open spec fn chunk_end(data: Seq<u8>, s: int) -> int {
    let e = chunk_scan(data, s, s);
    if e <= s {
        s + 1
    } else if e > data.len() {
        data.len() as int
    } else {
        e
    }
}

pub proof fn lemma_chunk_scan(data: Seq<u8>, s: int, i: int)
    requires
        0 <= s <= i <= data.len(),
        i - s < MAX_CHUNK_SIZE,
    ensures
        i <= chunk_scan(data, s, i) <= data.len(),
        i < data.len() ==> i < chunk_scan(data, s, i),
        chunk_scan(data, s, i) - s <= MAX_CHUNK_SIZE,
    decreases data.len() - i,
{
    if i < data.len() && !((i - s + 1 >= MIN_CHUNK_SIZE && i >= 3 && is_boundary(data, i)) || i - s
        + 1 >= MAX_CHUNK_SIZE) {
        lemma_chunk_scan(data, s, i + 1);
    }
}

pub proof fn lemma_chunk_end(data: Seq<u8>, s: int)
    requires
        0 <= s < data.len(),
    ensures
        s < chunk_end(data, s) <= data.len(),
        chunk_end(data, s) - s <= MAX_CHUNK_SIZE,
        chunk_end(data, s) == chunk_scan(data, s, s),
{
    lemma_chunk_scan(data, s, s);
}

/// The chunks of `data` from position `s` on: each chunk runs to its
/// `chunk_end`, and the last one runs to the end of the data.
pub open spec fn spec_chunks(data: Seq<u8>, s: int) -> Seq<Seq<u8>>
    decreases data.len() - s when 0 <= s <= data.len()
{
    if s >= data.len() {
        Seq::empty()
    } else {
        seq![data.subrange(s, chunk_end(data, s))] + spec_chunks(data, chunk_end(data, s))
    }
}

/// Concatenation of a sequence of byte chunks.
pub open spec fn concat_chunks(cs: Seq<Seq<u8>>) -> Seq<u8>
    decreases cs.len(),
{
    if cs.len() == 0 {
        Seq::empty()
    } else {
        cs[0] + concat_chunks(cs.drop_first())
    }
}

/// Chunking loses nothing: the chunks of `data` from `s` concatenate back
/// to exactly the bytes from `s` on, and no chunk is empty or over the
/// maximum size.
pub proof fn lemma_chunks_concat(data: Seq<u8>, s: int)
    requires
        0 <= s <= data.len(),
    ensures
        concat_chunks(spec_chunks(data, s)) == data.subrange(s, data.len() as int),
        forall|i: int| 0 <= i < spec_chunks(data, s).len() ==> 0 < #[trigger] spec_chunks(
            data,
            s,
        )[i].len() <= MAX_CHUNK_SIZE,
    decreases data.len() - s,
{
    if s >= data.len() {
        assert(concat_chunks(spec_chunks(data, s)) =~= data.subrange(s, data.len() as int));
    } else {
        let e = chunk_end(data, s);
        lemma_chunk_end(data, s);
        lemma_chunks_concat(data, e);
        let cs = spec_chunks(data, s);
        assert(cs.drop_first() =~~= spec_chunks(data, e));
        assert(concat_chunks(cs) =~= data.subrange(s, data.len() as int));
        assert(forall|i: int| 1 <= i < cs.len() ==> cs[i] == spec_chunks(data, e)[i - 1]);
        assert(cs[0].len() == e - s);
    }
}

fn is_boundary_exec(data: &Vec<u8>, i: usize) -> (r: bool)
    requires
        3 <= i < data@.len(),
    ensures
        r == is_boundary(data@, i as int),
{
    let h: u32 = ((data[i - 3] as u32) << 24u32) | ((data[i - 2] as u32) << 16u32) | ((data[i - 1]
        as u32) << 8u32) | (data[i] as u32);
    ((h ^ (h >> 15u32)) & 0x3ff) == 0x3ff
}

/// Finds the end of the chunk that starts at `s`.
fn find_chunk_end(data: &Vec<u8>, s: usize) -> (r: usize)
    requires
        s < data@.len(),
    ensures
        r == chunk_end(data@, s as int),
{
    let n = data.len();
    let mut i: usize = s;
    loop
        invariant
            s <= i <= n,
            n == data@.len(),
            s < n,
            chunk_scan(data@, s as int, s as int) == chunk_scan(data@, s as int, i as int),
        decreases n - i,
    {
        if i >= n {
            proof {
                lemma_chunk_scan(data@, s as int, s as int);
            }
            return n;
        }
        if (i - s + 1 >= MIN_CHUNK_SIZE && i >= 3 && is_boundary_exec(data, i)) || i - s + 1
            >= MAX_CHUNK_SIZE {
            proof {
                lemma_chunk_scan(data@, s as int, s as int);
            }
            return i + 1;
        }
        i = i + 1;
    }
}

/// Splits `data` into its content-defined chunks. The chunks concatenate
/// back to `data` exactly (`lemma_chunks_concat`).
pub fn chunk_bytes(data: &Vec<u8>) -> (r: Vec<Vec<u8>>)
    ensures
        r.deep_view() == spec_chunks(data@, 0),
        r@.len() == spec_chunks(data@, 0).len(),
        forall|i: int| 0 <= i < r@.len() ==> #[trigger] r@[i]@ == spec_chunks(data@, 0)[i],
{
    let n = data.len();
    let mut out: Vec<Vec<u8>> = Vec::new();
    let mut s: usize = 0;
    while s < n
        invariant
            0 <= s <= n,
            n == data@.len(),
            out.deep_view() + spec_chunks(data@, s as int) == spec_chunks(data@, 0),
        decreases n - s,
    {
        let e = find_chunk_end(data, s);
        proof {
            lemma_chunk_end(data@, s as int);
        }
        let mut chunk: Vec<u8> = Vec::new();
        let mut j: usize = s;
        while j < e
            invariant
                s <= j <= e <= n,
                n == data@.len(),
                chunk@ == data@.subrange(s as int, j as int),
            decreases e - j,
        {
            chunk.push(data[j]);
            proof {
                assert(chunk@ =~= data@.subrange(s as int, j + 1));
            }
            j = j + 1;
        }
        let ghost old_out = out.deep_view();
        out.push(chunk);
        proof {
            assert(out.deep_view() =~~= old_out.push(chunk@));
            assert(spec_chunks(data@, s as int) == seq![
                data@.subrange(s as int, e as int),
            ] + spec_chunks(data@, e as int));
            assert(out.deep_view() + spec_chunks(data@, e as int) =~~= old_out + (seq![
                data@.subrange(s as int, e as int),
            ] + spec_chunks(data@, e as int)));
        }
        s = e;
    }
    proof {
        assert(spec_chunks(data@, s as int) =~~= Seq::<Seq<u8>>::empty());
        assert(out.deep_view() =~~= spec_chunks(data@, 0));
        assert forall|i: int| 0 <= i < out@.len() implies #[trigger] out@[i]@ == out.deep_view()[i]
        by {
            assert(out@[i].deep_view() =~= out@[i]@);
        }
    }
    out
}

} // verus!
