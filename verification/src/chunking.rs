//! Splitting a packed bitmap into upload chunks: successive slices of
//! exactly 96 bytes (the last may be shorter, but never empty), each
//! paired with its byte offset into the full stream.

use vstd::prelude::*;
use vstd::arithmetic::div_mod::{lemma_fundamental_div_mod, lemma_fundamental_div_mod_converse};

verus! {

/// The fixed upload chunk size in bytes.
pub const CHUNK_SIZE: usize = 96;

/// A contiguous slice of the packed bitmap, paired with its byte offset
/// (not chunk count) into the full stream.
pub struct UploadChunk {
    pub offset: usize,
    pub payload: Vec<u8>,
}

/// How many chunks a stream of `len` bytes splits into.
pub open spec fn chunk_count(len: int) -> int {
    (len + 95) / 96
}

/// Where chunk `i`'s payload ends in the stream.
pub open spec fn chunk_end(len: int, i: int) -> int {
    if 96 * i + 96 <= len {
        96 * i + 96
    } else {
        len
    }
}

/// The payload of chunk `i` of a stream.
pub open spec fn chunk_payload(data: Seq<u8>, i: int) -> Seq<u8> {
    data.subrange(96 * i, chunk_end(data.len() as int, i))
}

/// Basic bounds of the chunk count: the chunks cover the stream, and
/// all but the last start strictly inside it.
pub proof fn lemma_chunk_count_bounds(len: int)
    requires
        len >= 0,
    ensures
        chunk_count(len) >= 0,
        96 * chunk_count(len) >= len,
        len > 0 ==> chunk_count(len) >= 1 && 96 * (chunk_count(len) - 1) < len,
        len == 0 ==> chunk_count(len) == 0,
{
    lemma_fundamental_div_mod(len + 95, 96);
    vstd::arithmetic::div_mod::lemma_mod_pos_bound(len + 95, 96);
}

/// Splits a byte stream into upload chunks: chunk `i` starts at byte
/// offset `96 * i`; every chunk except possibly the last holds exactly
/// 96 bytes; the last holds between 1 and 96.
pub fn split_chunks(data: &Vec<u8>) -> (r: Vec<UploadChunk>)
    ensures
        r@.len() == chunk_count(data@.len() as int),
        forall|i: int| 0 <= i < r@.len() ==> (#[trigger] r@[i]).offset == 96 * i,
        forall|i: int| 0 <= i < r@.len() ==> (#[trigger] r@[i]).payload@ == chunk_payload(data@, i),
        forall|i: int| 0 <= i < r@.len() - 1 ==> (#[trigger] r@[i]).payload@.len() == 96,
        r@.len() > 0 ==> 1 <= r@[r@.len() - 1].payload@.len() <= 96,
{
    let ghost len = data@.len() as int;
    let n: usize = data.len();
    let mut r: Vec<UploadChunk> = Vec::new();
    let mut pos: usize = 0;
    let mut ci: usize = 0;
    while pos < n
        invariant
            n == data@.len(),
            len == n as int,
            r@.len() == ci as int,
            pos as int == if 96 * ci as int <= len {
                96 * ci as int
            } else {
                len
            },
            ci as int == 0 || 96 * (ci as int - 1) < len,
            forall|i: int| 0 <= i < r@.len() ==> (#[trigger] r@[i]).offset == 96 * i,
            forall|i: int| 0 <= i < r@.len() ==> (#[trigger] r@[i]).payload@ == chunk_payload(data@, i),
        decreases n - pos,
    {
        let end: usize = if n - pos >= 96 {
            pos + 96
        } else {
            n
        };
        let mut payload: Vec<u8> = Vec::new();
        let mut j: usize = pos;
        while j < end
            invariant
                pos <= j <= end <= n,
                n == data@.len(),
                payload@ == data@.subrange(pos as int, j as int),
            decreases end - j,
        {
            payload.push(data[j]);
            proof {
                assert(data@.subrange(pos as int, j as int + 1)
                    =~= data@.subrange(pos as int, j as int).push(data@[j as int]));
            }
            j = j + 1;
        }
        proof {
            assert(chunk_end(len, ci as int) == end as int);
            assert(payload@ == chunk_payload(data@, ci as int));
        }
        r.push(UploadChunk { offset: pos, payload });
        pos = end;
        ci = ci + 1;
    }
    proof {
        lemma_chunk_count_bounds(len);
        if ci as int == 0 {
            assert(len == 0);
        } else {
            assert(96 * (ci as int - 1) < len <= 96 * ci as int);
            let s = 96 * ci as int - len;
            assert(0 <= s < 96);
            lemma_fundamental_div_mod_converse(len + 95, 96, ci as int, 95 - s);
        }
        assert(r@.len() == chunk_count(len));
        assert forall|i: int| 0 <= i < r@.len() - 1 implies (#[trigger] r@[i]).payload@.len() == 96 by {
            assert(96 * i + 96 == 96 * (i + 1));
            assert(96 * (i + 1) <= 96 * (r@.len() - 1));
            assert(96 * (r@.len() - 1) < len);
        }
        if r@.len() > 0 {
            let last = r@.len() - 1;
            assert(96 * last < len);
            assert(r@[last].payload@.len() == chunk_end(len, last) - 96 * last);
        }
    }
    r
}

/// The concatenation of a sequence of chunk payloads, in order.
pub open spec fn concat_payloads(cs: Seq<UploadChunk>) -> Seq<u8>
    decreases cs.len(),
{
    if cs.len() == 0 {
        Seq::empty()
    } else {
        concat_payloads(cs.drop_last()) + cs.last().payload@
    }
}

/// The first `m` chunks of a stream concatenate to the stream's first
/// `min(96 * m, len)` bytes.
proof fn lemma_concat_prefix(data: Seq<u8>, cs: Seq<UploadChunk>, m: int)
    requires
        0 <= m <= cs.len(),
        cs.len() == chunk_count(data.len() as int),
        forall|i: int| 0 <= i < cs.len() ==> (#[trigger] cs[i]).payload@ == chunk_payload(data, i),
    ensures
        concat_payloads(cs.take(m)) == data.subrange(
            0,
            if 96 * m <= data.len() {
                96 * m
            } else {
                data.len() as int
            },
        ),
    decreases m,
{
    let len = data.len() as int;
    if m == 0 {
        assert(concat_payloads(cs.take(0)) =~= data.subrange(0, 0));
    } else {
        lemma_concat_prefix(data, cs, m - 1);
        lemma_chunk_count_bounds(len);
        assert(cs.take(m).drop_last() =~= cs.take(m - 1));
        assert(cs.take(m).last() == cs[m - 1]);
        assert(96 * (m - 1) < len) by {
            assert(96 * (m - 1) <= 96 * (cs.len() - 1)) by (nonlinear_arith)
                requires
                    m <= cs.len(),
            ;
        }
        assert(96 * (m - 1) + 96 == 96 * m);
        let hi = if 96 * m <= len {
            96 * m
        } else {
            len
        };
        assert(concat_payloads(cs.take(m)) =~= data.subrange(0, hi));
    }
}

/// CHUNK COVERAGE: concatenating all chunk payloads in offset order
/// reproduces the exact packed byte stream, and the offsets form a
/// contiguous, strictly increasing partition of `[0, len)`: each chunk
/// starts where the previous one ended.
pub proof fn lemma_chunk_coverage(data: Seq<u8>, cs: Seq<UploadChunk>)
    requires
        cs.len() == chunk_count(data.len() as int),
        forall|i: int| 0 <= i < cs.len() ==> (#[trigger] cs[i]).offset == 96 * i,
        forall|i: int| 0 <= i < cs.len() ==> (#[trigger] cs[i]).payload@ == chunk_payload(data, i),
        forall|i: int| 0 <= i < cs.len() - 1 ==> (#[trigger] cs[i]).payload@.len() == 96,
    ensures
        concat_payloads(cs) == data,
        forall|i: int| 0 <= i < cs.len() - 1
            ==> (#[trigger] cs[i + 1].offset) == cs[i].offset + cs[i].payload@.len(),
        forall|i: int| 0 <= i < cs.len() - 1 ==> (#[trigger] cs[i].offset) < cs[i + 1].offset,
{
    let len = data.len() as int;
    lemma_chunk_count_bounds(len);
    lemma_concat_prefix(data, cs, cs.len() as int);
    assert(cs.take(cs.len() as int) =~= cs);
    assert(concat_payloads(cs) =~= data);
    assert forall|i: int| 0 <= i < cs.len() - 1 implies (#[trigger] cs[i + 1].offset) == cs[i].offset
        + cs[i].payload@.len() by {
        assert(96 * (i + 1) == 96 * i + 96);
    }
}

} // verus!
