//! Chunk layout policy and the byte ⇄ sample conversions.
//!
//! A buffer of length `L` is cut into `floor(L / w)` chunks of exactly `w`
//! bytes; trailing remainder bytes are dropped by design. Each chunk is read
//! as an unsigned little-endian integer, zero-extended to the register width
//! of 4 bytes, and that integer is the chunk's sample value. Reassembly is
//! the inverse: each sample contributes the low `w` bytes of its 4-byte
//! little-endian form.

use vstd::prelude::*;
use vstd::bytes::*;
use vstd::slice::*;
use crate::errors::CbfError;

verus! {

/// Width in bytes of the register a chunk's value must fit in.
pub const REGISTER_WIDTH: u64 = 4;

/// The chunk width chosen for a buffer of length `len`: roughly a quarter
/// of the buffer, rounded up, with a floor of one byte, so that at most
/// four chunks result.
pub open spec fn spec_chunk_width(len: u64) -> int {
    let c = (len + 3) / 4;
    if c < 1 {
        1
    } else {
        c
    }
}

/// The number of chunks a buffer of length `len` yields under the policy.
pub open spec fn spec_chunk_count(len: u64) -> int {
    len as int / spec_chunk_width(len)
}

/// Chooses the chunk layout for a buffer of length `len`.
///
/// Returns `(chunk_width, chunk_count)`, or `ChunkTooWide` when the policy
/// would pick a width beyond the register width — which happens exactly
/// when `len` exceeds four registers.
pub fn chunk_layout(len: u64) -> (r: Result<(u64, u64), CbfError>)
    ensures
        len <= 4 * REGISTER_WIDTH <==> r is Ok,
        r matches Ok(layout) ==> layout.0 == spec_chunk_width(len)
            && layout.1 == spec_chunk_count(len),
        r matches Err(e) ==> e == CbfError::ChunkTooWide,
{
    let mut width: u64 = len / 4;
    if len % 4 != 0 {
        width = width + 1;
    }
    if width < 1 {
        width = 1;
    }
    if width > REGISTER_WIDTH {
        Err(CbfError::ChunkTooWide)
    } else {
        Ok((width, len / width))
    }
}

/// A chunk zero-extended on the right to the register width of 4 bytes.
pub open spec fn pad_to_register(chunk: Seq<u8>) -> Seq<u8>
    recommends
        chunk.len() <= 4,
{
    if chunk.len() >= 4 {
        chunk
    } else {
        chunk + Seq::new((4 - chunk.len()) as nat, |i: int| 0u8)
    }
}

/// The sample value of one chunk: its bytes read as an unsigned
/// little-endian integer, zero-extended to the register width.
pub open spec fn spec_chunk_value(chunk: Seq<u8>) -> u32
    recommends
        chunk.len() <= 4,
{
    spec_u32_from_le_bytes(pad_to_register(chunk))
}

/// Chunk `i` of `buf` under width `w`: the bytes `[i*w, i*w + w)`.
pub open spec fn spec_chunk_at(buf: Seq<u8>, w: int, i: int) -> Seq<u8>
    recommends
        0 <= i,
        0 < w,
        (i + 1) * w <= buf.len(),
{
    buf.subrange(i * w, i * w + w)
}

/// The ordered sample set of `buf` under width `w`: the value of chunk `i`
/// at index `i`, for the dense nodes `0..n`.
pub open spec fn spec_samples(buf: Seq<u8>, w: int, n: int) -> Seq<u32>
    recommends
        0 < w <= 4,
        0 <= n,
        n * w <= buf.len(),
{
    Seq::new(n as nat, |i: int| spec_chunk_value(spec_chunk_at(buf, w, i)))
}

/// The bytes reassembled from a sample sequence under width `w`: each
/// sample contributes the low `w` bytes of its little-endian form, in
/// order.
pub open spec fn spec_reassembled(vals: Seq<u32>, w: int) -> Seq<u8>
    recommends
        0 < w <= 4,
{
    Seq::new((vals.len() * w) as nat, |j: int| spec_u32_to_le_bytes(vals[j / w])[j % w])
}

/// The sample value of one chunk of at most register width.
pub fn chunk_to_sample(chunk: &[u8]) -> (r: u32)
    requires
        chunk@.len() <= 4,
    ensures
        r == spec_chunk_value(chunk@),
{
    let mut padded: Vec<u8> = slice_to_vec(chunk);
    while padded.len() < 4
        invariant
            chunk@.len() <= padded@.len() <= 4,
            padded@ == chunk@ + Seq::new((padded@.len() - chunk@.len()) as nat, |i: int| 0u8),
        decreases 4 - padded@.len(),
    {
        padded.push(0u8);
        proof {
            assert(padded@ =~= chunk@
                + Seq::new((padded@.len() - chunk@.len()) as nat, |i: int| 0u8));
        }
    }
    proof {
        assert(padded@ =~= pad_to_register(chunk@));
    }
    u32_from_le_bytes(padded.as_slice())
}

/// Cuts the first `count * width` bytes of `input` into `count` chunks of
/// `width` bytes and returns their sample values in chunk order.
///
/// Fails on a zero width, on a width beyond the register width, and on a
/// buffer too short for the requested layout; otherwise the result is
/// exactly the sample set of the buffer.
pub fn samples_of(input: &[u8], width: usize, count: usize) -> (r: Result<
    Vec<u32>,
    CbfError,
>)
    ensures
        (0 < width <= 4 && count * width <= input@.len()) <==> r is Ok,
        r matches Ok(samples) ==> samples@ == spec_samples(
            input@,
            width as int,
            count as int,
        ),
        r matches Err(e) ==> (if width < 1 {
            e == CbfError::InvalidChunkWidth
        } else if width > 4 {
            e == CbfError::ChunkTooWide
        } else {
            e == CbfError::InputTooShort
        }),
{
    if width < 1 {
        return Err(CbfError::InvalidChunkWidth);
    }
    if width > 4 {
        return Err(CbfError::ChunkTooWide);
    }
    if count > input.len() / width {
        proof {
            assert(count * width > input@.len()) by (nonlinear_arith)
                requires
                    count > input@.len() as int / width as int,
                    width >= 1,
            ;
        }
        return Err(CbfError::InputTooShort);
    }
    proof {
        assert(count * width <= input@.len()) by (nonlinear_arith)
            requires
                count <= input@.len() as int / width as int,
                width >= 1,
        ;
    }
    let mut samples: Vec<u32> = Vec::new();
    let mut i: usize = 0;
    while i < count
        invariant
            0 < width <= 4,
            i <= count,
            count * width <= input@.len(),
            input@.len() <= usize::MAX,
            samples@.len() == i,
            forall|t: int|
                0 <= t < i ==> samples@[t] == spec_chunk_value(
                    spec_chunk_at(input@, width as int, t),
                ),
        decreases count - i,
    {
        proof {
            assert((i + 1) * width <= count * width) by (nonlinear_arith)
                requires
                    i + 1 <= count,
                    width >= 1,
            ;
            assert(i * width + width == (i + 1) * width) by (nonlinear_arith);
        }
        let chunk = slice_subrange(input, i * width, i * width + width);
        let sample = chunk_to_sample(chunk);
        samples.push(sample);
        i = i + 1;
    }
    proof {
        assert(samples@ =~= spec_samples(input@, width as int, count as int));
    }
    Ok(samples)
}

/// Rebuilds chunk bytes from sample values: the low `width` bytes of each
/// value's little-endian form, in sample order.
///
/// Fails on a zero width, on a width beyond the register width, and when
/// the output would not fit a `usize` length; otherwise the result is
/// exactly the reassembled byte sequence, of length `values.len() * width`.
pub fn reassemble(values: &Vec<u32>, width: usize) -> (r: Result<Vec<u8>, CbfError>)
    ensures
        (0 < width <= 4 && values@.len() * width <= usize::MAX) <==> r is Ok,
        r matches Ok(out) ==> out@ == spec_reassembled(values@, width as int)
            && out@.len() == values@.len() * width,
        r matches Err(e) ==> (if width < 1 {
            e == CbfError::InvalidChunkWidth
        } else if width > 4 {
            e == CbfError::ChunkTooWide
        } else {
            e == CbfError::ValueTooLarge
        }),
{
    if width < 1 {
        return Err(CbfError::InvalidChunkWidth);
    }
    if width > 4 {
        return Err(CbfError::ChunkTooWide);
    }
    if values.len() > usize::MAX / width {
        proof {
            assert(values@.len() * width > usize::MAX) by (nonlinear_arith)
                requires
                    values@.len() > usize::MAX as int / width as int,
                    width >= 1,
            ;
        }
        return Err(CbfError::ValueTooLarge);
    }
    proof {
        assert(values@.len() * width <= usize::MAX) by (nonlinear_arith)
            requires
                values@.len() <= usize::MAX as int / width as int,
                width >= 1,
        ;
    }
    let mut out: Vec<u8> = Vec::new();
    let mut i: usize = 0;
    while i < values.len()
        invariant
            0 < width <= 4,
            i <= values@.len(),
            values@.len() * width <= usize::MAX,
            out@.len() == i * width,
            forall|j: int|
                0 <= j < i * width ==> out@[j] == spec_u32_to_le_bytes(
                    values@[j / (width as int)],
                )[j % (width as int)],
        decreases values@.len() - i,
    {
        proof {
            assert((i + 1) * width <= values@.len() * width) by (nonlinear_arith)
                requires
                    i + 1 <= values@.len(),
                    width >= 1,
            ;
        }
        let bytes = u32_to_le_bytes(values[i]);
        let mut k: usize = 0;
        while k < width
            invariant
                0 < width <= 4,
                k <= width,
                i < values@.len(),
                (i + 1) * width <= values@.len() * width <= usize::MAX,
                bytes@.len() == 4,
                bytes@ == spec_u32_to_le_bytes(values@[i as int]),
                out@.len() == i * width + k,
                forall|j: int|
                    0 <= j < i * width + k ==> out@[j] == spec_u32_to_le_bytes(
                        values@[j / (width as int)],
                    )[j % (width as int)],
            decreases width - k,
        {
            proof {
                assert(i * width + k < (i + 1) * width) by (nonlinear_arith)
                    requires
                        k < width,
                ;
            }
            out.push(bytes[k]);
            proof {
                let w = width as int;
                let j = i * w + k;
                assert(j / w == i && j % w == k) by (nonlinear_arith)
                    requires
                        0 <= k < w,
                        0 <= i,
                        j == i * w + k,
                ;
            }
            k = k + 1;
        }
        proof {
            assert(i * width + width == (i + 1) * width) by (nonlinear_arith);
        }
        i = i + 1;
    }
    proof {
        assert(out@ =~= spec_reassembled(values@, width as int));
    }
    Ok(out)
}

/// Round trip of the chunking stage: cutting a buffer whose length is an
/// exact multiple of the chunk width into samples and reassembling those
/// samples under the same width gives back exactly the original buffer.
///
/// This is the integer half of the codec's round trip; it holds for every
/// buffer, width up to the register width, and chunk count.
pub proof fn lemma_chunk_round_trip(buf: Seq<u8>, w: int, n: int)
    requires
        0 < w <= 4,
        0 <= n,
        buf.len() == n * w,
    ensures
        spec_reassembled(spec_samples(buf, w, n), w) == buf,
{
    let vals = spec_samples(buf, w, n);
    let out = spec_reassembled(vals, w);
    assert(vals.len() == n);
    assert(out.len() == n * w);
    lemma_auto_spec_u32_to_from_le_bytes();
    assert forall|j: int| 0 <= j < n * w implies out[j] == buf[j] by {
        let q = j / w;
        let rem = j % w;
        assert(0 <= rem < w && j == q * w + rem && 0 <= q < n) by (nonlinear_arith)
            requires
                0 < w,
                0 <= j < n * w,
                q == j / w,
                rem == j % w,
        ;
        let chunk = spec_chunk_at(buf, w, q);
        assert((q + 1) * w <= n * w) by (nonlinear_arith)
            requires
                q + 1 <= n,
                w >= 1,
        ;
        assert(0 <= q * w && q * w + w == (q + 1) * w) by (nonlinear_arith)
            requires
                0 <= q,
                0 < w,
        ;
        assert(chunk.len() == w);
        assert(pad_to_register(chunk).len() == 4);
        assert(vals[q] == spec_u32_from_le_bytes(pad_to_register(chunk)));
        assert(spec_u32_to_le_bytes(vals[q]) == pad_to_register(chunk));
        assert(out[j] == pad_to_register(chunk)[rem]);
        assert(pad_to_register(chunk)[rem] == chunk[rem]);
        assert(chunk[rem] == buf[q * w + rem]);
    }
    assert(out =~= buf);
}

} // verus!
