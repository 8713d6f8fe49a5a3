//! The codec facade: per-file metadata and the verified encode/decode
//! stages.
//!
//! Encode runs `encode_metadata → write_metadata → encode_contents`; the
//! caller then fits the interpolating polynomial through the samples and
//! serializes its coefficient patterns with
//! [`crate::container::coefficients_to_bytes`]. Decode runs
//! `decode_metadata → crate::container::parse_coefficients`; the caller
//! evaluates the polynomial at every node `0..no_chunks` and hands the
//! rounded values to `decode_contents` for byte reassembly.

use vstd::prelude::*;
use vstd::bytes::*;
use vstd::slice::slice_to_vec;
use crate::chunker;
use crate::container;
use crate::errors::CbfError;

verus! {

/// One encode or decode in flight: the chunk geometry and the extension
/// recorded for the file being processed.
pub struct SimpleCbF {
    /// Bytes per chunk.
    pub chunksize: usize,
    /// Number of chunks.
    pub no_chunks: usize,
    /// Extension of the original file, as raw bytes, once known.
    pub extension: Option<Vec<u8>>,
}

impl SimpleCbF {
    /// The recorded extension bytes, as a sequence.
    pub open spec fn ext_view(&self) -> Option<Seq<u8>> {
        match self.extension {
            Some(v) => Some(v@),
            None => None,
        }
    }

    /// A fresh codec with no metadata recorded yet.
    pub fn new() -> (r: Self)
        ensures
            r.chunksize == 0,
            r.no_chunks == 0,
            r.extension is None,
    {
        Self { chunksize: 0, no_chunks: 0, extension: None }
    }

    /// Chooses the chunk layout for a file of `filesize` bytes and records
    /// it together with the file's extension.
    ///
    /// Fails, leaving the codec untouched, exactly when the layout policy
    /// would pick a chunk wider than the register — that is, when the file
    /// exceeds four registers.
    pub fn encode_metadata(&mut self, filesize: u64, ext: &[u8]) -> (r: Result<(), CbfError>)
        ensures
            filesize <= 4 * chunker::REGISTER_WIDTH <==> r is Ok,
            r is Ok ==> final(self).chunksize == chunker::spec_chunk_width(filesize)
                && final(self).no_chunks == chunker::spec_chunk_count(filesize)
                && final(self).ext_view() == Some(ext@),
            r matches Err(e) ==> e == CbfError::ChunkTooWide && *final(self) == *old(self),
    {
        match chunker::chunk_layout(filesize) {
            Ok((width, count)) => {
                self.chunksize = width as usize;
                self.no_chunks = count as usize;
                self.extension = Some(slice_to_vec(ext));
                Ok(())
            },
            Err(e) => Err(e),
        }
    }

    /// The container header for the recorded metadata.
    ///
    /// Fails exactly when no extension has been recorded or the recorded
    /// extension does not fit the one-byte length prefix; otherwise the
    /// result is byte for byte the header layout.
    pub fn write_metadata(&self) -> (r: Result<Vec<u8>, CbfError>)
        ensures
            (self.extension matches Some(v) && v@.len() <= 255) <==> r is Ok,
            r matches Ok(h) ==> h@ == container::spec_header(
                self.ext_view()->Some_0,
                self.chunksize as u64,
                self.no_chunks as u64,
            ),
            r matches Err(e) ==> (if self.extension is None {
                e == CbfError::MissingExtension
            } else {
                e == CbfError::ExtensionTooLong
            }),
    {
        match &self.extension {
            None => Err(CbfError::MissingExtension),
            Some(ext) => container::build_header(
                ext.as_slice(),
                self.chunksize as u64,
                self.no_chunks as u64,
            ),
        }
    }

    /// The sample set of `input` under the recorded chunk layout: the
    /// value of chunk `i` at node `i`, for the dense nodes
    /// `0..no_chunks`. The caller interpolates through these samples.
    ///
    /// Fails exactly when the recorded width is zero or beyond the
    /// register width, or `input` is shorter than the layout requires.
    pub fn encode_contents(&self, input: &[u8]) -> (r: Result<Vec<u32>, CbfError>)
        ensures
            (0 < self.chunksize <= 4 && self.no_chunks * self.chunksize <= input@.len()) <==> r
                is Ok,
            r matches Ok(samples) ==> samples@ == chunker::spec_samples(
                input@,
                self.chunksize as int,
                self.no_chunks as int,
            ) && samples@.len() == self.no_chunks,
            r matches Err(e) ==> (if self.chunksize < 1 {
                e == CbfError::InvalidChunkWidth
            } else if self.chunksize > 4 {
                e == CbfError::ChunkTooWide
            } else {
                e == CbfError::InputTooShort
            }),
    {
        chunker::samples_of(input, self.chunksize, self.no_chunks)
    }

    /// Reads the container header from the front of `input` and records
    /// its metadata, returning the offset at which the coefficient run
    /// begins.
    ///
    /// Fails, leaving the codec untouched, exactly when `input` ends
    /// inside the header or a geometry field does not fit this platform's
    /// `usize`.
    pub fn decode_metadata(&mut self, input: &[u8]) -> (r: Result<usize, CbfError>)
        ensures
            ({
                let e = input@[0] as int;
                &&& input@.len() >= 1
                &&& input@.len() >= 17 + e
                &&& spec_u64_from_le_bytes(input@.subrange(1 + e, 9 + e)) <= usize::MAX
                &&& spec_u64_from_le_bytes(input@.subrange(9 + e, 17 + e)) <= usize::MAX
            }) <==> r is Ok,
            r matches Ok(consumed) ==> ({
                let e = input@[0] as int;
                &&& consumed == 17 + e
                &&& final(self).ext_view() == Some(input@.subrange(1, 1 + e))
                &&& final(self).chunksize == spec_u64_from_le_bytes(input@.subrange(1 + e, 9 + e))
                &&& final(self).no_chunks == spec_u64_from_le_bytes(input@.subrange(9 + e, 17 + e))
            }),
            r matches Err(err) ==> *final(self) == *old(self) && (if input@.len() < 1 || input@.len() < 17
                + input@[0] {
                err == CbfError::Truncated
            } else {
                err == CbfError::ValueTooLarge
            }),
    {
        match container::parse_header(input) {
            Err(e) => Err(e),
            Ok((ext, width, count, consumed)) => {
                if width > usize::MAX as u64 {
                    return Err(CbfError::ValueTooLarge);
                }
                if count > usize::MAX as u64 {
                    return Err(CbfError::ValueTooLarge);
                }
                self.chunksize = width as usize;
                self.no_chunks = count as usize;
                self.extension = Some(ext);
                Ok(consumed)
            },
        }
    }

    /// Rebuilds the decoded byte stream from one rounded value per node:
    /// the low `chunksize` bytes of each value's little-endian form, in
    /// node order — a stream of exactly `chunksize * no_chunks` bytes.
    ///
    /// Fails exactly when the recorded width is zero or beyond the
    /// register width, or the stream's length would not fit a `usize`.
    pub fn decode_contents(&self, values: &Vec<u32>) -> (r: Result<Vec<u8>, CbfError>)
        requires
            values@.len() == self.no_chunks,
        ensures
            (0 < self.chunksize <= 4 && self.no_chunks * self.chunksize <= usize::MAX) <==> r
                is Ok,
            r matches Ok(out) ==> out@ == chunker::spec_reassembled(
                values@,
                self.chunksize as int,
            ) && out@.len() == self.no_chunks * self.chunksize,
            r matches Err(e) ==> (if self.chunksize < 1 {
                e == CbfError::InvalidChunkWidth
            } else if self.chunksize > 4 {
                e == CbfError::ChunkTooWide
            } else {
                e == CbfError::ValueTooLarge
            }),
    {
        chunker::reassemble(values, self.chunksize)
    }
}

/// Round trip of the codec under its own layout policy: for any buffer an
/// encode accepts, sampling under the chosen chunk layout and reassembling
/// those samples gives back exactly the encoded prefix of the buffer — the
/// first `chunk_count * chunk_width` bytes, the remainder beyond the last
/// chunk boundary being dropped by design. A buffer whose length is an
/// exact multiple of the chunk width round-trips in full.
///
/// The numeric stage sits between the two halves: the result reaches the
/// decoder only if fitting and re-evaluating the polynomial reproduces the
/// sample values, which exact arithmetic guarantees and floating point
/// approximates.
pub proof fn lemma_codec_round_trip(buf: Seq<u8>, len: u64)
    requires
        buf.len() == len,
        len <= 4 * chunker::REGISTER_WIDTH,
    ensures
        ({
            let w = chunker::spec_chunk_width(len);
            let n = chunker::spec_chunk_count(len);
            &&& 0 < w <= 4
            &&& 0 <= n * w <= len
            &&& chunker::spec_reassembled(chunker::spec_samples(buf, w, n), w) == buf.take(n * w)
            &&& len % w as u64 == 0 ==> chunker::spec_reassembled(
                chunker::spec_samples(buf, w, n),
                w,
            ) == buf
        }),
{
    let w = chunker::spec_chunk_width(len);
    let n = chunker::spec_chunk_count(len);
    vstd::arithmetic::div_mod::lemma_fundamental_div_mod(len as int, w);
    vstd::arithmetic::div_mod::lemma_mod_bound(len as int, w);
    assert(len == w * n + len as int % w);
    assert(0 <= n * w <= len) by (nonlinear_arith)
        requires
            len == w * n + len as int % w,
            0 <= len as int % w < w,
            0 < w,
            0 <= n,
    ;
    let prefix = buf.take(n * w);
    assert forall|i: int| 0 <= i < n implies chunker::spec_samples(buf, w, n)[i]
        == chunker::spec_samples(prefix, w, n)[i] by {
        assert(0 <= i * w && (i + 1) * w <= n * w && i * w + w == (i + 1) * w)
            by (nonlinear_arith)
            requires
                0 <= i,
                i + 1 <= n,
                0 < w,
        ;
        assert(chunker::spec_chunk_at(buf, w, i) =~= chunker::spec_chunk_at(prefix, w, i));
    }
    assert(chunker::spec_samples(buf, w, n) =~= chunker::spec_samples(prefix, w, n));
    chunker::lemma_chunk_round_trip(prefix, w, n);
    if len % w as u64 == 0 {
        assert(len as int % w == 0) by {
            assert(w <= 4);
        }
        assert(n * w == len);
        assert(prefix =~= buf);
    }
}

/// Determinism of encoding: every stage of the encode pipeline is a
/// function of its input values alone, so equal buffers, extensions and
/// fitted coefficient patterns yield byte-identical containers — the same
/// sample set, and the same header and coefficient bytes.
pub proof fn lemma_encode_deterministic(
    buf1: Seq<u8>,
    ext1: Seq<u8>,
    coeffs1: Seq<u64>,
    buf2: Seq<u8>,
    ext2: Seq<u8>,
    coeffs2: Seq<u64>,
)
    requires
        buf1 == buf2,
        ext1 == ext2,
        coeffs1 == coeffs2,
        buf1.len() <= u64::MAX,
    ensures
        ({
            let w = chunker::spec_chunk_width(buf1.len() as u64);
            let n = chunker::spec_chunk_count(buf1.len() as u64);
            chunker::spec_samples(buf1, w, n) == chunker::spec_samples(buf2, w, n)
        }),
        ({
            let w = chunker::spec_chunk_width(buf1.len() as u64);
            let n = chunker::spec_chunk_count(buf1.len() as u64);
            container::spec_header(ext1, w as u64, n as u64) + container::spec_coefficient_bytes(
                coeffs1,
            ) == container::spec_header(ext2, w as u64, n as u64)
                + container::spec_coefficient_bytes(coeffs2)
        }),
{
}

} // verus!
