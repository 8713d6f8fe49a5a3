//! The binary container format, byte-exact and little-endian throughout:
//!
//! ```text
//! offset  size   field
//! 0       1      extension length E (0..255)
//! 1       E      extension bytes
//! 1+E     8      chunk width W (u64)
//! 9+E     8      chunk count N (u64)
//! 17+E    8*N    coefficients, 8 bytes each
//! ```
//!
//! Coefficients pass through this module as opaque 8-byte groups (their
//! 64-bit patterns): the container neither inspects nor interprets them.

use vstd::prelude::*;
use vstd::bytes::*;
use vstd::slice::*;
use crate::errors::CbfError;

verus! {

/// The header bytes for an extension, a chunk width and a chunk count:
/// one length byte, the extension, then the two 8-byte fields.
pub open spec fn spec_header(ext: Seq<u8>, width: u64, count: u64) -> Seq<u8>
    recommends
        ext.len() <= 255,
{
    seq![ext.len() as u8] + ext + spec_u64_to_le_bytes(width) + spec_u64_to_le_bytes(count)
}

/// The byte run persisting a coefficient sequence: each 64-bit pattern as
/// 8 little-endian bytes, in order.
pub open spec fn spec_coefficient_bytes(coeffs: Seq<u64>) -> Seq<u8> {
    Seq::new((coeffs.len() * 8) as nat, |j: int| spec_u64_to_le_bytes(coeffs[j / 8])[j % 8])
}

/// The coefficient sequence read back from a byte run of 8-byte groups.
pub open spec fn spec_coefficients_of(s: Seq<u8>) -> Seq<u64>
    recommends
        s.len() % 8 == 0,
{
    Seq::new((s.len() / 8) as nat, |i: int| spec_u64_from_le_bytes(s.subrange(8 * i, 8 * i + 8)))
}

/// Builds the container header.
///
/// Fails exactly when the extension does not fit the one-byte length
/// prefix; otherwise the result is byte for byte the header layout, of
/// length `17 + ext.len()`.
pub fn build_header(ext: &[u8], width: u64, count: u64) -> (r: Result<Vec<u8>, CbfError>)
    ensures
        ext@.len() <= 255 <==> r is Ok,
        r matches Ok(h) ==> h@ == spec_header(ext@, width, count) && h@.len() == 17 + ext@.len(),
        r matches Err(e) ==> e == CbfError::ExtensionTooLong,
{
    if ext.len() > 255 {
        return Err(CbfError::ExtensionTooLong);
    }
    let mut header: Vec<u8> = Vec::new();
    header.push(ext.len() as u8);
    let mut ext_bytes: Vec<u8> = slice_to_vec(ext);
    header.append(&mut ext_bytes);
    let mut width_bytes: Vec<u8> = u64_to_le_bytes(width);
    header.append(&mut width_bytes);
    let mut count_bytes: Vec<u8> = u64_to_le_bytes(count);
    header.append(&mut count_bytes);
    proof {
        assert(header@ =~= spec_header(ext@, width, count));
    }
    Ok(header)
}

/// Reads the container header back from the front of `input`.
///
/// Returns the extension bytes, the chunk width, the chunk count, and the
/// header's length — the offset at which the coefficient run begins.
/// Fails exactly when `input` ends inside the header.
pub fn parse_header(input: &[u8]) -> (r: Result<(Vec<u8>, u64, u64, usize), CbfError>)
    ensures
        (input@.len() >= 1 && input@.len() >= 17 + input@[0]) <==> r is Ok,
        r matches Ok(parts) ==> {
            let e = input@[0] as int;
            &&& parts.0@ == input@.subrange(1, 1 + e)
            &&& parts.1 == spec_u64_from_le_bytes(input@.subrange(1 + e, 9 + e))
            &&& parts.2 == spec_u64_from_le_bytes(input@.subrange(9 + e, 17 + e))
            &&& parts.3 == 17 + e
        },
        r matches Err(err) ==> err == CbfError::Truncated,
{
    if input.len() < 1 {
        return Err(CbfError::Truncated);
    }
    let ext_len = input[0] as usize;
    if input.len() < 17 + ext_len {
        return Err(CbfError::Truncated);
    }
    let ext: Vec<u8> = slice_to_vec(slice_subrange(input, 1, 1 + ext_len));
    let width = u64_from_le_bytes(slice_subrange(input, 1 + ext_len, 9 + ext_len));
    let count = u64_from_le_bytes(slice_subrange(input, 9 + ext_len, 17 + ext_len));
    Ok((ext, width, count, 17 + ext_len))
}

/// Serializes a coefficient sequence as its trailing byte run.
///
/// The length bound is a machine limit: the byte run must have a `usize`
/// length.
pub fn coefficients_to_bytes(coeffs: &Vec<u64>) -> (r: Vec<u8>)
    requires
        coeffs@.len() * 8 <= usize::MAX,
    ensures
        r@ == spec_coefficient_bytes(coeffs@),
        r@.len() == coeffs@.len() * 8,
{
    let mut out: Vec<u8> = Vec::new();
    let mut i: usize = 0;
    while i < coeffs.len()
        invariant
            i <= coeffs@.len(),
            coeffs@.len() * 8 <= usize::MAX,
            out@.len() == i * 8,
            forall|j: int|
                0 <= j < i * 8 ==> out@[j] == spec_u64_to_le_bytes(coeffs@[j / 8])[j % 8],
        decreases coeffs@.len() - i,
    {
        proof {
            assert((i + 1) * 8 <= coeffs@.len() * 8) by (nonlinear_arith)
                requires
                    i + 1 <= coeffs@.len(),
            ;
        }
        let bytes = u64_to_le_bytes(coeffs[i]);
        let mut k: usize = 0;
        while k < 8
            invariant
                k <= 8,
                i < coeffs@.len(),
                (i + 1) * 8 <= coeffs@.len() * 8 <= usize::MAX,
                bytes@.len() == 8,
                bytes@ == spec_u64_to_le_bytes(coeffs@[i as int]),
                out@.len() == i * 8 + k,
                forall|j: int|
                    0 <= j < i * 8 + k ==> out@[j] == spec_u64_to_le_bytes(coeffs@[j / 8])[j % 8],
            decreases 8 - k,
        {
            out.push(bytes[k]);
            proof {
                let j = i * 8 + k;
                assert(j / 8 == i && j % 8 == k) by (nonlinear_arith)
                    requires
                        0 <= k < 8,
                        0 <= i,
                        j == i * 8 + k,
                ;
            }
            k = k + 1;
        }
        i = i + 1;
    }
    proof {
        assert(out@ =~= spec_coefficient_bytes(coeffs@));
    }
    out
}

/// Extends a coefficient sequence to `count` entries by prefixing zero
/// patterns, so that a container carries one coefficient per chunk even
/// when the fit produced fewer; a sequence already long enough is returned
/// unchanged.
pub fn pad_coefficients(coeffs: &Vec<u64>, count: usize) -> (r: Vec<u64>)
    ensures
        coeffs@.len() >= count ==> r@ == coeffs@,
        coeffs@.len() < count ==> r@ == Seq::new((count - coeffs@.len()) as nat, |i: int| 0u64)
            + coeffs@,
        r@.len() == if coeffs@.len() >= count {
            coeffs@.len() as int
        } else {
            count as int
        },
{
    let mut out: Vec<u64> = Vec::new();
    if coeffs.len() < count {
        let pad = count - coeffs.len();
        let mut i: usize = 0;
        while i < pad
            invariant
                i <= pad,
                out@ == Seq::new(i as nat, |t: int| 0u64),
            decreases pad - i,
        {
            out.push(0u64);
            proof {
                assert(out@ =~= Seq::new((i + 1) as nat, |t: int| 0u64));
            }
            i = i + 1;
        }
    }
    let ghost prefix = out@;
    let mut i: usize = 0;
    while i < coeffs.len()
        invariant
            i <= coeffs@.len(),
            out@ == prefix + coeffs@.subrange(0, i as int),
        decreases coeffs@.len() - i,
    {
        out.push(coeffs[i]);
        proof {
            assert(out@ =~= prefix + coeffs@.subrange(0, i + 1));
        }
        i = i + 1;
    }
    proof {
        assert(coeffs@.subrange(0, coeffs@.len() as int) =~= coeffs@);
        if coeffs@.len() >= count {
            assert(out@ =~= coeffs@);
        }
    }
    out
}

/// Reads the trailing coefficient run of `input`, starting at `offset`, as
/// 8-byte groups until the input is exhausted.
///
/// Fails exactly when `offset` lies beyond the input or the run ends in
/// the middle of a coefficient.
pub fn parse_coefficients(input: &[u8], offset: usize) -> (r: Result<Vec<u64>, CbfError>)
    ensures
        (offset <= input@.len() && (input@.len() - offset) % 8 == 0) <==> r is Ok,
        r matches Ok(coeffs) ==> coeffs@ == spec_coefficients_of(input@.skip(offset as int)),
        r matches Err(e) ==> e == CbfError::Truncated,
{
    if offset > input.len() {
        return Err(CbfError::Truncated);
    }
    let remainder = input.len() - offset;
    if remainder % 8 != 0 {
        return Err(CbfError::Truncated);
    }
    let count = remainder / 8;
    let ghost tail = input@.skip(offset as int);
    let mut coeffs: Vec<u64> = Vec::new();
    let mut i: usize = 0;
    while i < count
        invariant
            i <= count,
            offset + count * 8 == input@.len(),
            input@.len() <= usize::MAX,
            tail == input@.skip(offset as int),
            tail.len() == count * 8,
            coeffs@.len() == i,
            forall|t: int|
                0 <= t < i ==> coeffs@[t] == spec_u64_from_le_bytes(
                    tail.subrange(8 * t, 8 * t + 8),
                ),
        decreases count - i,
    {
        proof {
            assert((i + 1) * 8 <= count * 8) by (nonlinear_arith)
                requires
                    i + 1 <= count,
            ;
        }
        let group = slice_subrange(input, offset + i * 8, offset + i * 8 + 8);
        proof {
            assert(group@ =~= tail.subrange(8 * (i as int), 8 * (i as int) + 8));
        }
        let value = u64_from_le_bytes(group);
        coeffs.push(value);
        i = i + 1;
    }
    proof {
        assert(count * 8 == tail.len());
        assert(coeffs@ =~= spec_coefficients_of(tail));
    }
    Ok(coeffs)
}

/// Header fidelity, read after write: parsing a container that starts with
/// the header written for an extension, a width and a count — whatever
/// follows it — yields back exactly those values, including a zero-length
/// extension.
pub proof fn lemma_header_round_trip(ext: Seq<u8>, width: u64, count: u64, tail: Seq<u8>)
    requires
        ext.len() <= 255,
    ensures
        ({
            let s = spec_header(ext, width, count) + tail;
            &&& s.len() >= 17 + ext.len()
            &&& s[0] == ext.len() as u8
            &&& s.subrange(1, 1 + ext.len() as int) == ext
            &&& spec_u64_from_le_bytes(
                s.subrange(1 + ext.len() as int, 9 + ext.len() as int),
            ) == width
            &&& spec_u64_from_le_bytes(
                s.subrange(9 + ext.len() as int, 17 + ext.len() as int),
            ) == count
        }),
{
    let s = spec_header(ext, width, count) + tail;
    let e = ext.len() as int;
    lemma_auto_spec_u64_to_from_le_bytes();
    assert(s.subrange(1, 1 + e) =~= ext);
    assert(s.subrange(1 + e, 9 + e) =~= spec_u64_to_le_bytes(width));
    assert(s.subrange(9 + e, 17 + e) =~= spec_u64_to_le_bytes(count));
}

/// Coefficient fidelity, read after write: the coefficient run read back
/// from the bytes written for a coefficient sequence is that sequence.
pub proof fn lemma_coefficients_round_trip(coeffs: Seq<u64>)
    ensures
        spec_coefficients_of(spec_coefficient_bytes(coeffs)) == coeffs,
{
    let bytes = spec_coefficient_bytes(coeffs);
    lemma_auto_spec_u64_to_from_le_bytes();
    assert(bytes.len() == coeffs.len() * 8);
    assert(bytes.len() % 8 == 0) by (nonlinear_arith)
        requires
            bytes.len() == coeffs.len() * 8,
    ;
    let back = spec_coefficients_of(bytes);
    assert(back.len() == coeffs.len()) by (nonlinear_arith)
        requires
            back.len() == bytes.len() / 8,
            bytes.len() == coeffs.len() * 8,
    ;
    assert forall|i: int| 0 <= i < coeffs.len() implies back[i] == coeffs[i] by {
        assert(8 * i + 8 <= coeffs.len() * 8) by (nonlinear_arith)
            requires
                i + 1 <= coeffs.len(),
        ;
        let group = bytes.subrange(8 * i, 8 * i + 8);
        assert forall|k: int| 0 <= k < 8 implies group[k] == spec_u64_to_le_bytes(coeffs[i])[k] by {
            let j = 8 * i + k;
            assert(j / 8 == i && j % 8 == k) by (nonlinear_arith)
                requires
                    0 <= k < 8,
                    0 <= i,
                    j == 8 * i + k,
            ;
        }
        assert(group =~= spec_u64_to_le_bytes(coeffs[i]));
        assert(spec_u64_from_le_bytes(spec_u64_to_le_bytes(coeffs[i])) == coeffs[i]);
    }
    assert(back =~= coeffs);
}

} // verus!
