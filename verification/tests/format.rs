//! Unit tests for the chunker, the container format and the error kinds.

use simple_cbf::chunker::{chunk_layout, chunk_to_sample, reassemble, samples_of};
use simple_cbf::container::{
    build_header, coefficients_to_bytes, pad_coefficients, parse_coefficients, parse_header,
};
use simple_cbf::{CbfError, SimpleCbF};

#[test]
fn layout_policy() {
    assert_eq!(chunk_layout(0).unwrap(), (1, 0));
    assert_eq!(chunk_layout(1).unwrap(), (1, 1));
    assert_eq!(chunk_layout(4).unwrap(), (1, 4));
    assert_eq!(chunk_layout(5).unwrap(), (2, 2));
    assert_eq!(chunk_layout(15).unwrap(), (4, 3));
    assert_eq!(chunk_layout(16).unwrap(), (4, 4));
    assert_eq!(chunk_layout(17).unwrap_err(), CbfError::ChunkTooWide);
    assert_eq!(chunk_layout(u64::MAX).unwrap_err(), CbfError::ChunkTooWide);
}

#[test]
fn samples_are_little_endian() {
    assert_eq!(chunk_to_sample(&[0x01]), 0x01);
    assert_eq!(chunk_to_sample(&[0x01, 0x02]), 0x0201);
    assert_eq!(chunk_to_sample(&[0x01, 0x02, 0x03]), 0x030201);
    assert_eq!(chunk_to_sample(&[0x01, 0x02, 0x03, 0x04]), 0x04030201);
    assert_eq!(
        samples_of(&[0x01, 0x02, 0x03, 0x04], 2, 2).unwrap(),
        vec![0x0201, 0x0403]
    );
}

#[test]
fn trailing_remainder_bytes_are_dropped() {
    // Width 2, count 1 over 3 bytes: the third byte is beyond the chunk
    // boundary and excluded by design.
    assert_eq!(samples_of(&[0x01, 0x02, 0xFF], 2, 1).unwrap(), vec![0x0201]);
}

#[test]
fn reassemble_inverts_sampling() {
    let buf = [5u8, 6, 7, 8, 9, 10];
    let samples = samples_of(&buf, 3, 2).unwrap();
    let back = reassemble(&samples, 3).unwrap();
    assert_eq!(back, buf.to_vec());
}

#[test]
fn reassemble_truncates_to_width() {
    // A value wider than the chunk keeps only its low bytes.
    assert_eq!(reassemble(&vec![0x0201], 1).unwrap(), vec![0x01]);
}

#[test]
fn zero_width_is_rejected() {
    assert_eq!(samples_of(&[1, 2], 0, 1).unwrap_err(), CbfError::InvalidChunkWidth);
    assert_eq!(reassemble(&vec![1], 0).unwrap_err(), CbfError::InvalidChunkWidth);
}

#[test]
fn overwide_chunks_are_rejected() {
    assert_eq!(samples_of(&[0u8; 10], 5, 2).unwrap_err(), CbfError::ChunkTooWide);
    assert_eq!(reassemble(&vec![1], 5).unwrap_err(), CbfError::ChunkTooWide);
}

#[test]
fn short_input_is_rejected() {
    let codec = SimpleCbF { chunksize: 2, no_chunks: 5, extension: None };
    assert_eq!(codec.encode_contents(&[0u8; 8]).unwrap_err(), CbfError::InputTooShort);
}

#[test]
fn header_layout_is_byte_exact() {
    let header = build_header(b"tar", 7, 9).unwrap();
    assert_eq!(header.len(), 20);
    assert_eq!(header[0], 3);
    assert_eq!(&header[1..4], b"tar");
    assert_eq!(u64::from_le_bytes(header[4..12].try_into().unwrap()), 7);
    assert_eq!(u64::from_le_bytes(header[12..20].try_into().unwrap()), 9);
}

#[test]
fn header_parses_back() {
    let mut bytes = build_header(b"tar", 7, 9).unwrap();
    bytes.extend([0u8; 16]); // a coefficient run behind the header
    let (ext, width, count, consumed) = parse_header(&bytes).unwrap();
    assert_eq!(ext, b"tar".to_vec());
    assert_eq!(width, 7);
    assert_eq!(count, 9);
    assert_eq!(consumed, 20);
}

#[test]
fn long_extension_is_rejected() {
    let ext = vec![b'a'; 256];
    assert_eq!(build_header(&ext, 1, 1).unwrap_err(), CbfError::ExtensionTooLong);
    let mut codec = SimpleCbF::new();
    codec.encode_metadata(4, &ext).unwrap();
    assert_eq!(codec.write_metadata().unwrap_err(), CbfError::ExtensionTooLong);
    let ext = vec![b'a'; 255];
    assert!(build_header(&ext, 1, 1).is_ok());
}

#[test]
fn metadata_before_extension_is_rejected() {
    let codec = SimpleCbF::new();
    assert_eq!(codec.write_metadata().unwrap_err(), CbfError::MissingExtension);
}

#[test]
fn truncated_header_is_rejected() {
    let mut codec = SimpleCbF::new();
    assert_eq!(codec.decode_metadata(&[]).unwrap_err(), CbfError::Truncated);
    assert_eq!(codec.decode_metadata(&[5, 1, 2]).unwrap_err(), CbfError::Truncated);
    // 17 bytes announce a 1-byte extension but stop one byte short.
    let short = [1u8; 17];
    assert_eq!(codec.decode_metadata(&short).unwrap_err(), CbfError::Truncated);
    // An error leaves the codec untouched.
    assert_eq!(codec.chunksize, 0);
    assert_eq!(codec.no_chunks, 0);
}

#[test]
fn coefficient_bytes_round_trip() {
    let coeffs = vec![0u64, 1, u64::MAX, 0x0123456789ABCDEF];
    let bytes = coefficients_to_bytes(&coeffs);
    assert_eq!(bytes.len(), 32);
    let back = parse_coefficients(&bytes, 0).unwrap();
    assert_eq!(back, coeffs);
}

#[test]
fn coefficient_offset_past_end_is_rejected() {
    assert_eq!(parse_coefficients(&[0u8; 8], 9).unwrap_err(), CbfError::Truncated);
}

#[test]
fn coefficient_padding_prefixes_zeros() {
    assert_eq!(pad_coefficients(&vec![7u64], 3), vec![0u64, 0, 7]);
    assert_eq!(pad_coefficients(&vec![7u64, 8], 2), vec![7u64, 8]);
    assert_eq!(pad_coefficients(&vec![7u64, 8], 1), vec![7u64, 8]);
    assert_eq!(pad_coefficients(&Vec::new(), 2), vec![0u64, 0]);
}

#[test]
fn decode_contents_reassembles() {
    let codec = SimpleCbF { chunksize: 2, no_chunks: 2, extension: None };
    let out = codec.decode_contents(&vec![0x0201, 0x0403]).unwrap();
    assert_eq!(out, vec![0x01, 0x02, 0x03, 0x04]);
}
