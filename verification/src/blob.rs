//! Blob artifact framing: a big-endian length header followed by one LZ4
//! block holding the oversized value.

use vstd::prelude::*;

use crate::constants::MAX_BLOB_VALUE_SIZE;

verus! {

/// The LZ4 block the compressor produces for the given input at the default
/// acceleration level.
pub uninterp spec fn lz4_compress_of(v: Seq<u8>) -> Seq<u8>;

/// The error type of the LZ4 library.
#[verifier::external_type_specification]
#[verifier::external_body]
pub struct ExLz4Error(lzzzz::Error);

/// Relies on `lzzzz::lz4::compress_to_vec` at `ACC_LEVEL_DEFAULT`: appends
/// one LZ4 block for `src` and returns its length. The block is built in a
/// fresh buffer sized by `max_compressed_size`, so the destination's spare
/// capacity cannot make the call fail, and a non-empty input within the LZ4
/// block limit always compresses. The empty input is excluded: the
/// compressor appends nothing for it, and no block of it exists. With a
/// fixed acceleration level and a fresh state the block depends on the
/// input alone for one build of the library; nothing in this crate carries
/// it across machines.
#[verifier::external_body]
fn lz4_compress_append(src: &[u8], dst: &mut Vec<u8>) -> (r: Result<usize, lzzzz::Error>)
    requires
        0 < src@.len() <= MAX_BLOB_VALUE_SIZE,
    ensures
        r is Ok,
        final(dst)@ == old(dst)@ + lz4_compress_of(src@),
        r->Ok_0 == lz4_compress_of(src@).len(),
{
    let mut block: Vec<u8> = Vec::new();
    match lzzzz::lz4::compress_to_vec(src, &mut block, lzzzz::lz4::ACC_LEVEL_DEFAULT) {
        Ok(n) => {
            dst.append(&mut block);
            Ok(n)
        },
        Err(e) => Err(e),
    }
}

/// Relies on `lzzzz::lz4::decompress`: decompresses an LZ4 block into a
/// buffer of the expected original length and reports the bytes written; a
/// block the compressor produced for non-empty data of that length, within
/// the LZ4 block limit, decompresses back to exactly that data. (Blocks of
/// the empty input and over-limit lengths are outside the claim: both fall
/// into the paths where liblz4 reports an error.)
#[verifier::external_body]
fn lz4_decompress_block(src: &[u8], original_len: usize) -> (r: Result<
    (Vec<u8>, usize),
    lzzzz::Error,
>)
    ensures
        r is Ok ==> r->Ok_0.0@.len() == original_len && r->Ok_0.1 <= original_len,
        forall|v: Seq<u8>|
            0 < v.len() <= MAX_BLOB_VALUE_SIZE && src@ == lz4_compress_of(v) && original_len
                == v.len() ==> r is Ok && r->Ok_0.1 == original_len && r->Ok_0.0@ == v,
{
    let mut dst = vec![0u8; original_len];
    match lzzzz::lz4::decompress(src, &mut dst) {
        Ok(n) => Ok((dst, n)),
        Err(e) => Err(e),
    }
}

/// The four big-endian bytes of a 32-bit length.
pub open spec fn u32_be_bytes(x: u32) -> Seq<u8> {
    seq![
        ((x >> 24) & 0xff) as u8,
        ((x >> 16) & 0xff) as u8,
        ((x >> 8) & 0xff) as u8,
        (x & 0xff) as u8,
    ]
}

/// The 32-bit value of four big-endian bytes.
pub open spec fn u32_from_be(b: Seq<u8>) -> u32
    recommends
        b.len() == 4,
{
    (((b[0] as u32) << 24) | ((b[1] as u32) << 16) | ((b[2] as u32) << 8) | (b[3] as u32)) as u32
}

/// Reassembling the four big-endian bytes of a length gives it back.
pub proof fn lemma_u32_be_round_trip(x: u32)
    ensures
        u32_from_be(u32_be_bytes(x)) == x,
{
    assert((((((x >> 24) & 0xff) as u8 as u32) << 24) | ((((x >> 16) & 0xff) as u8 as u32) << 16)
        | ((((x >> 8) & 0xff) as u8 as u32) << 8) | ((x & 0xff) as u8 as u32)) as u32 == x)
        by (bit_vector);
}

/// The full frame of a blob artifact: the value's length as four big-endian
/// bytes, then the LZ4 block for the value.
pub open spec fn blob_frame(v: Seq<u8>) -> Seq<u8> {
    u32_be_bytes(v.len() as u32) + lz4_compress_of(v)
}

/// Frames one non-empty oversized value as a blob artifact's bytes:
/// succeeds exactly on values within the LZ4 block limit, and fails as a
/// compression error beyond it.
pub fn encode_blob(value: &[u8]) -> (r: Result<Vec<u8>, crate::error::BatchError>)
    requires
        value@.len() > 0,
    ensures
        r is Ok <==> value@.len() <= MAX_BLOB_VALUE_SIZE,
        r is Ok ==> r->Ok_0@ == blob_frame(value@),
        r is Err ==> r->Err_0 == crate::error::BatchError::BlobCompress,
{
    if value.len() > MAX_BLOB_VALUE_SIZE {
        return Err(crate::error::BatchError::BlobCompress);
    }
    let len: u32 = value.len() as u32;
    let mut buf: Vec<u8> = Vec::new();
    buf.push(((len >> 24) & 0xff) as u8);
    buf.push(((len >> 16) & 0xff) as u8);
    buf.push(((len >> 8) & 0xff) as u8);
    buf.push((len & 0xff) as u8);
    proof {
        assert(buf@ =~= u32_be_bytes(len));
    }
    match lz4_compress_append(value, &mut buf) {
        Ok(_) => Ok(buf),
        Err(_) => Err(crate::error::BatchError::BlobCompress),
    }
}

/// Reads a blob artifact's bytes back: the leading big-endian length, then
/// the LZ4 block decoded to exactly that many bytes. Returns the decoded
/// value, or `None` when the bytes are not a well-formed frame.
pub fn decode_blob(data: &[u8]) -> (r: Option<Vec<u8>>)
    ensures
        r is Some ==> data@.len() >= 4 && r->Some_0@.len() == u32_from_be(
            data@.subrange(0, 4),
        ) as nat,
        forall|v: Seq<u8>|
            0 < v.len() <= MAX_BLOB_VALUE_SIZE && data@ == blob_frame(v) ==> r is Some
                && r->Some_0@ == v,
{
    if data.len() < 4 {
        proof {
            assert forall|v: Seq<u8>|
                0 < v.len() <= MAX_BLOB_VALUE_SIZE && data@ == blob_frame(v) implies false by {
                assert(blob_frame(v).len() >= 4);
            }
        }
        return None;
    }
    let b0 = *vstd::slice::slice_index_get(data, 0);
    let b1 = *vstd::slice::slice_index_get(data, 1);
    let b2 = *vstd::slice::slice_index_get(data, 2);
    let b3 = *vstd::slice::slice_index_get(data, 3);
    let n: u32 = ((b0 as u32) << 24) | ((b1 as u32) << 16) | ((b2 as u32) << 8) | (b3 as u32);
    proof {
        assert(n == u32_from_be(data@.subrange(0, 4)));
    }
    let original_len: usize = n as usize;
    let rest = vstd::slice::slice_subrange(data, 4, data.len());
    proof {
        assert forall|v: Seq<u8>|
            0 < v.len() <= MAX_BLOB_VALUE_SIZE && data@ == blob_frame(v) implies original_len
            == v.len() && rest@ == lz4_compress_of(v) by {
            assert(data@.subrange(0, 4) =~= u32_be_bytes(v.len() as u32));
            lemma_u32_be_round_trip(v.len() as u32);
            assert(rest@ =~= lz4_compress_of(v));
        }
    }
    match lz4_decompress_block(rest, original_len) {
        Ok((out, written)) => {
            if written == original_len {
                Some(out)
            } else {
                None
            }
        },
        Err(_) => None,
    }
}

/// Law: reading a well-formed blob frame, the leading big-endian length
/// equals the decoded length of the LZ4 block.
pub proof fn lemma_blob_frame_header(v: Seq<u8>)
    requires
        v.len() <= MAX_BLOB_VALUE_SIZE,
    ensures
        u32_from_be(blob_frame(v).subrange(0, 4)) == v.len() as u32,
        blob_frame(v).skip(4) == lz4_compress_of(v),
{
    assert(blob_frame(v).subrange(0, 4) =~= u32_be_bytes(v.len() as u32));
    lemma_u32_be_round_trip(v.len() as u32);
    assert(blob_frame(v).skip(4) =~= lz4_compress_of(v));
}

} // verus!
