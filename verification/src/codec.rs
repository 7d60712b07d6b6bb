//! The stored form of file content: a sequence of compressed chunks, each
//! preceded by a four-byte header.
//!
//! ```text
//! 0x78 0xDA  HI  LO   <compressed bytes>
//! ```
//!
//! `HI * 256 + LO` is the number of compressed bytes that follow. The content
//! is cut into chunks of [`CHUNK_SIZE`] bytes before compression; the last
//! chunk may be shorter.

use vstd::prelude::*;
use crate::bytes::{append_bytes, bytes_eq};

verus! {

/// Number of content bytes that go into one chunk.
pub const CHUNK_SIZE: usize = 16384;

/// Largest number of compressed bytes that a chunk header can announce.
pub const MAX_COMPRESSED: usize = 65535;

/// Compression level handed to the compressor.
pub const COMPRESSION_LEVEL: u8 = 8;

/// First byte of a chunk header.
pub const CHUNK_MAGIC_0: u8 = 0x78;

/// Second byte of a chunk header.
pub const CHUNK_MAGIC_1: u8 = 0xda;

/// Why stored content cannot be written or read back.
#[derive(Clone, Copy, Debug, PartialEq, Eq, Structural)]
pub enum ChunkFault {
    /// A chunk does not start with the two magic bytes.
    MagicMismatch,
    /// A header is cut short, or announces more bytes than are left.
    BrokenChunk,
    /// The compressed bytes of a chunk do not decompress, or not to the chunk.
    DecodeFailed,
    /// A chunk compresses to more bytes than a header can announce.
    ChunkTooLarge,
}

/// `miniz_oxide::inflate::DecompressError`: the error of the decompressor,
/// passed on unread.
#[verifier::external_type_specification]
#[verifier::external_body]
pub struct ExDecompressError(miniz_oxide::inflate::DecompressError);

/// What `miniz_oxide::deflate::compress_to_vec` returns for `data` at `level`.
pub uninterp spec fn deflate_bytes(data: Seq<u8>, level: u8) -> Seq<u8>;

/// What `miniz_oxide::inflate::decompress_to_vec` recovers from `data`, or
/// `None` where it reports an error.
pub uninterp spec fn inflate_bytes(data: Seq<u8>) -> Option<Seq<u8>>;

/// `miniz_oxide::deflate::compress_to_vec`: the result is the raw DEFLATE
/// stream of `data`, a function of the data and the level. Nothing else is
/// claimed of it.
#[verifier::external_body]
fn deflate(data: &[u8], level: u8) -> (out: Vec<u8>)
    ensures
        out@ == deflate_bytes(data@, level),
{
    miniz_oxide::deflate::compress_to_vec(data, level)
}

/// `miniz_oxide::inflate::decompress_to_vec`: the decompressed bytes, or the
/// library's error where `data` is no complete DEFLATE stream.
#[verifier::external_body]
fn inflate(data: &[u8]) -> (out: Result<Vec<u8>, miniz_oxide::inflate::DecompressError>)
    ensures
        match out {
            Ok(bytes) => inflate_bytes(data@) == Some(bytes@),
            Err(_) => inflate_bytes(data@) is None,
        },
{
    miniz_oxide::inflate::decompress_to_vec(data)
}

/// Length of the first chunk of `content`.
pub open spec fn first_chunk_len(content: Seq<u8>) -> int {
    if content.len() < CHUNK_SIZE {
        content.len() as int
    } else {
        CHUNK_SIZE as int
    }
}

/// The four header bytes that announce `len` compressed bytes.
pub open spec fn chunk_header(len: int) -> Seq<u8> {
    seq![CHUNK_MAGIC_0, CHUNK_MAGIC_1, (len / 256) as u8, (len % 256) as u8]
}

/// One chunk as stored: header, then the compressed bytes.
pub open spec fn stored_chunk(chunk: Seq<u8>) -> Seq<u8> {
    let body = deflate_bytes(chunk, COMPRESSION_LEVEL);
    chunk_header(body.len() as int) + body
}

/// Why a chunk cannot be stored, if it cannot: it compresses to more bytes
/// than a header can announce, or what it compresses to does not decompress
/// to the chunk.
pub open spec fn chunk_fault(chunk: Seq<u8>) -> Option<ChunkFault> {
    let body = deflate_bytes(chunk, COMPRESSION_LEVEL);
    if body.len() > MAX_COMPRESSED {
        Some(ChunkFault::ChunkTooLarge)
    } else if inflate_bytes(body) != Some(chunk) {
        Some(ChunkFault::DecodeFailed)
    } else {
        None
    }
}

/// Why `content` cannot be stored, if it cannot: the fault of its first
/// chunk that has one.
pub open spec fn encoding_fault(content: Seq<u8>) -> Option<ChunkFault>
    decreases content.len(),
{
    if content.len() == 0 {
        None
    } else {
        let n = first_chunk_len(content);
        match chunk_fault(content.take(n)) {
            Some(fault) => Some(fault),
            None => encoding_fault(content.skip(n)),
        }
    }
}

/// `content` can be stored: every chunk of it fits its header and reads
/// back as it is.
pub open spec fn encodable(content: Seq<u8>) -> bool {
    encoding_fault(content) is None
}

/// The stored form of `content`: its chunks, each compressed and framed, in order.
pub open spec fn encoded_blob(content: Seq<u8>) -> Seq<u8>
    decreases content.len(),
{
    if content.len() == 0 {
        Seq::empty()
    } else {
        let n = first_chunk_len(content);
        stored_chunk(content.take(n)) + encoded_blob(content.skip(n))
    }
}

/// Number of compressed bytes that the header at the start of `stored` announces.
pub open spec fn announced_len(stored: Seq<u8>) -> int {
    stored[2] as int * 256 + stored[3] as int
}

/// Puts `chunk` in front of what the rest of a stream decodes to.
pub open spec fn prepend_chunk(chunk: Seq<u8>, rest: Result<Seq<u8>, ChunkFault>) -> Result<
    Seq<u8>,
    ChunkFault,
> {
    match rest {
        Ok(tail) => Ok(chunk + tail),
        Err(fault) => Err(fault),
    }
}

/// The content that a stored stream stands for, or the first fault met while
/// reading it front to back.
pub open spec fn decoded_blob(stored: Seq<u8>) -> Result<Seq<u8>, ChunkFault>
    decreases stored.len(),
{
    if stored.len() == 0 {
        Ok(Seq::empty())
    } else if stored.len() < 4 {
        Err(ChunkFault::BrokenChunk)
    } else if stored[0] != CHUNK_MAGIC_0 || stored[1] != CHUNK_MAGIC_1 {
        Err(ChunkFault::MagicMismatch)
    } else if stored.len() < 4 + announced_len(stored) {
        Err(ChunkFault::BrokenChunk)
    } else {
        let end = 4 + announced_len(stored);
        match inflate_bytes(stored.subrange(4, end)) {
            None => Err(ChunkFault::DecodeFailed),
            Some(chunk) => prepend_chunk(chunk, decoded_blob(stored.skip(end))),
        }
    }
}

/// A stream that starts with a well-formed chunk decodes to that chunk's
/// content followed by what the rest decodes to.
pub proof fn lemma_decode_chunk(body: Seq<u8>, chunk: Seq<u8>, rest: Seq<u8>)
    requires
        body.len() <= MAX_COMPRESSED,
        inflate_bytes(body) == Some(chunk),
    ensures
        decoded_blob(chunk_header(body.len() as int) + body + rest) == prepend_chunk(
            chunk,
            decoded_blob(rest),
        ),
{
    let stored = chunk_header(body.len() as int) + body + rest;
    let len = body.len() as int;
    assert(stored[0] == CHUNK_MAGIC_0 && stored[1] == CHUNK_MAGIC_1);
    assert(stored[2] == (len / 256) as u8 && stored[3] == (len % 256) as u8);
    assert(announced_len(stored) == len);
    assert(stored.subrange(4, 4 + len) =~= body);
    assert(stored.skip(4 + len) =~= rest);
}

/// Decoding the stored form of a content that can be stored gives the
/// content back.
pub proof fn lemma_decode_encoded(content: Seq<u8>)
    requires
        encodable(content),
    ensures
        decoded_blob(encoded_blob(content)) == Ok::<Seq<u8>, ChunkFault>(content),
    decreases content.len(),
{
    if content.len() > 0 {
        let n = first_chunk_len(content);
        let chunk = content.take(n);
        let body = deflate_bytes(chunk, COMPRESSION_LEVEL);
        let rest = encoded_blob(content.skip(n));
        lemma_decode_encoded(content.skip(n));
        lemma_decode_chunk(body, chunk, rest);
        assert(encoded_blob(content) =~= chunk_header(body.len() as int) + body + rest);
        assert(chunk + content.skip(n) =~= content);
    } else {
        assert(content =~= Seq::<u8>::empty());
    }
}

/// Compresses `content` into its stored form, chunk by chunk. Each
/// compressed chunk is read back before it is kept.
///
/// Fails with the fault of the first chunk that has one: a chunk that
/// compresses to more bytes than its header can announce is too large, and
/// one that does not read back as it is has failed to decode. On success the
/// result decodes back to `content`.
pub fn compress_blob(content: &[u8]) -> (r: Result<Vec<u8>, ChunkFault>)
    ensures
        match r {
            Ok(stored) => {
                &&& encodable(content@)
                &&& stored@ == encoded_blob(content@)
                &&& decoded_blob(stored@) == Ok::<Seq<u8>, ChunkFault>(content@)
            },
            Err(fault) => encoding_fault(content@) == Some(fault),
        },
{
    let mut stored: Vec<u8> = Vec::new();
    let mut pos: usize = 0;
    assert(content@.skip(0) =~= content@);
    while pos < content.len()
        invariant
            pos <= content@.len(),
            encoded_blob(content@) == stored@ + encoded_blob(content@.skip(pos as int)),
            encoding_fault(content@) == encoding_fault(content@.skip(pos as int)),
        decreases content@.len() - pos,
    {
        let ghost rest = content@.skip(pos as int);
        let left = content.len() - pos;
        let n = if left < CHUNK_SIZE { left } else { CHUNK_SIZE };
        let chunk = vstd::slice::slice_subrange(content, pos, pos + n);
        assert(chunk@ =~= rest.take(n as int));
        assert(rest.skip(n as int) =~= content@.skip(pos + n));
        let body = deflate(chunk, COMPRESSION_LEVEL);
        if body.len() > MAX_COMPRESSED {
            return Err(ChunkFault::ChunkTooLarge);
        }
        let reads_back = match inflate(body.as_slice()) {
            Ok(back) => bytes_eq(back.as_slice(), chunk),
            Err(_) => false,
        };
        if !reads_back {
            return Err(ChunkFault::DecodeFailed);
        }
        let len = body.len();
        stored.push(CHUNK_MAGIC_0);
        stored.push(CHUNK_MAGIC_1);
        stored.push((len / 256) as u8);
        stored.push((len % 256) as u8);
        let ghost framed = stored@;
        append_bytes(&mut stored, body.as_slice());
        assert(encoded_blob(content@) =~= stored@ + encoded_blob(content@.skip(pos + n))) by {
            assert(framed =~= framed.take(framed.len() - 4) + chunk_header(len as int));
            assert(stored_chunk(chunk@) == chunk_header(len as int) + body@);
        }
        pos = pos + n;
    }
    proof {
        assert(encoded_blob(content@.skip(pos as int)) =~= Seq::<u8>::empty());
        assert(stored@ + Seq::<u8>::empty() =~= stored@);
        lemma_decode_encoded(content@);
    }
    Ok(stored)
}

/// Reads stored content back: checks each header, decompresses each chunk
/// and joins the results. Returns the first fault met, front to back.
pub fn decompress_blob(stored: &[u8]) -> (r: Result<Vec<u8>, ChunkFault>)
    ensures
        match r {
            Ok(content) => decoded_blob(stored@) == Ok::<Seq<u8>, ChunkFault>(content@),
            Err(fault) => decoded_blob(stored@) == Err::<Seq<u8>, ChunkFault>(fault),
        },
{
    let mut content: Vec<u8> = Vec::new();
    let mut pos: usize = 0;
    assert(stored@.skip(0) =~= stored@);
    assert(prepend_chunk(content@, decoded_blob(stored@)) == decoded_blob(stored@)) by {
        match decoded_blob(stored@) {
            Ok(tail) => assert(content@ + tail =~= tail),
            Err(_) => {},
        }
    }
    while pos < stored.len()
        invariant
            pos <= stored@.len(),
            decoded_blob(stored@) == prepend_chunk(
                content@,
                decoded_blob(stored@.skip(pos as int)),
            ),
        decreases stored@.len() - pos,
    {
        let ghost rest = stored@.skip(pos as int);
        let left = stored.len() - pos;
        if left < 4 {
            return Err(ChunkFault::BrokenChunk);
        }
        if stored[pos] != CHUNK_MAGIC_0 || stored[pos + 1] != CHUNK_MAGIC_1 {
            return Err(ChunkFault::MagicMismatch);
        }
        let hi: usize = stored[pos + 2] as usize;
        let lo: usize = stored[pos + 3] as usize;
        let size: usize = hi * 256 + lo;
        assert(size == announced_len(rest));
        if left - 4 < size {
            return Err(ChunkFault::BrokenChunk);
        }
        let body = vstd::slice::slice_subrange(stored, pos + 4, pos + 4 + size);
        assert(body@ =~= rest.subrange(4, 4 + size));
        assert(rest.skip(4 + size) =~= stored@.skip(pos + 4 + size));
        match inflate(body) {
            Err(_) => {
                return Err(ChunkFault::DecodeFailed);
            },
            Ok(chunk) => {
                let ghost before = content@;
                append_bytes(&mut content, chunk.as_slice());
                proof {
                    match decoded_blob(stored@.skip(pos + 4 + size)) {
                        Ok(tail) => assert(before + (chunk@ + tail) =~= content@ + tail),
                        Err(_) => {},
                    }
                }
            },
        }
        pos = pos + 4 + size;
    }
    assert(content@ + Seq::<u8>::empty() =~= content@);
    Ok(content)
}

} // verus!
