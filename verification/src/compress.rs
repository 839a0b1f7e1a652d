//! The entropy-compression half of the chunk pipeline: encodings are wrapped
//! in one zstd frame at a fixed level, and reads reverse it. The compressor
//! and its level are part of the on-disk contract.
use vstd::prelude::*;

use crate::blocks::BlockDataInfo;
use crate::chunk_data::{sections_wf, ChunkData};
use crate::codec::{lemma_decode_encode_chunk, spec_decode_chunk, spec_encode_chunk};

verus! {

/// Compression level of the on-disk pipeline; part of the on-disk contract.
pub const COMPRESSION_LEVEL: i32 = 7;

/// The zstd frame that compressing `data` at `level` produces. The frame
/// depends on the input bytes and the level alone.
pub uninterp spec fn zstd_frame(data: Seq<u8>, level: int) -> Seq<u8>;

/// Relies on `zstd::encode_all`: compresses the bytes into a single zstd
/// frame, a function of the input bytes and the level alone.
#[verifier::external_body]
pub(crate) fn zstd_compress(data: &Vec<u8>, level: i32) -> (r: Vec<u8>)
    ensures
        r@ == zstd_frame(data@, level as int),
{
    zstd::encode_all(data.as_slice(), level).expect("zstd compression failed")
}

/// Relies on `zstd::decode_all`: zstd compression is lossless, so a frame
/// produced by compressing some bytes decompresses to exactly those bytes.
/// Of any other input nothing is promised beyond an `Ok` or an `Err`.
#[verifier::external_body]
pub(crate) fn zstd_decompress(data: &Vec<u8>) -> (r: Result<Vec<u8>, String>)
    ensures
        forall|orig: Seq<u8>, level: int|
            data@ == zstd_frame(orig, level) ==> r is Ok && r->Ok_0@ == orig,
{
    match zstd::decode_all(data.as_slice()) {
        Ok(v) => Ok(v),
        Err(e) => Err(format!("Decompress error: {}", e)),
    }
}

/// `data` is the compressed form of the chunk model `ss`.
pub open spec fn is_compressed_chunk(data: Seq<u8>, ss: Seq<Seq<Option<BlockDataInfo>>>) -> bool {
    sections_wf(ss) && data == zstd_frame(spec_encode_chunk(ss), COMPRESSION_LEVEL as int)
}

impl ChunkData {
    /// Encodes the chunk, then compresses the encoding at the fixed level.
    pub fn compress(&self) -> (r: Vec<u8>)
        requires
            self.wf(),
        ensures
            is_compressed_chunk(r@, self.sections()),
    {
        let encoded = self.encode();
        zstd_compress(&encoded, COMPRESSION_LEVEL)
    }

    /// Decompresses, then decodes. Round-trip law: whenever `data` is the
    /// compressed form of a well-formed chunk, the result is `Ok` and holds
    /// exactly that chunk's sections.
    pub fn decompress(data: Vec<u8>) -> (r: Result<Self, String>)
        ensures
            forall|ss: Seq<Seq<Option<BlockDataInfo>>>|
                is_compressed_chunk(data@, ss) ==> r is Ok && r->Ok_0.sections() == ss,
            r matches Ok(c) ==> c.wf(),
    {
        let raw = match zstd_decompress(&data) {
            Ok(v) => v,
            Err(e) => {
                return Err(e);
            },
        };
        match Self::decode(raw) {
            Ok(chunk) => {
                proof {
                    assert forall|ss: Seq<Seq<Option<BlockDataInfo>>>|
                        is_compressed_chunk(data@, ss) implies chunk.sections() == ss by {
                        lemma_decode_encode_chunk(ss);
                    };
                }
                Ok(chunk)
            },
            Err(e) => {
                proof {
                    assert forall|ss: Seq<Seq<Option<BlockDataInfo>>>|
                        is_compressed_chunk(data@, ss) implies false by {
                        lemma_decode_encode_chunk(ss);
                    };
                }
                Err(e)
            },
        }
    }
}

} // verus!
