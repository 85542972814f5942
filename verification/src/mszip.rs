//! The MSZIP block codec: deflate with a per-block `CK` signature and a
//! dictionary carried across the blocks of a folder.
//!
//! A compressor drives one deflate stream over the blocks in order; a
//! non-final block's stream is Sync-flushed and closed with an empty stored
//! block so the concatenation stays parseable, and a block that deflate
//! would expand past `len + 7` bytes is emitted as a stored block instead.
//! A decompressor resets its engine per block and re-seeds it with the last
//! 0x8000 bytes of prior output fed through a synthetic stored block.

use vstd::prelude::*;

use crate::bytes::push_u16_le;
use crate::deflate::{
    block_terminator, deflate_result, dict_feed_ok, final_stored_chunk, mszip_payload_result,
    spec_dict_accepted, stored_chunk, window_of, Deflater, Inflater,
};
use crate::error::CabError;

verus! {

/// The two signature bytes that open every MSZIP block: "CK".
pub open spec fn mszip_signature() -> Seq<u8> {
    seq![0x43u8, 0x4bu8]
}

/// The exact bytes the compressor emits for the block `data` where the
/// deflate engine produced the stream `c`: the signature and the stream,
/// closed with the empty-stored-block terminator when non-final -- unless
/// that would exceed `data.len() + 7` bytes, in which case the signature
/// and a final stored block holding `data` itself.
pub open spec fn spec_mszip_framing(c: Seq<u8>, data: Seq<u8>, last: bool) -> Seq<u8> {
    if 2 + c.len() + block_terminator(last).len() > data.len() + 7 {
        mszip_signature() + final_stored_chunk(data)
    } else {
        mszip_signature() + c + block_terminator(last)
    }
}

/// `out` is a sound MSZIP framing of the block `data`, emitted after the
/// blocks `past`: it opens with the `CK` signature, takes at most
/// `data.len() + 7` bytes, and an inflate engine seeded with the window of
/// `past` accepts the bytes after the signature and decodes them back to
/// `data` exactly.
pub open spec fn mszip_block_ok(past: Seq<Seq<u8>>, data: Seq<u8>, out: Seq<u8>) -> bool {
    &&& 2 <= out.len() <= data.len() + 7
    &&& out.subrange(0, 2) == mszip_signature()
    &&& mszip_payload_result(window_of(past.flatten()), out.skip(2), data.len() as int) == Some(
        data,
    )
}

/// A compressor for the data blocks of one folder.
pub struct MsZipCompressor {
    eng: Deflater,
}

impl MsZipCompressor {
    /// The blocks compressed so far, in order.
    pub closed spec fn blocks(&self) -> Seq<Seq<u8>> {
        self.eng.past_blocks()
    }

    /// The final-block flags of those calls, in order.
    pub closed spec fn lasts(&self) -> Seq<bool> {
        self.eng.past_lasts()
    }

    pub fn new() -> (r: MsZipCompressor)
        ensures
            r.blocks() == Seq::<Seq<u8>>::empty(),
            r.lasts() == Seq::<bool>::empty(),
    {
        MsZipCompressor { eng: Deflater::new() }
    }

    /// Frames one block of at most 0x8000 bytes of folder data.  Succeeds
    /// if and only if the deflate engine accepts the block; on success the
    /// output is exactly `spec_mszip_framing` of the engine's stream, it is
    /// a sound MSZIP framing of `data`, and a decoder seeded as the format
    /// prescribes will accept the dictionary for the next block.
    pub fn compress_block(&mut self, data: &[u8], is_last_block: bool) -> (r: Result<
        Vec<u8>,
        CabError,
    >)
        requires
            data@.len() <= 0x8000,
        ensures
            final(self).blocks() == old(self).blocks().push(data@),
            final(self).lasts() == old(self).lasts().push(is_last_block),
            (r is Ok) == (deflate_result(
                old(self).blocks(),
                old(self).lasts(),
                data@,
                is_last_block,
            ) is Some),
            (r matches Err(e) ==> e.is_invalid_data()),
            (r matches Ok(out) ==> {
                &&& deflate_result(old(self).blocks(), old(self).lasts(), data@, is_last_block)
                    matches Some(c) && out@ == spec_mszip_framing(c, data@, is_last_block)
                &&& mszip_block_ok(old(self).blocks(), data@, out@)
                &&& dict_feed_ok(final(self).blocks())
            }),
    {
        let compressed = self.eng.deflate_block(data, is_last_block);
        match compressed {
            None => Err(CabError::InvalidData("MSZIP compression failed".to_owned())),
            Some(c) => {
                let mut out: Vec<u8> = Vec::new();
                out.push(0x43);
                out.push(0x4b);
                out.extend_from_slice(c.as_slice());
                if !is_last_block {
                    out.push(0x03);
                    out.push(0x00);
                }
                proof {
                    assert(out@ =~= mszip_signature() + c@ + block_terminator(is_last_block));
                }
                if out.len() > data.len() + 7 {
                    let len16 = data.len() as u16;
                    let mut st: Vec<u8> = Vec::new();
                    st.push(0x43);
                    st.push(0x4b);
                    st.push(0x01);
                    push_u16_le(&mut st, len16);
                    push_u16_le(&mut st, 0xffff - len16);
                    st.extend_from_slice(data);
                    proof {
                        assert(st@ =~= mszip_signature() + final_stored_chunk(data@));
                        assert(st@.skip(2) =~= final_stored_chunk(data@));
                        assert(st@.subrange(0, 2) =~= mszip_signature());
                    }
                    Ok(st)
                } else {
                    proof {
                        assert(out@.skip(2) =~= c@ + block_terminator(is_last_block));
                        assert(out@.subrange(0, 2) =~= mszip_signature());
                    }
                    Ok(out)
                }
            },
        }
    }
}

/// A decompressor for the data blocks of one folder.
pub struct MsZipDecompressor {
    eng: Inflater,
    dictionary: Vec<u8>,
}

impl MsZipDecompressor {
    /// The dictionary carried from the blocks decoded so far: the last
    /// 0x8000 bytes of their concatenated output.
    pub closed spec fn dict(&self) -> Seq<u8> {
        self.dictionary@
    }

    /// The dictionary never exceeds the deflate window.
    pub closed spec fn wf(&self) -> bool {
        self.dictionary@.len() <= 0x8000
    }

    pub fn new() -> (r: MsZipDecompressor)
        ensures
            r.wf(),
            r.dict() == Seq::<u8>::empty(),
    {
        MsZipDecompressor { eng: Inflater::new(), dictionary: Vec::new() }
    }

    /// Forgets all carried state, as for a folder read from the start.
    pub fn reset(&mut self)
        ensures
            final(self).wf(),
            final(self).dict() == Seq::<u8>::empty(),
    {
        self.eng.reset_stream();
        self.dictionary = Vec::new();
    }

    /// Decodes one MSZIP block whose uncompressed size the block header
    /// stated, seeding the engine with the carried dictionary.  Succeeds if
    /// and only if the block opens with `CK`, the engine accepts dictionary
    /// and payload, and the output has exactly the stated size; the new
    /// dictionary is the window of the output appended to the old one.
    #[verifier::rlimit(60)]
    pub fn decompress_block(&mut self, data: &[u8], uncompressed_size: usize) -> (r: Result<
        Vec<u8>,
        CabError,
    >)
        requires
            old(self).wf(),
            uncompressed_size <= 0x8000,
        ensures
            final(self).wf(),
            (r matches Ok(out) ==> {
                &&& data@.len() >= 2 && data@.subrange(0, 2) == mszip_signature()
                &&& mszip_payload_result(
                    old(self).dict(),
                    data@.skip(2),
                    uncompressed_size as int,
                ) == Some(out@)
                &&& out@.len() == uncompressed_size
                &&& final(self).dict() == window_of(old(self).dict() + out@)
            }),
            (r matches Err(e) ==> e.is_invalid_data()),
            (r is Err <==> !({
                &&& data@.len() >= 2 && data@.subrange(0, 2) == mszip_signature()
                &&& spec_dict_accepted(old(self).dict())
                &&& (mszip_payload_result(
                    old(self).dict(),
                    data@.skip(2),
                    uncompressed_size as int,
                ) matches Some(full) && full.len() == uncompressed_size)
            })),
    {
        let n = data.len();
        if n < 2 || data[0] != 0x43 || data[1] != 0x4b {
            return Err(CabError::InvalidData(
                "MSZIP decompression failed: Invalid block signature".to_owned(),
            ));
        }
        self.eng.reset_stream();
        if self.dictionary.len() > 0 {
            let dlen = self.dictionary.len() as u16;
            let mut chunk: Vec<u8> = Vec::new();
            chunk.push(0x00);
            push_u16_le(&mut chunk, dlen);
            push_u16_le(&mut chunk, 0xffff - dlen);
            chunk.extend_from_slice(self.dictionary.as_slice());
            proof {
                assert(chunk@ =~= stored_chunk(self.dictionary@));
            }
            let cap = self.dictionary.len();
            let fed = self.eng.inflate_chunk(chunk.as_slice(), cap, false);
            if fed.is_none() {
                return Err(CabError::InvalidData(
                    "MSZIP decompression failed: bad dictionary".to_owned(),
                ));
            }
            proof {
                assert(self.eng.consumed() =~= seq![stored_chunk(old(self).dict())]);
                assert(self.eng.consumed_fins() =~= seq![false]);
                assert(self.eng.consumed_caps() =~= seq![old(self).dict().len() as int]);
            }
        }
        let body = &data[2..n];
        proof {
            assert(body@ =~= data@.skip(2));
            if old(self).dict().len() == 0 {
                assert(self.eng.consumed() =~= Seq::<Seq<u8>>::empty());
                assert(self.eng.consumed_fins() =~= Seq::<bool>::empty());
                assert(self.eng.consumed_caps() =~= Seq::<int>::empty());
            }
        }
        let decoded = self.eng.inflate_chunk(body, uncompressed_size, true);
        match decoded {
            None => {
                proof {
                    assert(mszip_payload_result(
                        old(self).dict(),
                        data@.skip(2),
                        uncompressed_size as int,
                    ) is None);
                }
                Err(CabError::InvalidData("MSZIP decompression failed".to_owned()))
            },
            Some(out) => {
                if out.len() != uncompressed_size {
                    return Err(CabError::InvalidData(
                        "MSZIP decompression failed: Incorrect uncompressed size".to_owned(),
                    ));
                }
                let mut combined = self.dictionary.clone();
                combined.extend_from_slice(out.as_slice());
                if combined.len() > 0x8000 {
                    let start = combined.len() - 0x8000;
                    self.dictionary = crate::bytes::copy_range(&combined, start, 0x8000);
                } else {
                    self.dictionary = combined;
                }
                proof {
                    assert(self.dictionary@ =~= window_of(old(self).dict() + out@));
                }
                Ok(out)
            },
        }
    }
}

/// The deflate engine accepts every block of `pieces` from `i` on, fed in
/// order with a final flush on the last alone (the history any compressor
/// of these blocks builds).
pub open spec fn spec_mszip_compressible(pieces: Seq<Seq<u8>>, i: int) -> bool
    decreases pieces.len() - i,
{
    if i < 0 || i >= pieces.len() {
        true
    } else {
        deflate_result(
            pieces.take(i),
            Seq::new(i as nat, |q: int| false),
            pieces[i],
            i + 1 == pieces.len(),
        ) is Some && spec_mszip_compressible(pieces, i + 1)
    }
}

/// MSZIP round trip: any byte content, split into blocks of at most 0x8000
/// bytes each, compressed block by block and decompressed in the same
/// order, comes back byte for byte.  Succeeds if and only if the deflate
/// engine accepts every block; decompression of what the compressor
/// produced is proved never to fail.
pub fn mszip_round_trip(pieces: &Vec<Vec<u8>>) -> (r: Result<Vec<u8>, CabError>)
    requires
        forall|i: int| 0 <= i < pieces@.len() ==> (#[trigger] pieces@[i])@.len() <= 0x8000,
    ensures
        (r is Ok <==> spec_mszip_compressible(pieces.deep_view(), 0)),
        (r matches Ok(out) ==> out@ == pieces.deep_view().flatten()),
{
    let ghost views: Seq<Seq<u8>> = pieces.deep_view();
    let mut comp = MsZipCompressor::new();
    let mut blocks: Vec<Vec<u8>> = Vec::new();
    let n = pieces.len();
    let mut i: usize = 0;
    proof {
        assert(views.take(0) =~= Seq::<Seq<u8>>::empty());
    }
    while i < n
        invariant
            i <= n == pieces@.len(),
            views == pieces.deep_view(),
            forall|j: int| 0 <= j < pieces@.len() ==> (#[trigger] pieces@[j])@.len() <= 0x8000,
            comp.blocks() == views.take(i as int),
            (i < n ==> comp.lasts() == Seq::new(i as nat, |q: int| false)),
            blocks@.len() == i,
            spec_mszip_compressible(views, 0) <==> spec_mszip_compressible(views, i as int),
            forall|j: int|
                0 <= j < i ==> mszip_block_ok(views.take(j), views[j], (#[trigger] blocks@[j])@),
            forall|j: int| 1 <= j <= i ==> #[trigger] dict_feed_ok(views.take(j)),
        decreases n - i,
    {
        let is_last = i + 1 == n;
        let piece = &pieces[i];
        proof {
            assert(views[i as int] == piece@);
        }
        match comp.compress_block(piece.as_slice(), is_last) {
            Ok(b) => {
                blocks.push(b);
            },
            Err(e) => {
                proof {
                    assert(!spec_mszip_compressible(views, i as int));
                }
                return Err(e);
            },
        }
        proof {
            assert(views.take(i as int).push(views[i as int]) =~= views.take(i + 1));
            if i + 1 < n {
                assert(comp.lasts() =~= Seq::new((i + 1) as nat, |q: int| false));
            }
        }
        i = i + 1;
    }
    proof {
        assert(spec_mszip_compressible(views, n as int));
    }
    let mut de = MsZipDecompressor::new();
    let mut out_acc: Vec<u8> = Vec::new();
    let mut k: usize = 0;
    proof {
        assert(views.take(0) =~= Seq::<Seq<u8>>::empty());
        assert(Seq::<Seq<u8>>::empty().flatten() =~= Seq::<u8>::empty());
    }
    while k < n
        invariant
            k <= n == pieces@.len() == blocks@.len(),
            views == pieces.deep_view(),
            forall|j: int| 0 <= j < pieces@.len() ==> (#[trigger] pieces@[j])@.len() <= 0x8000,
            forall|j: int|
                0 <= j < n ==> mszip_block_ok(views.take(j), views[j], (#[trigger] blocks@[j])@),
            forall|j: int| 1 <= j <= n ==> #[trigger] dict_feed_ok(views.take(j)),
            de.wf(),
            de.dict() == window_of(views.take(k as int).flatten()),
            out_acc@ == views.take(k as int).flatten(),
        decreases n - k,
    {
        let expected = pieces[k].len();
        proof {
            assert(views[k as int] == pieces@[k as int]@);
            assert(mszip_block_ok(views.take(k as int), views[k as int], blocks@[k as int]@));
            if k > 0 {
                assert(dict_feed_ok(views.take(k as int)));
            }
        }
        match de.decompress_block(blocks[k].as_slice(), expected) {
            Ok(o) => {
                proof {
                    assert(o@ == views[k as int]);
                    views.take(k as int).lemma_flatten_push(views[k as int]);
                    assert(views.take(k as int).push(views[k as int]) =~= views.take(k + 1));
                    crate::deflate::lemma_window_extend(
                        views.take(k as int).flatten(),
                        views[k as int],
                    );
                }
                out_acc.extend_from_slice(o.as_slice());
                k = k + 1;
            },
            Err(e) => {
                proof {
                    assert(false);
                }
                return Err(e);
            },
        }
    }
    proof {
        assert(views.take(n as int) =~= views);
    }
    Ok(out_acc)
}

} // verus!
