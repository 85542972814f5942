//! The deflate engine behind MSZIP, as an external primitive.
//!
//! The cabinet format's MSZIP scheme drives one deflate stream across the
//! blocks of a folder so that back-references may reach into the previous
//! block's output, and a decoder rebuilds that state by feeding the last
//! 0x8000 bytes of prior output through a synthetic stored block before each
//! block's payload.  The engine itself is flate2's; the wrappers here name
//! its outcomes and state the facts about them that the framing code and its
//! round-trip proof rest on.
//!
//! Both engines are deterministic, but their state depends on the *whole*
//! call history, not just on the bytes fed: a past flush flag changes what
//! the compressor emits next, and a past output capacity decides how much of
//! a chunk the decompressor consumed.  The ghost histories therefore record
//! every argument of every call -- the bytes together with the flush flag,
//! and for the decompressor also the output capacity -- and the named
//! outcomes are functions of those full histories.

use vstd::prelude::*;

use crate::bytes::le16_bytes;

verus! {

#[verifier::external_type_specification]
#[verifier::external_body]
pub struct ExCompress(flate2::Compress);

#[verifier::external_type_specification]
#[verifier::external_body]
pub struct ExDecompress(flate2::Decompress);

/// What flate2's deflate engine makes of the block `data` after having
/// compressed the blocks `past_data` in order, each with the final-flush
/// flag `past_last` at the same index, this call with a Finish flush iff
/// `last`: `None` where the engine reports an error, otherwise the bytes it
/// emits.  The engine is deterministic, so this is a function of that full
/// call history alone.
pub uninterp spec fn deflate_result(
    past_data: Seq<Seq<u8>>,
    past_last: Seq<bool>,
    data: Seq<u8>,
    last: bool,
) -> Option<Seq<u8>>;

/// What flate2's inflate engine makes of the chunk `data`, decoded into a
/// buffer of capacity `cap` with a Finish flush iff `fin`, after having
/// consumed since its last reset the chunks `past_data` in order, each with
/// the flush flag and output capacity recorded at the same index: `None`
/// where the engine rejects the chunk, otherwise the bytes it produces
/// (cut off at `cap`).  The engine is deterministic, so this is a function
/// of that full call history alone.
pub uninterp spec fn inflate_result(
    past_data: Seq<Seq<u8>>,
    past_fin: Seq<bool>,
    past_cap: Seq<int>,
    data: Seq<u8>,
    fin: bool,
    cap: int,
) -> Option<Seq<u8>>;

/// The last `0x8000` bytes of `s` -- the reach of a deflate back-reference.
pub open spec fn window_of(s: Seq<u8>) -> Seq<u8> {
    if s.len() <= 0x8000 {
        s
    } else {
        s.skip(s.len() - 0x8000)
    }
}

/// A non-final stored deflate block holding `d`: the zero header byte, the
/// length, the length's ones' complement, and the bytes themselves.
pub open spec fn stored_chunk(d: Seq<u8>) -> Seq<u8> {
    seq![0u8] + le16_bytes(d.len() as u16) + le16_bytes((0xffff - d.len() as u16) as u16) + d
}

/// A final stored deflate block holding `d` (header byte 1: BFINAL set).
pub open spec fn final_stored_chunk(d: Seq<u8>) -> Seq<u8> {
    seq![1u8] + le16_bytes(d.len() as u16) + le16_bytes((0xffff - d.len() as u16) as u16) + d
}

/// The two bytes a non-final MSZIP block appends after its deflate stream:
/// an empty stored block's header, keeping the concatenation parseable.
pub open spec fn block_terminator(last: bool) -> Seq<u8> {
    if last {
        Seq::empty()
    } else {
        seq![3u8, 0u8]
    }
}

/// What a freshly reset inflate engine, seeded with the dictionary `dict`
/// as the format prescribes -- nothing for an empty dictionary, else one
/// stored block fed with a Sync flush into a buffer of the dictionary's own
/// size -- makes of `payload` decoded with a Finish flush into a buffer of
/// capacity `cap`.
pub open spec fn mszip_payload_result(dict: Seq<u8>, payload: Seq<u8>, cap: int) -> Option<
    Seq<u8>,
> {
    if dict.len() == 0 {
        inflate_result(Seq::empty(), Seq::empty(), Seq::empty(), payload, true, cap)
    } else {
        inflate_result(
            seq![stored_chunk(dict)],
            seq![false],
            seq![dict.len() as int],
            payload,
            true,
            cap,
        )
    }
}

/// A freshly reset inflate engine accepts the stored block carrying the
/// dictionary `dict` (trivially where it is empty and nothing is fed).
pub open spec fn spec_dict_accepted(dict: Seq<u8>) -> bool {
    dict.len() == 0 || inflate_result(
        Seq::empty(),
        Seq::empty(),
        Seq::empty(),
        stored_chunk(dict),
        false,
        dict.len() as int,
    ) is Some
}

/// A freshly reset inflate engine accepts the dictionary stored block for
/// the window of `past_data`'s bytes.
pub open spec fn dict_feed_ok(past_data: Seq<Seq<u8>>) -> bool {
    spec_dict_accepted(window_of(past_data.flatten()))
}

/// One deflate stream, fed one block per call.
pub struct Deflater {
    inner: flate2::Compress,
    past_data: Ghost<Seq<Seq<u8>>>,
    past_last: Ghost<Seq<bool>>,
}

impl Deflater {
    /// The blocks fed so far, in order.
    pub closed spec fn past_blocks(&self) -> Seq<Seq<u8>> {
        self.past_data@
    }

    /// The final-flush flags of those calls, in order.
    pub closed spec fn past_lasts(&self) -> Seq<bool> {
        self.past_last@
    }

    /// Relies on `flate2::Compress::new` (level `Compression::best`, no zlib
    /// wrapper): a fresh raw-deflate stream with nothing compressed yet.
    #[verifier::external_body]
    pub fn new() -> (r: Deflater)
        ensures
            r.past_blocks() == Seq::<Seq<u8>>::empty(),
            r.past_lasts() == Seq::<bool>::empty(),
    {
        Deflater {
            inner: flate2::Compress::new(flate2::Compression::best(), false),
            past_data: Ghost(Seq::empty()),
            past_last: Ghost(Seq::empty()),
        }
    }

    /// One block driven through the deflate engine.
    ///
    /// Relies on `flate2::Compress::compress_vec` into a buffer of capacity
    /// 0xffff with a Sync (non-final) or Finish (final) flush: the engine is
    /// deterministic over its call history, it succeeds or reports an error
    /// as a function of that history, and a block of at most 0x8000 bytes is
    /// consumed whole (raw deflate expands it by far less than the spare
    /// 0x7fff bytes).  The `mszip_payload_result` clauses state how
    /// `flate2::Decompress` reads the stream back: freshly reset and seeded
    /// with the window of the prior blocks, it decodes this block's stream
    /// (with the empty stored block appended when non-final) back to `data`
    /// exactly, as it does a plain stored block holding `data`; and it
    /// accepts the stored block carrying the new window, which seeds the
    /// next block.
    #[verifier::external_body]
    pub fn deflate_block(&mut self, data: &[u8], last: bool) -> (r: Option<Vec<u8>>)
        requires
            data@.len() <= 0x8000,
        ensures
            final(self).past_blocks() == old(self).past_blocks().push(data@),
            final(self).past_lasts() == old(self).past_lasts().push(last),
            (r is Some) == (deflate_result(
                old(self).past_blocks(),
                old(self).past_lasts(),
                data@,
                last,
            ) is Some),
            (r matches Some(out) ==> deflate_result(
                old(self).past_blocks(),
                old(self).past_lasts(),
                data@,
                last,
            ) == Some(out@)),
            (r matches Some(out) ==> {
                let w = window_of(old(self).past_blocks().flatten());
                &&& mszip_payload_result(w, out@ + block_terminator(last), data@.len() as int)
                    == Some(data@)
                &&& mszip_payload_result(w, final_stored_chunk(data@), data@.len() as int)
                    == Some(data@)
                &&& dict_feed_ok(old(self).past_blocks().push(data@))
            }),
    {
        let mut out = Vec::with_capacity(0xffff);
        let flush = if last {
            flate2::FlushCompress::Finish
        } else {
            flate2::FlushCompress::Sync
        };
        match self.inner.compress_vec(data, &mut out, flush) {
            Ok(_) => Some(out),
            Err(_) => None,
        }
    }
}

/// One inflate stream, fed one chunk per call.
pub struct Inflater {
    inner: flate2::Decompress,
    past_data: Ghost<Seq<Seq<u8>>>,
    past_fin: Ghost<Seq<bool>>,
    past_cap: Ghost<Seq<int>>,
}

impl Inflater {
    /// The chunks consumed since the last reset, in order.
    pub closed spec fn consumed(&self) -> Seq<Seq<u8>> {
        self.past_data@
    }

    /// The flush flags of those calls, in order.
    pub closed spec fn consumed_fins(&self) -> Seq<bool> {
        self.past_fin@
    }

    /// The output capacities of those calls, in order.
    pub closed spec fn consumed_caps(&self) -> Seq<int> {
        self.past_cap@
    }

    /// Relies on `flate2::Decompress::new` (no zlib wrapper): a fresh
    /// raw-inflate stream with nothing consumed yet.
    #[verifier::external_body]
    pub fn new() -> (r: Inflater)
        ensures
            r.consumed() == Seq::<Seq<u8>>::empty(),
            r.consumed_fins() == Seq::<bool>::empty(),
            r.consumed_caps() == Seq::<int>::empty(),
    {
        Inflater {
            inner: flate2::Decompress::new(false),
            past_data: Ghost(Seq::empty()),
            past_fin: Ghost(Seq::empty()),
            past_cap: Ghost(Seq::empty()),
        }
    }

    /// Relies on `flate2::Decompress::reset` (no zlib wrapper): the stream
    /// state is as freshly created.
    #[verifier::external_body]
    pub fn reset_stream(&mut self)
        ensures
            final(self).consumed() == Seq::<Seq<u8>>::empty(),
            final(self).consumed_fins() == Seq::<bool>::empty(),
            final(self).consumed_caps() == Seq::<int>::empty(),
    {
        self.inner.reset(false);
    }

    /// One chunk driven through the inflate engine into a buffer of
    /// capacity `cap`.
    ///
    /// Relies on `flate2::Decompress::decompress_vec` with a Sync
    /// (non-final) or Finish (final) flush: the engine is deterministic
    /// over its call history -- which includes every earlier chunk's flush
    /// flag and output capacity, since a full buffer stops it mid-chunk --
    /// so whether the chunk is accepted and what comes out are functions of
    /// that history.
    #[verifier::external_body]
    pub fn inflate_chunk(&mut self, data: &[u8], cap: usize, fin: bool) -> (r: Option<Vec<u8>>)
        ensures
            final(self).consumed() == old(self).consumed().push(data@),
            final(self).consumed_fins() == old(self).consumed_fins().push(fin),
            final(self).consumed_caps() == old(self).consumed_caps().push(cap as int),
            (r is Some) == (inflate_result(
                old(self).consumed(),
                old(self).consumed_fins(),
                old(self).consumed_caps(),
                data@,
                fin,
                cap as int,
            ) is Some),
            (r matches Some(out) ==> inflate_result(
                old(self).consumed(),
                old(self).consumed_fins(),
                old(self).consumed_caps(),
                data@,
                fin,
                cap as int,
            ) == Some(out@)),
    {
        let mut out = Vec::with_capacity(cap);
        let flush = if fin {
            flate2::FlushDecompress::Finish
        } else {
            flate2::FlushDecompress::Sync
        };
        match self.inner.decompress_vec(data, &mut out, flush) {
            Ok(_) => Some(out),
            Err(_) => None,
        }
    }
}

/// Extending a byte sequence moves its window forward: the window of
/// `window(a) + b` is the window of `a + b`.
pub proof fn lemma_window_extend(a: Seq<u8>, b: Seq<u8>)
    ensures
        window_of(window_of(a) + b) == window_of(a + b),
{
    let wa = window_of(a);
    if a.len() <= 0x8000 {
        assert(wa + b =~= a + b);
    } else {
        assert(wa.len() == 0x8000);
        if wa.len() + b.len() <= 0x8000 {
            assert(b.len() == 0);
            assert(window_of(wa + b) =~= window_of(a + b));
        } else {
            assert(window_of(wa + b) =~= window_of(a + b));
        }
    }
}

} // verus!
