//! The LZX decoder, as an external primitive.
//!
//! Cabinets may compress a folder with LZX; this library decodes such
//! folders through the lzxd crate and does not write them.  The decoder is
//! stateful across the blocks of a folder, so its output is named as a
//! function of the window exponent and the chunks decoded so far.

use vstd::prelude::*;

verus! {

#[verifier::external_type_specification]
#[verifier::external_body]
pub struct ExLzxd(lzxd::Lzxd);

/// What lzxd's decoder, created with window exponent `w` and having decoded
/// the chunks `past_data` (with output lengths `past_lens`) since creation
/// or reset, makes of chunk `data` decoded to `out_len` bytes: `None` where
/// it rejects the chunk, else the bytes it produces.  The decoder is
/// deterministic, so this is a function of that history alone.
pub uninterp spec fn lzx_result(
    w: int,
    past_data: Seq<Seq<u8>>,
    past_lens: Seq<int>,
    data: Seq<u8>,
    out_len: int,
) -> Option<Seq<u8>>;

/// A decoder for the LZX data blocks of one folder.
///
/// Window exponents run 15..=24 here, one short of the format's top size:
/// for the 32 MiB window, lzxd sizes its footer-bits table one entry short
/// of that window's 290 position slots and indexes past its end on a
/// crafted block, so this library refuses to decode that window rather
/// than trust the call.
pub struct LzxDecoder {
    inner: lzxd::Lzxd,
    window: Ghost<int>,
    past_data: Ghost<Seq<Seq<u8>>>,
    past_lens: Ghost<Seq<int>>,
}

impl LzxDecoder {
    /// The window exponent the decoder was created with.
    pub closed spec fn window_exp(&self) -> int {
        self.window@
    }

    /// The chunks decoded since creation or reset, in order.
    pub closed spec fn past_chunks(&self) -> Seq<Seq<u8>> {
        self.past_data@
    }

    /// The output lengths of those chunks, in order.
    pub closed spec fn past_lens(&self) -> Seq<int> {
        self.past_lens@
    }

    /// Relies on `lzxd::Lzxd::new`: a fresh decoder for the window size
    /// `2^window_exp`, with nothing decoded yet.  The 32 MiB window is
    /// excluded: lzxd's footer-bits table holds 289 entries while that
    /// window has 290 position slots, so a crafted block indexes past its
    /// end; every smaller window stays within the table.
    #[verifier::external_body]
    pub fn new(window_exp: u16) -> (r: LzxDecoder)
        requires
            15 <= window_exp <= 24,
        ensures
            r.window_exp() == window_exp,
            r.past_chunks() == Seq::<Seq<u8>>::empty(),
            r.past_lens() == Seq::<int>::empty(),
    {
        let ws = match window_exp {
            15 => lzxd::WindowSize::KB32, 16 => lzxd::WindowSize::KB64,
            17 => lzxd::WindowSize::KB128, 18 => lzxd::WindowSize::KB256,
            19 => lzxd::WindowSize::KB512, 20 => lzxd::WindowSize::MB1,
            21 => lzxd::WindowSize::MB2, 22 => lzxd::WindowSize::MB4,
            23 => lzxd::WindowSize::MB8, 24 => lzxd::WindowSize::MB16,
            _ => lzxd::WindowSize::MB32,
        };
        LzxDecoder {
            inner: lzxd::Lzxd::new(ws),
            window: Ghost(window_exp as int),
            past_data: Ghost(Seq::empty()),
            past_lens: Ghost(Seq::empty()),
        }
    }

    /// Relies on `lzxd::Lzxd::reset`: the decoder state is as freshly
    /// created with the same window size.
    #[verifier::external_body]
    pub fn reset(&mut self)
        ensures
            final(self).window_exp() == old(self).window_exp(),
            final(self).past_chunks() == Seq::<Seq<u8>>::empty(),
            final(self).past_lens() == Seq::<int>::empty(),
    {
        self.inner.reset();
    }

    /// One chunk decoded to exactly `out_len` bytes.
    ///
    /// Relies on `lzxd::Lzxd::decompress_next`: the decoder is
    /// deterministic, and the slice it returns on success holds exactly
    /// `out_len` bytes.
    #[verifier::external_body]
    pub fn decompress_next(&mut self, data: &[u8], out_len: usize) -> (r: Option<Vec<u8>>)
        ensures
            final(self).window_exp() == old(self).window_exp(),
            final(self).past_chunks() == old(self).past_chunks().push(data@),
            final(self).past_lens() == old(self).past_lens().push(out_len as int),
            (r is Some) == (lzx_result(
                old(self).window_exp(),
                old(self).past_chunks(),
                old(self).past_lens(),
                data@,
                out_len as int,
            ) is Some),
            (r matches Some(o) ==> lzx_result(
                old(self).window_exp(),
                old(self).past_chunks(),
                old(self).past_lens(),
                data@,
                out_len as int,
            ) == Some(o@) && o@.len() == out_len),
    {
        match self.inner.decompress_next(data, out_len) {
            Ok(s) => Some(s.to_vec()),
            Err(_) => None,
        }
    }
}

} // verus!
