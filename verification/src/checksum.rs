//! The cabinet checksum: a 32-bit running XOR fold over a byte stream.
//!
//! Bytes are packed into little-endian 32-bit words and XOR-folded into an
//! accumulator; a trailing 1-, 2- or 3-byte partial word is merged with its
//! bytes swapped as `csum_finish` states.  The value stored in a data block
//! on disk is the raw checksum of the block's reserve bytes and compressed
//! payload, XOR-merged with the block's two size fields.

use vstd::prelude::*;

verus! {

/// One byte folded into the running state `(accumulator, partial word,
/// bit position of the next byte within the partial word)`.
pub open spec fn csum_step(st: (u32, u32, u32), byte: u8) -> (u32, u32, u32) {
    let rem = (st.1 | ((byte as u32) << st.2)) as u32;
    if st.2 == 24 {
        ((st.0 ^ rem) as u32, 0u32, 0u32)
    } else {
        (st.0, rem, (st.2 + 8) as u32)
    }
}

/// The running state after feeding all of `b`, starting from zero.
pub open spec fn csum_state(b: Seq<u8>) -> (u32, u32, u32)
    decreases b.len(),
{
    if b.len() == 0 {
        (0u32, 0u32, 0u32)
    } else {
        csum_step(csum_state(b.drop_last()), b.last())
    }
}

/// The checksum value of a state: the partial word's bytes are merged with
/// the swaps the format prescribes for a 1-, 2- or 3-byte tail.
pub open spec fn csum_finish(st: (u32, u32, u32)) -> u32 {
    if st.2 == 0 {
        st.0
    } else if st.2 == 8 {
        (st.0 ^ st.1) as u32
    } else if st.2 == 16 {
        (st.0 ^ (st.1 >> 8) ^ ((st.1 & 0xff) << 8)) as u32
    } else {
        (st.0 ^ (st.1 >> 16) ^ (st.1 & 0xff00) ^ ((st.1 & 0xff) << 16)) as u32
    }
}

/// The checksum of a whole byte sequence.
pub open spec fn checksum_of(b: Seq<u8>) -> u32 {
    csum_finish(csum_state(b))
}

/// The byte position within the partial word is always 0, 8, 16 or 24.
pub proof fn lemma_csum_state_shift(b: Seq<u8>)
    ensures
        csum_state(b).2 == 0 || csum_state(b).2 == 8 || csum_state(b).2 == 16 || csum_state(b).2
            == 24,
    decreases b.len(),
{
    if b.len() > 0 {
        lemma_csum_state_shift(b.drop_last());
    }
}

/// The checksum stored on disk for a data block: the raw checksum of the
/// block's reserve bytes followed by its compressed payload, XOR-merged
/// with the block's compressed and uncompressed size fields.
pub open spec fn spec_block_checksum(
    reserve: Seq<u8>,
    payload: Seq<u8>,
    csize: u16,
    usz: u16,
) -> u32 {
    (checksum_of(reserve + payload) ^ ((csize as u32) | ((usz as u32) << 16))) as u32
}

/// Recomputing a block's checksum from its reserve bytes and payload yields
/// the stored value: un-merging the size fields from the stored value gives
/// back exactly the raw checksum that a verifier recomputes.
pub proof fn lemma_block_checksum_idempotent(
    reserve: Seq<u8>,
    payload: Seq<u8>,
    csize: u16,
    usz: u16,
)
    ensures
        (spec_block_checksum(reserve, payload, csize, usz) ^ ((csize as u32) | ((usz as u32)
            << 16))) as u32 == checksum_of(reserve + payload),
{
    let raw = checksum_of(reserve + payload);
    let sizes = ((csize as u32) | ((usz as u32) << 16)) as u32;
    assert(((raw ^ sizes) ^ sizes) as u32 == raw) by (bit_vector);
}

/// A running checksum over the bytes fed to `update` so far.
pub struct Checksum {
    value: u32,
    remainder: u32,
    remainder_shift: u32,
    bytes: Ghost<Seq<u8>>,
}

impl View for Checksum {
    type V = Seq<u8>;

    closed spec fn view(&self) -> Seq<u8> {
        self.bytes@
    }
}

impl Checksum {
    /// The struct's fields hold exactly the running state of its bytes.
    pub closed spec fn wf(&self) -> bool {
        (self.value, self.remainder, self.remainder_shift) == csum_state(self.bytes@)
    }

    /// A checksum over no bytes yet.
    pub fn new() -> (r: Checksum)
        ensures
            r.wf(),
            r@ == Seq::<u8>::empty(),
    {
        Checksum { value: 0, remainder: 0, remainder_shift: 0, bytes: Ghost(Seq::empty()) }
    }

    /// The checksum of everything fed so far.
    pub fn value(&self) -> (r: u32)
        requires
            self.wf(),
        ensures
            r == checksum_of(self@),
    {
        proof {
            lemma_csum_state_shift(self.bytes@);
        }
        if self.remainder_shift == 0 {
            self.value
        } else if self.remainder_shift == 8 {
            self.value ^ self.remainder
        } else if self.remainder_shift == 16 {
            self.value ^ (self.remainder >> 8) ^ ((self.remainder & 0xff) << 8)
        } else {
            self.value ^ (self.remainder >> 16) ^ (self.remainder & 0xff00) ^ ((self.remainder
                & 0xff) << 16)
        }
    }

    /// Feeds `buf` into the running checksum.
    pub fn update(&mut self, buf: &[u8])
        requires
            old(self).wf(),
        ensures
            final(self).wf(),
            final(self)@ == old(self)@ + buf@,
    {
        let ghost orig = self.bytes@;
        let mut i: usize = 0;
        while i < buf.len()
            invariant
                i <= buf@.len(),
                self.wf(),
                self.bytes@ == orig + buf@.take(i as int),
            decreases buf@.len() - i,
        {
            let byte = buf[i];
            proof {
                lemma_csum_state_shift(self.bytes@);
                assert((orig + buf@.take(i as int)).push(byte) =~= orig + buf@.take(i + 1));
                assert(self.bytes@.push(byte).drop_last() =~= self.bytes@);
            }
            self.remainder = self.remainder | ((byte as u32) << self.remainder_shift);
            if self.remainder_shift == 24 {
                self.value = self.value ^ self.remainder;
                self.remainder = 0;
                self.remainder_shift = 0;
            } else {
                self.remainder_shift = self.remainder_shift + 8;
            }
            self.bytes = Ghost(self.bytes@.push(byte));
            i = i + 1;
        }
        proof {
            assert(orig + buf@.take(buf@.len() as int) =~= orig + buf@);
        }
    }
}

/// The value stored on disk for a block with the given reserve bytes,
/// compressed payload, and size fields.
pub fn block_checksum(reserve: &Vec<u8>, payload: &Vec<u8>, csize: u16, usz: u16) -> (r: u32)
    ensures
        r == spec_block_checksum(reserve@, payload@, csize, usz),
{
    let mut c = Checksum::new();
    c.update(reserve.as_slice());
    c.update(payload.as_slice());
    proof {
        assert(Seq::<u8>::empty() + reserve@ + payload@ =~= reserve@ + payload@);
    }
    c.value() ^ ((csize as u32) | ((usz as u32) << 16))
}

} // verus!
