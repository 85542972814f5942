//! The byte layouts of the cabinet format, as spec functions.
//!
//! The writer's contracts say that what it emitted equals these layouts;
//! the reader's contracts say that what it returned is what these layouts
//! hold.  All multi-byte integers are little-endian.

use vstd::prelude::*;

use crate::bytes::{le16_at, le16_bytes, le32_at, le32_bytes};
use crate::checksum::spec_block_checksum;
use crate::consts::{FILE_SIGNATURE, VERSION_MAJOR, VERSION_MINOR};
use crate::ctype::CompressionType;
use crate::deflate::{mszip_payload_result, spec_dict_accepted, window_of};
use crate::lzx::lzx_result;
use crate::mszip::mszip_signature;

verus! {

/// The 36 fixed bytes that open every cabinet.
pub open spec fn spec_header_bytes(
    total_size: u32,
    first_file_offset: u32,
    num_folders: u16,
    num_files: u16,
    flags: u16,
    set_id: u16,
    set_index: u16,
) -> Seq<u8> {
    le32_bytes(FILE_SIGNATURE) + le32_bytes(0) + le32_bytes(total_size) + le32_bytes(0)
        + le32_bytes(first_file_offset) + le32_bytes(0) + seq![VERSION_MINOR, VERSION_MAJOR]
        + le16_bytes(num_folders) + le16_bytes(num_files) + le16_bytes(flags) + le16_bytes(set_id)
        + le16_bytes(set_index)
}

/// A folder directory entry: `8 + reserve.len()` bytes.
pub open spec fn spec_folder_entry_bytes(
    first_block_offset: u32,
    num_blocks: u16,
    ctype_bits: u16,
    reserve: Seq<u8>,
) -> Seq<u8> {
    le32_bytes(first_block_offset) + le16_bytes(num_blocks) + le16_bytes(ctype_bits) + reserve
}

/// A file directory entry: 16 fixed bytes, the name, and its terminator.
pub open spec fn spec_file_entry_bytes(
    size: u32,
    offset: u32,
    folder_index: u16,
    date: u16,
    time: u16,
    attributes: u16,
    name: Seq<u8>,
) -> Seq<u8> {
    le32_bytes(size) + le32_bytes(offset) + le16_bytes(folder_index) + le16_bytes(date)
        + le16_bytes(time) + le16_bytes(attributes) + name + seq![0u8]
}

/// Patching the total-size field of a placeholder header gives exactly the
/// header with that total size.
pub proof fn lemma_header_total_patch(total: u32, f: u32, a: u16, b: u16, c: u16)
    ensures
        spec_header_bytes(total, f, a, b, c, 0, 0) =~= spec_header_bytes(
            0,
            f,
            a,
            b,
            c,
            0,
            0,
        ).update(8, le32_bytes(total)[0]).update(9, le32_bytes(total)[1]).update(
            10,
            le32_bytes(total)[2],
        ).update(11, le32_bytes(total)[3]),
{
}

/// The 8 bytes that open a data block.
pub open spec fn spec_block_header_bytes(checksum: u32, csize: u16, usz: u16) -> Seq<u8> {
    le32_bytes(checksum) + le16_bytes(csize) + le16_bytes(usz)
}

/// One data block of a folder's stream, as it stands on disk.
pub struct BlockModel {
    pub checksum: u32,
    pub csize: u16,
    pub usz: u16,
    pub reserve: Seq<u8>,
    pub payload: Seq<u8>,
}

/// The `n` consecutive data blocks at `off`: each one an 8-byte header,
/// `rsv` reserve bytes, and its payload of the stated compressed size.
/// `None` where the bytes run out.
pub open spec fn spec_parse_blocks(data: Seq<u8>, off: int, n: nat, rsv: int) -> Option<
    Seq<BlockModel>,
>
    decreases n,
{
    if n == 0 {
        Some(Seq::empty())
    } else if !(0 <= off && 0 <= rsv && off + 8 + rsv <= data.len()) {
        None
    } else {
        let checksum = le32_at(data, off);
        let csize = le16_at(data, off + 4);
        let usz = le16_at(data, off + 6);
        if off + 8 + rsv + csize > data.len() {
            None
        } else {
            let b = BlockModel {
                checksum,
                csize,
                usz,
                reserve: data.subrange(off + 8, off + 8 + rsv),
                payload: data.subrange(off + 8 + rsv, off + 8 + rsv + csize),
            };
            match spec_parse_blocks(data, off + 8 + rsv + csize, (n - 1) as nat, rsv) {
                None => None,
                Some(rest) => Some(seq![b] + rest),
            }
        }
    }
}

/// The payloads of a parsed block stream, in order.
pub open spec fn spec_block_payloads(blocks: Seq<BlockModel>) -> Seq<Seq<u8>> {
    blocks.map_values(|b: BlockModel| b.payload)
}

/// The stated uncompressed sizes of a parsed block stream, in order.
pub open spec fn spec_block_lens(blocks: Seq<BlockModel>) -> Seq<int> {
    blocks.map_values(|b: BlockModel| b.usz as int)
}

/// Every block states an uncompressed size within the format's block cap.
pub open spec fn spec_blocks_sizes_ok(blocks: Seq<BlockModel>) -> bool {
    forall|i: int| 0 <= i < blocks.len() ==> (#[trigger] blocks[i]).usz <= 0x8000
}

/// Every stored block checksum that is not zero equals the checksum of the
/// block's reserve bytes and payload merged with its size fields.
pub open spec fn spec_blocks_checksums_ok(blocks: Seq<BlockModel>) -> bool {
    forall|i: int|
        0 <= i < blocks.len() ==> {
            let b = #[trigger] blocks[i];
            b.checksum == 0 || b.checksum == spec_block_checksum(
                b.reserve,
                b.payload,
                b.csize,
                b.usz,
            )
        }
}

/// The decompressed content of an MSZIP block stream from block `i` on,
/// with the dictionary `dict` carried in from the blocks before: `None`
/// where a block overstates its size, lacks the signature, or the engine
/// rejects the dictionary or the payload or decodes to a different size.
pub open spec fn spec_mszip_content_from(blocks: Seq<BlockModel>, i: int, dict: Seq<u8>) -> Option<
    Seq<u8>,
>
    decreases blocks.len() - i,
{
    if i < 0 || i >= blocks.len() {
        Some(Seq::empty())
    } else {
        let b = blocks[i];
        if b.usz > 0x8000 {
            None
        } else if !(b.payload.len() >= 2 && b.payload.subrange(0, 2) == mszip_signature()) {
            None
        } else if !spec_dict_accepted(dict) {
            None
        } else {
            match mszip_payload_result(dict, b.payload.skip(2), b.usz as int) {
                None => None,
                Some(out) => {
                    if out.len() != b.usz {
                        None
                    } else {
                        match spec_mszip_content_from(blocks, i + 1, window_of(dict + out)) {
                            None => None,
                            Some(rest) => Some(out + rest),
                        }
                    }
                },
            }
        }
    }
}

/// The decompressed content of an LZX block stream from block `i` on,
/// after the decoder consumed the chunks `past_data` of output lengths
/// `past_lens`.
pub open spec fn spec_lzx_content_from(
    blocks: Seq<BlockModel>,
    i: int,
    w: int,
    past_data: Seq<Seq<u8>>,
    past_lens: Seq<int>,
) -> Option<Seq<u8>>
    decreases blocks.len() - i,
{
    if i < 0 || i >= blocks.len() {
        Some(Seq::empty())
    } else {
        let b = blocks[i];
        match lzx_result(w, past_data, past_lens, b.payload, b.usz as int) {
            None => None,
            Some(out) => {
                match spec_lzx_content_from(
                    blocks,
                    i + 1,
                    w,
                    past_data.push(b.payload),
                    past_lens.push(b.usz as int),
                ) {
                    None => None,
                    Some(rest) => Some(out + rest),
                }
            },
        }
    }
}

/// The bytes a parsed block stream occupies on disk: an 8-byte header,
/// `rsv` reserve bytes, and the payload, per block.
pub open spec fn spec_blocks_extent(blocks: Seq<BlockModel>, rsv: int) -> int
    decreases blocks.len(),
{
    if blocks.len() == 0 {
        0
    } else {
        8 + rsv + blocks[0].csize + spec_blocks_extent(blocks.drop_first(), rsv)
    }
}

/// The extent of a block stream grows by one block's bytes per block.
pub proof fn lemma_blocks_extent_push(blocks: Seq<BlockModel>, b: BlockModel, rsv: int)
    ensures
        spec_blocks_extent(blocks.push(b), rsv) == spec_blocks_extent(blocks, rsv) + 8 + rsv
            + b.csize,
    decreases blocks.len(),
{
    if blocks.len() == 0 {
        assert(blocks.push(b)[0] == b);
        assert(blocks.push(b).drop_first() =~= Seq::<BlockModel>::empty());
        assert(spec_blocks_extent(Seq::<BlockModel>::empty(), rsv) == 0);
        assert(spec_blocks_extent(blocks.push(b), rsv) == 8 + rsv + b.csize);
    } else {
        assert(blocks.push(b)[0] == blocks[0]);
        assert(blocks.push(b).drop_first() =~= blocks.drop_first().push(b));
        lemma_blocks_extent_push(blocks.drop_first(), b, rsv);
        assert(spec_blocks_extent(blocks.push(b), rsv) == 8 + rsv + blocks[0].csize
            + spec_blocks_extent(blocks.drop_first().push(b), rsv));
    }
}

/// A parsed block stream occupies no negative room and ends inside `data`.
pub proof fn lemma_parse_blocks_extent(data: Seq<u8>, off: int, n: nat, rsv: int)
    requires
        0 <= off <= data.len(),
        0 <= rsv,
        spec_parse_blocks(data, off, n, rsv) is Some,
    ensures
        0 <= spec_blocks_extent(spec_parse_blocks(data, off, n, rsv)->Some_0, rsv),
        off + spec_blocks_extent(spec_parse_blocks(data, off, n, rsv)->Some_0, rsv) <= data.len(),
    decreases n,
{
    if n > 0 {
        let csize = le16_at(data, off + 4);
        lemma_parse_blocks_extent(data, off + 8 + rsv + csize, (n - 1) as nat, rsv);
        let bl = spec_parse_blocks(data, off, n, rsv)->Some_0;
        let rest = spec_parse_blocks(data, off + 8 + rsv + csize, (n - 1) as nat, rsv)->Some_0;
        assert(bl.drop_first() =~= rest);
    }
}

/// Bytes at and after `off` unchanged (and none taken away) leave the
/// parse of a block stream at `off` unchanged.
pub proof fn lemma_parse_blocks_frame(d1: Seq<u8>, d2: Seq<u8>, off: int, n: nat, rsv: int)
    requires
        0 <= off,
        d1.len() <= d2.len(),
        forall|i: int| off <= i < d1.len() ==> d1[i] == d2[i],
        spec_parse_blocks(d1, off, n, rsv) is Some,
    ensures
        spec_parse_blocks(d2, off, n, rsv) == spec_parse_blocks(d1, off, n, rsv),
    decreases n,
{
    if n > 0 {
        assert(le32_at(d2, off) == le32_at(d1, off));
        assert(le16_at(d2, off + 4) == le16_at(d1, off + 4));
        assert(le16_at(d2, off + 6) == le16_at(d1, off + 6));
        let csize = le16_at(d1, off + 4);
        assert(d2.subrange(off + 8, off + 8 + rsv) =~= d1.subrange(off + 8, off + 8 + rsv));
        assert(d2.subrange(off + 8 + rsv, off + 8 + rsv + csize) =~= d1.subrange(
            off + 8 + rsv,
            off + 8 + rsv + csize,
        ));
        lemma_parse_blocks_frame(d1, d2, off + 8 + rsv + csize, (n - 1) as nat, rsv);
    }
}

/// Appending one whole block after a stream that fills `d1` exactly
/// parses as the stream with that block at its end.
pub proof fn lemma_parse_blocks_snoc(d1: Seq<u8>, d2: Seq<u8>, off: int, n: nat, rsv: int, b: BlockModel)
    requires
        0 <= off,
        0 <= rsv,
        spec_parse_blocks(d1, off, n, rsv) is Some,
        off + spec_blocks_extent(spec_parse_blocks(d1, off, n, rsv)->Some_0, rsv) == d1.len(),
        d2.len() == d1.len() + 8 + rsv + b.csize,
        forall|i: int| 0 <= i < d1.len() ==> d1[i] == d2[i],
        b.checksum == le32_at(d2, d1.len() as int),
        b.csize == le16_at(d2, d1.len() as int + 4),
        b.usz == le16_at(d2, d1.len() as int + 6),
        b.reserve == d2.subrange(d1.len() as int + 8, d1.len() as int + 8 + rsv),
        b.payload == d2.subrange(d1.len() as int + 8 + rsv, d2.len() as int),
    ensures
        spec_parse_blocks(d2, off, (n + 1) as nat, rsv) == Some(
            spec_parse_blocks(d1, off, n, rsv)->Some_0.push(b),
        ),
        spec_blocks_extent(spec_parse_blocks(d1, off, n, rsv)->Some_0.push(b), rsv) == d2.len()
            - off,
    decreases n,
{
    let bl = spec_parse_blocks(d1, off, n, rsv)->Some_0;
    lemma_blocks_extent_push(bl, b, rsv);
    if n == 0 {
        assert(bl =~= Seq::<BlockModel>::empty());
        assert(off == d1.len());
        let off2 = off + 8 + rsv + b.csize;
        assert(off2 == d2.len());
        assert(spec_parse_blocks(d2, off2, 0, rsv) == Some(Seq::<BlockModel>::empty()));
        assert(d2.subrange(off + 8, off + 8 + rsv) == b.reserve);
        assert(d2.subrange(off + 8 + rsv, off + 8 + rsv + b.csize) == b.payload);
        assert(spec_parse_blocks(d2, off, 1, rsv) == Some(
            seq![b] + Seq::<BlockModel>::empty(),
        ));
        assert(seq![b] + Seq::<BlockModel>::empty() =~= bl.push(b));
    } else {
        lemma_parse_blocks_extent(d1, off, n, rsv);
        let csize = le16_at(d1, off + 4);
        assert(le32_at(d2, off) == le32_at(d1, off));
        assert(le16_at(d2, off + 4) == le16_at(d1, off + 4));
        assert(le16_at(d2, off + 6) == le16_at(d1, off + 6));
        assert(d2.subrange(off + 8, off + 8 + rsv) =~= d1.subrange(off + 8, off + 8 + rsv));
        assert(d2.subrange(off + 8 + rsv, off + 8 + rsv + csize) =~= d1.subrange(
            off + 8 + rsv,
            off + 8 + rsv + csize,
        ));
        let off2 = off + 8 + rsv + csize;
        let rest = spec_parse_blocks(d1, off2, (n - 1) as nat, rsv)->Some_0;
        assert(bl == seq![bl[0]] + rest);
        assert(bl.drop_first() =~= rest);
        assert(bl[0].csize == csize);
        assert(off2 + spec_blocks_extent(rest, rsv) == d1.len());
        lemma_parse_blocks_snoc(d1, d2, off2, (n - 1) as nat, rsv, b);
        assert(spec_parse_blocks(d2, off2, n, rsv) == Some(rest.push(b)));
        assert(spec_parse_blocks(d2, off, (n + 1) as nat, rsv) == Some(
            seq![bl[0]] + rest.push(b),
        ));
        assert(seq![bl[0]] + rest.push(b) =~= (seq![bl[0]] + rest).push(b));
        assert(seq![bl[0]] + rest =~= bl);
    }
}

/// Every checksum of a stream with one more sound block stays sound.
pub proof fn lemma_checksums_ok_push(blocks: Seq<BlockModel>, b: BlockModel)
    requires
        spec_blocks_checksums_ok(blocks),
        b.checksum == 0 || b.checksum == spec_block_checksum(b.reserve, b.payload, b.csize, b.usz),
    ensures
        spec_blocks_checksums_ok(blocks.push(b)),
{
    assert forall|i: int| 0 <= i < blocks.push(b).len() implies {
        let x = #[trigger] blocks.push(b)[i];
        x.checksum == 0 || x.checksum == spec_block_checksum(x.reserve, x.payload, x.csize, x.usz)
    } by {
        if i < blocks.len() {
            assert(blocks.push(b)[i] == blocks[i]);
        }
    }
}

/// Appending a block whose payload the inflate engine, seeded with the
/// window of the content so far, decodes back to its input extends the
/// MSZIP content of a stream by that input.
pub proof fn lemma_mszip_content_push(blocks: Seq<BlockModel>, b: BlockModel, i: int, dict: Seq<u8>)
    requires
        0 <= i <= blocks.len(),
        dict.len() <= 0x8000,
        spec_mszip_content_from(blocks, i, dict) is Some,
        spec_dict_accepted(dict),
        b.usz <= 0x8000,
        b.payload.len() >= 2,
        b.payload.subrange(0, 2) == mszip_signature(),
        ({
            let c = spec_mszip_content_from(blocks, i, dict)->Some_0;
            &&& spec_dict_accepted(window_of(dict + c))
            &&& mszip_payload_result(window_of(dict + c), b.payload.skip(2), b.usz as int)
                matches Some(out) && out.len() == b.usz
        }),
    ensures
        ({
            let c = spec_mszip_content_from(blocks, i, dict)->Some_0;
            spec_mszip_content_from(blocks.push(b), i, dict) == Some(
                c + mszip_payload_result(
                    window_of(dict + c),
                    b.payload.skip(2),
                    b.usz as int,
                )->Some_0,
            )
        }),
    decreases blocks.len() - i,
{
    let c = spec_mszip_content_from(blocks, i, dict)->Some_0;
    let out = mszip_payload_result(window_of(dict + c), b.payload.skip(2), b.usz as int)->Some_0;
    if i == blocks.len() {
        assert(c =~= Seq::<u8>::empty());
        assert(dict + c =~= dict);
        assert(window_of(dict) == dict);
        assert(blocks.push(b)[i] == b);
        assert(spec_mszip_content_from(blocks.push(b), i + 1, window_of(dict + out)) == Some(
            Seq::<u8>::empty(),
        ));
        assert(out + Seq::<u8>::empty() =~= Seq::<u8>::empty() + out);
    } else {
        assert(blocks.push(b)[i] == blocks[i]);
        let b0 = blocks[i];
        let out0 = mszip_payload_result(dict, b0.payload.skip(2), b0.usz as int)->Some_0;
        let dict2 = window_of(dict + out0);
        let c2 = spec_mszip_content_from(blocks, i + 1, dict2)->Some_0;
        assert(c == out0 + c2);
        crate::deflate::lemma_window_extend(dict + out0, c2);
        assert((dict + out0) + c2 =~= dict + (out0 + c2));
        assert(window_of(dict2 + c2) == window_of(dict + c));
        if i + 1 == blocks.len() {
            assert(c2 =~= Seq::<u8>::empty());
            assert(dict2 + c2 =~= dict2);
            assert(window_of(dict2) == dict2);
            assert(spec_dict_accepted(dict2));
        }
        lemma_mszip_content_push(blocks, b, i + 1, dict2);
        assert(out0 + (c2 + out) =~= (out0 + c2) + out);
    }
}

/// What a folder's block stream decompresses to under its scheme: the
/// plain payloads for an uncompressed folder, the chained MSZIP or LZX
/// outputs otherwise; `None` for Quantum, which is not supported, and for
/// the 32 MiB LZX window, which the decoder cannot be trusted with.
pub open spec fn spec_folder_content(ct: CompressionType, blocks: Seq<BlockModel>) -> Option<
    Seq<u8>,
> {
    match ct {
        CompressionType::Uncompressed => Some(spec_block_payloads(blocks).flatten()),
        CompressionType::MsZip => spec_mszip_content_from(blocks, 0, Seq::empty()),
        CompressionType::Lzx(w) => if w == 25 {
            None
        } else {
            spec_lzx_content_from(blocks, 0, w as int, Seq::empty(), Seq::empty())
        },
        CompressionType::Quantum(_, _) => None,
    }
}

} // verus!
