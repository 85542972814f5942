//! Reading an existing cabinet.
//!
//! `Cabinet::new` parses the header and the folder and file directories out
//! of the cabinet's bytes; folder content is decompressed when a folder or
//! file reader is opened, block by block with each block's checksum
//! verified, and the readers then serve and seek within the decompressed
//! bytes.

use vstd::prelude::*;
use vstd::string::StringExecFns;

use crate::bytes::{copy_range, get_u16_le, get_u32_le, get_u8};
use crate::checksum::block_checksum;
use crate::consts;
use crate::ctype::{ctype_wf, spec_ctype_from_bits, CompressionType};
use crate::datetime::{datetime_from_bits, spec_datetime_from_bits, DateTime};
use crate::error::CabError;
use crate::format::{
    spec_block_lens, spec_block_payloads, spec_blocks_checksums_ok, spec_blocks_sizes_ok,
    spec_folder_content, spec_lzx_content_from, spec_mszip_content_from, spec_parse_blocks,
    BlockModel,
};
use crate::strings::{dec_u64_string, hex_u32_string};
use crate::lzx::LzxDecoder;
use crate::mszip::MsZipDecompressor;
use crate::strings::{lossy_utf8, read_null_terminated_string, spec_find_nul};

verus! {

/// Metadata of one file stored in a cabinet.
pub struct FileEntry {
    pub name: String,
    pub datetime: Option<DateTime>,
    pub uncompressed_size: u32,
    pub attributes: u16,
    pub folder_index: u16,
    pub uncompressed_offset: u32,
}

/// Metadata of one folder of a cabinet.
pub struct FolderEntry {
    pub first_data_block_offset: u32,
    pub num_data_blocks: u16,
    pub compression_type: CompressionType,
    pub reserve_data: Vec<u8>,
    pub files: Vec<FileEntry>,
}

/// A parsed cabinet: its raw bytes and its directories.
pub struct Cabinet {
    pub data: Vec<u8>,
    pub cabinet_set_id: u16,
    pub cabinet_set_index: u16,
    pub data_reserve_size: u8,
    pub reserve_data: Vec<u8>,
    pub folders: Vec<FolderEntry>,
    pub files: Vec<FileEntry>,
    pub folder_offsets: Ghost<Seq<int>>,
    pub file_offsets: Ghost<Seq<int>>,
    pub folder_file_indices: Ghost<Seq<Seq<int>>>,
}

impl FileEntry {
    /// The file's name.
    pub fn name(&self) -> (r: &str)
        ensures
            r@ == self.name@,
    {
        self.name.as_str()
    }

    /// The file's timestamp, where the stored words held a real one.
    pub fn datetime(&self) -> (r: Option<DateTime>)
        ensures
            r == self.datetime,
    {
        self.datetime
    }

    /// The file's size when decompressed, in bytes.
    pub fn uncompressed_size(&self) -> (r: u32)
        ensures
            r == self.uncompressed_size,
    {
        self.uncompressed_size
    }

    /// Whether the "read-only" attribute bit is set.
    pub fn is_read_only(&self) -> (r: bool)
        ensures
            r == (self.attributes & consts::ATTR_READ_ONLY != 0),
    {
        self.attributes & consts::ATTR_READ_ONLY != 0
    }

    /// Whether the "hidden" attribute bit is set.
    pub fn is_hidden(&self) -> (r: bool)
        ensures
            r == (self.attributes & consts::ATTR_HIDDEN != 0),
    {
        self.attributes & consts::ATTR_HIDDEN != 0
    }

    /// Whether the "system file" attribute bit is set.
    pub fn is_system(&self) -> (r: bool)
        ensures
            r == (self.attributes & consts::ATTR_SYSTEM != 0),
    {
        self.attributes & consts::ATTR_SYSTEM != 0
    }

    /// Whether the "modified since last backup" attribute bit is set.
    pub fn is_archive(&self) -> (r: bool)
        ensures
            r == (self.attributes & consts::ATTR_ARCH != 0),
    {
        self.attributes & consts::ATTR_ARCH != 0
    }

    /// Whether the "execute after extraction" attribute bit is set.
    pub fn is_exec(&self) -> (r: bool)
        ensures
            r == (self.attributes & consts::ATTR_EXEC != 0),
    {
        self.attributes & consts::ATTR_EXEC != 0
    }

    /// Whether the "name is UTF" attribute bit is set.
    pub fn is_name_utf(&self) -> (r: bool)
        ensures
            r == (self.attributes & consts::ATTR_NAME_IS_UTF != 0),
    {
        self.attributes & consts::ATTR_NAME_IS_UTF != 0
    }

    /// A copy of the entry, field for field.
    fn duplicate(&self) -> (r: FileEntry)
        ensures
            r.name@ == self.name@,
            r.datetime == self.datetime,
            r.uncompressed_size == self.uncompressed_size,
            r.attributes == self.attributes,
            r.folder_index == self.folder_index,
            r.uncompressed_offset == self.uncompressed_offset,
    {
        FileEntry {
            name: self.name.clone(),
            datetime: self.datetime,
            uncompressed_size: self.uncompressed_size,
            attributes: self.attributes,
            folder_index: self.folder_index,
            uncompressed_offset: self.uncompressed_offset,
        }
    }
}

impl FolderEntry {
    /// The scheme this folder's data is compressed with.
    pub fn compression_type(&self) -> (r: CompressionType)
        ensures
            r == self.compression_type,
    {
        self.compression_type
    }

    /// How many data blocks store this folder's data.
    pub fn num_data_blocks(&self) -> (r: u16)
        ensures
            r == self.num_data_blocks,
    {
        self.num_data_blocks
    }

    /// The application-defined reserve bytes of this folder's entry.
    pub fn reserve_data(&self) -> (r: &Vec<u8>)
        ensures
            r@ == self.reserve_data@,
    {
        &self.reserve_data
    }

    /// The files stored in this folder, in directory order.
    pub fn file_entries(&self) -> (r: &Vec<FileEntry>)
        ensures
            r@ == self.files@,
    {
        &self.files
    }
}

/// Position after `n` null-terminated strings at `pos`, each at most 255
/// bytes before its terminator; `None` where one runs out.
pub open spec fn spec_skip_strings(data: Seq<u8>, pos: int, n: nat) -> Option<int>
    decreases n,
{
    if n == 0 {
        Some(pos)
    } else {
        match spec_find_nul(data, pos) {
            Option::None => Option::None,
            Option::Some(e) => if e - pos <= 255 {
                spec_skip_strings(data, e + 1, (n - 1) as nat)
            } else {
                Option::None
            },
        }
    }
}

/// The folder reserve length the header declares: byte 38 where the
/// reserve flag is set, zero otherwise.
pub open spec fn spec_folder_reserve_len(data: Seq<u8>) -> int {
    if crate::bytes::le16_at(data, 30) & consts::FLAG_RESERVE_PRESENT != 0 {
        data[38] as int
    } else {
        0
    }
}

/// Where the folder directory starts: after the fixed header, the optional
/// reserve data, and the skipped cabinet-set strings; `None` where they run
/// out.  Meaningful once the fixed 36 bytes are present.
pub open spec fn spec_folder_dir_start(data: Seq<u8>) -> Option<int> {
    let flags = crate::bytes::le16_at(data, 30);
    let rsv_present = flags & consts::FLAG_RESERVE_PRESENT != 0;
    let pos0: int = if rsv_present {
        40 + crate::bytes::le16_at(data, 36)
    } else {
        36
    };
    let nstr: nat = ((if flags & consts::FLAG_PREV_CABINET != 0 {
        2int
    } else {
        0int
    }) + (if flags & consts::FLAG_NEXT_CABINET != 0 {
        2int
    } else {
        0int
    })) as nat;
    if rsv_present && data.len() < 40 {
        Option::None
    } else if pos0 > data.len() {
        Option::None
    } else {
        spec_skip_strings(data, pos0, nstr)
    }
}

/// Position after `n` folder directory entries at `pos`; `None` where one
/// is truncated or its compression bitfield invalid.
pub open spec fn spec_folders_end(data: Seq<u8>, pos: int, n: nat, rsv: int) -> Option<int>
    decreases n,
{
    if n == 0 {
        Some(pos)
    } else if !(0 <= pos && pos + 8 + rsv <= data.len() && spec_ctype_from_bits(
        crate::bytes::le16_at(data, pos + 6),
    ) is Some) {
        Option::None
    } else {
        spec_folders_end(data, pos + 8 + rsv, (n - 1) as nat, rsv)
    }
}

/// Every one of `n` file entries at `pos` parses -- 16 fixed bytes and a
/// terminated name of at most 255 bytes -- and names a folder below
/// `num_folders`.
pub open spec fn spec_files_ok(data: Seq<u8>, pos: int, n: nat, num_folders: int) -> bool
    decreases n,
{
    if n == 0 {
        true
    } else {
        &&& 0 <= pos && pos + 16 <= data.len()
        &&& crate::bytes::le16_at(data, pos + 8) < num_folders
        &&& (spec_find_nul(data, pos + 16) matches Some(e) && e - (pos + 16) <= 255
            && spec_files_ok(data, e + 1, (n - 1) as nat, num_folders))
    }
}

/// The bytes parse as one whole cabinet, as section 6.1 lays it out: the
/// signature, size bound and version hold, the reserve data and
/// cabinet-set strings fit, every folder entry parses with a valid
/// compression bitfield, and every file entry parses and names a folder
/// that exists.
pub open spec fn spec_cabinet_parses(data: Seq<u8>) -> bool {
    &&& data.len() >= 36
    &&& crate::bytes::le32_at(data, 0) == consts::FILE_SIGNATURE
    &&& crate::bytes::le32_at(data, 8) <= consts::MAX_TOTAL_CAB_SIZE
    &&& (data[25] < consts::VERSION_MAJOR || (data[25] == consts::VERSION_MAJOR && data[24]
        <= consts::VERSION_MINOR))
    &&& (crate::bytes::le16_at(data, 30) & consts::FLAG_RESERVE_PRESENT != 0 ==> data.len() >= 40
        && 40 + crate::bytes::le16_at(data, 36) <= data.len())
    &&& (spec_folder_dir_start(data) matches Some(ds) && {
        &&& spec_folders_end(
            data,
            ds,
            crate::bytes::le16_at(data, 26) as nat,
            spec_folder_reserve_len(data),
        ) is Some
        &&& crate::bytes::le32_at(data, 16) <= data.len()
        &&& spec_files_ok(
            data,
            crate::bytes::le32_at(data, 16) as int,
            crate::bytes::le16_at(data, 28) as nat,
            crate::bytes::le16_at(data, 26) as int,
        )
    })
}

/// The folder entry at `off` of `data` holds exactly `f`'s fields.
pub open spec fn spec_folder_entry_ties(data: Seq<u8>, off: int, rsv: int, f: FolderEntry) -> bool {
    &&& 0 <= off && off + 8 + rsv <= data.len()
    &&& f.first_data_block_offset == crate::bytes::le32_at(data, off)
    &&& f.num_data_blocks == crate::bytes::le16_at(data, off + 4)
    &&& spec_ctype_from_bits(crate::bytes::le16_at(data, off + 6)) == Some(f.compression_type)
    &&& f.reserve_data@ == data.subrange(off + 8, off + 8 + rsv)
}

/// The file entry at `off` of `data` holds exactly `f`'s fields.
pub open spec fn spec_file_entry_ties(data: Seq<u8>, off: int, f: FileEntry) -> bool {
    &&& 0 <= off && off + 16 <= data.len()
    &&& f.uncompressed_size == crate::bytes::le32_at(data, off)
    &&& f.uncompressed_offset == crate::bytes::le32_at(data, off + 4)
    &&& f.folder_index == crate::bytes::le16_at(data, off + 8)
    &&& f.datetime == spec_datetime_from_bits(
        crate::bytes::le16_at(data, off + 10),
        crate::bytes::le16_at(data, off + 12),
    )
    &&& f.attributes == crate::bytes::le16_at(data, off + 14)
    &&& (spec_find_nul(data, off + 16) matches Some(e) && e - (off + 16) <= 255 && f.name@
        == lossy_utf8(data.subrange(off + 16, e)))
}

/// Two file entries carry the same fields.
pub open spec fn spec_file_fields_eq(a: FileEntry, b: FileEntry) -> bool {
    &&& a.name@ == b.name@
    &&& a.datetime == b.datetime
    &&& a.uncompressed_size == b.uncompressed_size
    &&& a.attributes == b.attributes
    &&& a.folder_index == b.folder_index
    &&& a.uncompressed_offset == b.uncompressed_offset
}

/// Every parsed entry is tied to its bytes: the folder entries lie
/// consecutively from the directory start and the file entries from the
/// header's first-file offset, each holding exactly the fields read back;
/// and each folder's file list mirrors, field for field and in directory
/// order, the flat entries that name it.
pub open spec fn spec_cabinet_ties(cab: Cabinet, data: Seq<u8>) -> bool {
    let rsv = spec_folder_reserve_len(data);
    &&& cab.folder_offsets@.len() == cab.folders@.len()
    &&& (cab.folders@.len() > 0 ==> (spec_folder_dir_start(data) matches Some(ds)
        && cab.folder_offsets@[0] == ds))
    &&& forall|k: int|
        0 < k < cab.folders@.len() ==> #[trigger] cab.folder_offsets@[k] == cab.folder_offsets@[
            k - 1
        ] + 8 + rsv
    &&& forall|k: int|
        0 <= k < cab.folders@.len() ==> spec_folder_entry_ties(
            data,
            #[trigger] cab.folder_offsets@[k],
            rsv,
            cab.folders@[k],
        )
    &&& cab.file_offsets@.len() == cab.files@.len()
    &&& (cab.files@.len() > 0 ==> cab.file_offsets@[0] == crate::bytes::le32_at(data, 16))
    &&& forall|j: int|
        0 < j < cab.files@.len() ==> (spec_find_nul(data, cab.file_offsets@[j - 1] + 16)
            matches Some(e) && #[trigger] cab.file_offsets@[j] == e + 1)
    &&& forall|j: int|
        0 <= j < cab.files@.len() ==> spec_file_entry_ties(
            data,
            #[trigger] cab.file_offsets@[j],
            cab.files@[j],
        )
    &&& cab.folder_file_indices@.len() == cab.folders@.len()
    &&& forall|k: int|
        0 <= k < cab.folders@.len() ==> (#[trigger] cab.folder_file_indices@[k]).len()
            == cab.folders@[k].files@.len()
    &&& forall|k: int, t: int|
        0 <= k < cab.folders@.len() && 0 <= t < cab.folder_file_indices@[k].len() ==> {
            let fj = #[trigger] cab.folder_file_indices@[k][t];
            &&& 0 <= fj < cab.files@.len()
            &&& cab.files@[fj].folder_index == k
            &&& (t > 0 ==> cab.folder_file_indices@[k][t - 1] < fj)
            &&& spec_file_fields_eq(cab.folders@[k].files@[t], cab.files@[fj])
        }
}

/// Every file names a folder that exists, every folder's file list carries
/// that folder's index, and every folder's compression fields are in range.
pub open spec fn cab_wf(cab: Cabinet) -> bool {
    &&& forall|i: int|
        0 <= i < cab.files@.len() ==> (#[trigger] cab.files@[i]).folder_index < cab.folders@.len()
    &&& forall|k: int, j: int|
        0 <= k < cab.folders@.len() && 0 <= j < cab.folders@[k].files@.len() ==> (
        #[trigger] cab.folders@[k].files@[j]).folder_index == k
    &&& forall|k: int|
        0 <= k < cab.folders@.len() ==> ctype_wf((#[trigger] cab.folders@[k]).compression_type)
}

/// The first entry with the given name, scanning from `i`.
pub open spec fn spec_find_file(files: Seq<FileEntry>, name: Seq<char>, i: int) -> Option<int>
    decreases files.len() - i,
{
    if i < 0 || i >= files.len() {
        None
    } else if files[i].name@ == name {
        Some(i)
    } else {
        spec_find_file(files, name, i + 1)
    }
}

/// A found file index lies within the entry list.
proof fn lemma_find_file_in_bounds(files: Seq<FileEntry>, name: Seq<char>, i: int)
    ensures
        spec_find_file(files, name, i) matches Some(e) ==> i <= e < files.len(),
    decreases files.len() - i,
{
    if 0 <= i < files.len() && files[i].name@ != name {
        lemma_find_file_in_bounds(files, name, i + 1);
    }
}

/// One data block as held in memory while a folder is decompressed.
struct RawBlock {
    checksum: u32,
    csize: u16,
    usz: u16,
    reserve: Vec<u8>,
    payload: Vec<u8>,
}

impl RawBlock {
    spec fn model(&self) -> BlockModel {
        BlockModel {
            checksum: self.checksum,
            csize: self.csize,
            usz: self.usz,
            reserve: self.reserve@,
            payload: self.payload@,
        }
    }
}

/// `rest` prefixed by the blocks already parsed.
spec fn prepend_blocks(done: Seq<BlockModel>, rest: Option<Seq<BlockModel>>) -> Option<
    Seq<BlockModel>,
> {
    match rest {
        None => None,
        Some(r) => Some(done + r),
    }
}

/// `rest` prefixed by the content already decompressed.
spec fn prepend_bytes(done: Seq<u8>, rest: Option<Seq<u8>>) -> Option<Seq<u8>> {
    match rest {
        None => None,
        Some(r) => Some(done + r),
    }
}

/// The folder's block stream parses whole at its first-block offset, every
/// stored checksum checks out, no block overstates the block cap, and the
/// stream decompresses under the folder's scheme.
pub open spec fn spec_folder_readable(cab: Cabinet, k: int) -> bool {
    let f = cab.folders@[k];
    spec_parse_blocks(
        cab.data@,
        f.first_data_block_offset as int,
        f.num_data_blocks as nat,
        cab.data_reserve_size as int,
    ) matches Some(bl) && spec_blocks_checksums_ok(bl) && spec_blocks_sizes_ok(bl)
        && spec_folder_content(f.compression_type, bl) is Some
}

/// A reader over the decompressed content of one folder.
pub struct FolderReader {
    pub content: Vec<u8>,
    pub pos: usize,
}

impl FolderReader {
    /// All remaining bytes of the folder's decompressed content.
    pub fn read_to_end(&mut self) -> (r: Vec<u8>)
        requires
            old(self).pos <= old(self).content@.len(),
        ensures
            r@ == old(self).content@.skip(old(self).pos as int),
            final(self).content@ == old(self).content@,
            final(self).pos == final(self).content@.len(),
    {
        let n = self.content.len();
        let ghost p = self.pos as int;
        let r = copy_range(&self.content, self.pos, n - self.pos);
        proof {
            assert(r@ =~= self.content@.skip(p));
        }
        self.pos = n;
        r
    }

    /// Moves the read position to the given offset of the decompressed
    /// folder content; rejects offsets past its end.
    pub fn seek_to_uncompressed_offset(&mut self, new_offset: u64) -> (r: Result<(), CabError>)
        ensures
            final(self).content@ == old(self).content@,
            (r is Ok <==> new_offset <= old(self).content@.len()),
            (r is Ok ==> final(self).pos == new_offset),
            (r is Err ==> final(self).pos == old(self).pos),
    {
        let n = self.content.len();
        if new_offset > n as u64 {
            return Err(CabError::InvalidInput("Seek beyond folder content".to_owned()));
        }
        self.pos = new_offset as usize;
        Ok(())
    }
}

/// A seekable reader over the decompressed bytes of one file.
pub struct FileReader {
    pub content: Vec<u8>,
    pub pos: usize,
}

/// Where a seek counts from.
pub enum SeekPos {
    /// An absolute offset from the start of the file.
    Start(u64),
    /// A signed offset from the current position.
    Current(i64),
    /// A signed offset from the end of the file.
    End(i64),
}

/// The absolute position a seek resolves to.
pub open spec fn spec_seek_target(pos: SeekPos, cur: int, size: int) -> int {
    match pos {
        SeekPos::Start(o) => o as int,
        SeekPos::Current(d) => cur + d,
        SeekPos::End(d) => size + d,
    }
}

impl FileReader {
    /// At most `want` of the next bytes of the file; empty at end of file.
    pub fn read(&mut self, want: usize) -> (r: Vec<u8>)
        requires
            old(self).pos <= old(self).content@.len(),
        ensures
            final(self).content@ == old(self).content@,
            r@ == old(self).content@.subrange(
                old(self).pos as int,
                old(self).pos + r@.len(),
            ),
            r@.len() == vstd::math::min(want as int, old(self).content@.len() - old(self).pos),
            final(self).pos == old(self).pos + r@.len(),
    {
        let n = self.content.len();
        let take = if want < n - self.pos {
            want
        } else {
            n - self.pos
        };
        let r = copy_range(&self.content, self.pos, take);
        self.pos = self.pos + take;
        r
    }

    /// All remaining bytes of the file.
    pub fn read_to_end(&mut self) -> (r: Vec<u8>)
        requires
            old(self).pos <= old(self).content@.len(),
        ensures
            final(self).content@ == old(self).content@,
            r@ == old(self).content@.skip(old(self).pos as int),
            final(self).pos == final(self).content@.len(),
    {
        let n = self.content.len();
        let ghost p = self.pos as int;
        let r = copy_range(&self.content, self.pos, n - self.pos);
        proof {
            assert(r@ =~= self.content@.skip(p));
        }
        self.pos = n;
        r
    }

    /// Moves the read position; a target before the start or past the end
    /// of the file is rejected and the position kept.
    pub fn seek(&mut self, pos: SeekPos) -> (r: Result<u64, CabError>)
        requires
            old(self).pos <= old(self).content@.len(),
            old(self).content@.len() <= 0x7fffffff,
        ensures
            final(self).content@ == old(self).content@,
            ({
                let target = spec_seek_target(
                    pos,
                    old(self).pos as int,
                    old(self).content@.len() as int,
                );
                &&& (r is Ok <==> 0 <= target <= old(self).content@.len())
                &&& (r matches Ok(p) ==> p == target && final(self).pos == target)
                &&& (r is Err ==> final(self).pos == old(self).pos && (r matches Err(e)
                    && e.is_invalid_input()))
            }),
    {
        let n = self.content.len();
        let target: i128 = match pos {
            SeekPos::Start(o) => o as i128,
            SeekPos::Current(d) => self.pos as i128 + d as i128,
            SeekPos::End(d) => n as i128 + d as i128,
        };
        if target < 0 || target > n as i128 {
            return Err(CabError::InvalidInput("Seek out of bounds".to_owned()));
        }
        self.pos = target as usize;
        Ok(target as u64)
    }
}

/// Parses the folder directory entry at `pos`: on success, the entry (with
/// an empty file list) and the position just past it.
pub fn parse_folder_entry(data: &Vec<u8>, pos: usize, reserve_size: usize) -> (r: Result<
    (FolderEntry, usize),
    CabError,
>)
    ensures
        (r matches Ok(p) ==> {
            let (e, next) = p;
            &&& pos + 8 + reserve_size <= data@.len()
            &&& next == pos + 8 + reserve_size
            &&& e.first_data_block_offset == crate::bytes::le32_at(data@, pos as int)
            &&& e.num_data_blocks == crate::bytes::le16_at(data@, pos + 4)
            &&& spec_ctype_from_bits(crate::bytes::le16_at(data@, pos + 6)) == Some(
                e.compression_type,
            )
            &&& ctype_wf(e.compression_type)
            &&& e.reserve_data@ == data@.subrange(pos + 8, pos + 8 + reserve_size)
            &&& e.files@.len() == 0
        }),
        (r is Err <==> !(pos + 8 + reserve_size <= data@.len() && spec_ctype_from_bits(
            crate::bytes::le16_at(data@, pos + 6),
        ) is Some)),
        (r matches Err(e) ==> e.is_invalid_data()),
{
    let n = data.len();
    if pos > n || n - pos < 8 || n - pos - 8 < reserve_size {
        return Err(CabError::InvalidData("Truncated folder entry".to_owned()));
    }
    let first_data_block_offset = get_u32_le(data, pos);
    let num_data_blocks = get_u16_le(data, pos + 4);
    let compression_bits = get_u16_le(data, pos + 6);
    let compression_type = match CompressionType::from_bitfield(compression_bits) {
        Ok(ct) => ct,
        Err(e) => {
            return Err(e);
        },
    };
    let reserve_data = copy_range(data, pos + 8, reserve_size);
    let entry = FolderEntry {
        first_data_block_offset,
        num_data_blocks,
        compression_type,
        reserve_data,
        files: Vec::new(),
    };
    Ok((entry, pos + 8 + reserve_size))
}

/// Parses the file directory entry at `pos`: on success, the entry and the
/// position just past its name's terminator.
pub fn parse_file_entry(data: &Vec<u8>, pos: usize) -> (r: Result<(FileEntry, usize), CabError>)
    ensures
        (r matches Ok(p) ==> {
            let (e, next) = p;
            &&& pos + 16 <= data@.len()
            &&& next <= data@.len()
            &&& e.uncompressed_size == crate::bytes::le32_at(data@, pos as int)
            &&& e.uncompressed_offset == crate::bytes::le32_at(data@, pos + 4)
            &&& e.folder_index == crate::bytes::le16_at(data@, pos + 8)
            &&& e.datetime == spec_datetime_from_bits(
                crate::bytes::le16_at(data@, pos + 10),
                crate::bytes::le16_at(data@, pos + 12),
            )
            &&& e.attributes == crate::bytes::le16_at(data@, pos + 14)
            &&& spec_find_nul(data@, pos + 16) == Some(next - 1)
            &&& e.name@ == lossy_utf8(data@.subrange(pos + 16, next - 1))
        }),
        (r is Err <==> !(pos + 16 <= data@.len() && (spec_find_nul(data@, pos + 16)
            matches Some(nul) && nul - (pos + 16) <= 255))),
        (r matches Err(e) ==> e.is_invalid_data()),
{
    let n = data.len();
    if pos > n || n - pos < 16 {
        return Err(CabError::InvalidData("Truncated file entry".to_owned()));
    }
    let uncompressed_size = get_u32_le(data, pos);
    let uncompressed_offset = get_u32_le(data, pos + 4);
    let folder_index = get_u16_le(data, pos + 8);
    let date = get_u16_le(data, pos + 10);
    let time = get_u16_le(data, pos + 12);
    let datetime = datetime_from_bits(date, time);
    let attributes = get_u16_le(data, pos + 14);
    let (name, next) = match read_null_terminated_string(data, pos + 16) {
        Ok(p) => p,
        Err(e) => {
            return Err(e);
        },
    };
    let entry = FileEntry {
        name,
        datetime,
        uncompressed_size,
        attributes,
        folder_index,
        uncompressed_offset,
    };
    Ok((entry, next))
}

impl Cabinet {
    /// Parses a cabinet out of its bytes: the signature, version, counts,
    /// optional reserve data, and the folder and file directories.  Succeeds
    /// if and only if the bytes parse as one whole cabinet
    /// (`spec_cabinet_parses`); on success every parsed entry holds exactly
    /// its directory bytes' fields (`spec_cabinet_ties`), every file
    /// entry's folder index is in bounds, the counts and set fields are
    /// exactly the header's, and the raw bytes are kept for reading folder
    /// data.
    #[verifier::rlimit(100)]
    pub fn new(data: Vec<u8>) -> (r: Result<Cabinet, CabError>)
        ensures
            (r is Ok <==> spec_cabinet_parses(data@)),
            (r matches Err(e) ==> e.is_invalid_data()),
            (r matches Ok(cab) ==> {
                &&& cab.data@ == data@
                &&& crate::bytes::le32_at(data@, 8) <= consts::MAX_TOTAL_CAB_SIZE
                &&& cab.folders@.len() == crate::bytes::le16_at(data@, 26)
                &&& cab.files@.len() == crate::bytes::le16_at(data@, 28)
                &&& cab.cabinet_set_id == crate::bytes::le16_at(data@, 32)
                &&& cab.cabinet_set_index == crate::bytes::le16_at(data@, 34)
                &&& cab.data_reserve_size as int == (if crate::bytes::le16_at(data@, 30)
                    & consts::FLAG_RESERVE_PRESENT != 0 {
                    data@[39] as int
                } else {
                    0
                })
                &&& spec_cabinet_ties(cab, data@)
                &&& cab_wf(cab)
            }),
    {
        let n = data.len();
        if n < 36 {
            return Err(CabError::InvalidData("Not a cabinet file (truncated header)".to_owned()));
        }
        let signature = get_u32_le(&data, 0);
        if signature != consts::FILE_SIGNATURE {
            return Err(CabError::InvalidData(
                "Not a cabinet file (invalid file signature)".to_owned(),
            ));
        }
        let total_size = get_u32_le(&data, 8);
        if total_size > consts::MAX_TOTAL_CAB_SIZE {
            return Err(CabError::InvalidData("Cabinet total size field is too large".to_owned()));
        }
        let first_file_offset = get_u32_le(&data, 16);
        let minor_version = get_u8(&data, 24);
        let major_version = get_u8(&data, 25);
        if major_version > consts::VERSION_MAJOR || (major_version == consts::VERSION_MAJOR
            && minor_version > consts::VERSION_MINOR) {
            return Err(CabError::InvalidData("Cabinet version is not supported".to_owned()));
        }
        let num_folders = get_u16_le(&data, 26) as usize;
        let num_files = get_u16_le(&data, 28) as usize;
        let flags = get_u16_le(&data, 30);
        let cabinet_set_id = get_u16_le(&data, 32);
        let cabinet_set_index = get_u16_le(&data, 34);
        let mut pos: usize = 36;
        let mut header_reserve_size: usize = 0;
        let mut folder_reserve_size: usize = 0;
        let mut data_reserve_size: u8 = 0;
        if flags & consts::FLAG_RESERVE_PRESENT != 0 {
            if n - pos < 4 {
                return Err(CabError::InvalidData("Truncated reserve header".to_owned()));
            }
            header_reserve_size = get_u16_le(&data, 36) as usize;
            folder_reserve_size = get_u8(&data, 38) as usize;
            data_reserve_size = get_u8(&data, 39);
            pos = 40;
        }
        if n - pos < header_reserve_size {
            return Err(CabError::InvalidData("Truncated header reserve data".to_owned()));
        }
        let reserve_data = copy_range(&data, pos, header_reserve_size);
        pos = pos + header_reserve_size;
        let nstr: usize = (if flags & consts::FLAG_PREV_CABINET != 0 {
            2
        } else {
            0
        }) + (if flags & consts::FLAG_NEXT_CABINET != 0 {
            2
        } else {
            0
        });
        proof {
            assert(spec_folder_dir_start(data@) == spec_skip_strings(
                data@,
                pos as int,
                nstr as nat,
            ));
        }
        let mut c: usize = 0;
        while c < nstr
            invariant
                c <= nstr,
                pos <= n == data@.len(),
                spec_folder_dir_start(data@) == spec_skip_strings(
                    data@,
                    pos as int,
                    (nstr - c) as nat,
                ),
            decreases nstr - c,
        {
            match read_null_terminated_string(&data, pos) {
                Ok(p) => {
                    pos = p.1;
                },
                Err(e) => {
                    proof {
                        assert(spec_skip_strings(data@, pos as int, (nstr - c) as nat) is None);
                    }
                    return Err(e);
                },
            }
            c = c + 1;
        }
        let ghost ds: int = pos as int;
        proof {
            assert(spec_folder_dir_start(data@) == Some(ds));
            assert(folder_reserve_size as int == spec_folder_reserve_len(data@));
        }
        let mut folders: Vec<FolderEntry> = Vec::new();
        let ghost mut fo_offs: Seq<int> = Seq::empty();
        let mut k: usize = 0;
        while k < num_folders
            invariant
                k <= num_folders,
                folders@.len() == k,
                fo_offs.len() == k,
                pos <= data@.len() == n,
                num_folders == crate::bytes::le16_at(data@, 26) as usize,
                spec_folder_dir_start(data@) == Some(ds),
                folder_reserve_size as int == spec_folder_reserve_len(data@),
                (k == 0 ==> pos as int == ds),
                (k > 0 ==> pos as int == fo_offs[k - 1] + 8 + folder_reserve_size),
                (k > 0 ==> fo_offs[0] == ds),
                spec_folders_end(
                    data@,
                    ds,
                    num_folders as nat,
                    folder_reserve_size as int,
                ) == spec_folders_end(
                    data@,
                    pos as int,
                    (num_folders - k) as nat,
                    folder_reserve_size as int,
                ),
                forall|q: int|
                    0 < q < k ==> #[trigger] fo_offs[q] == fo_offs[q - 1] + 8
                        + folder_reserve_size,
                forall|q: int|
                    0 <= q < k ==> spec_folder_entry_ties(
                        data@,
                        #[trigger] fo_offs[q],
                        folder_reserve_size as int,
                        folders@[q],
                    ),
                forall|i: int|
                    0 <= i < k ==> (#[trigger] folders@[i]).files@.len() == 0 && ctype_wf(
                        folders@[i].compression_type,
                    ),
            decreases num_folders - k,
        {
            match parse_folder_entry(&data, pos, folder_reserve_size) {
                Ok(p) => {
                    proof {
                        fo_offs = fo_offs.push(pos as int);
                    }
                    folders.push(p.0);
                    pos = p.1;
                },
                Err(e) => {
                    proof {
                        assert(spec_folders_end(
                            data@,
                            pos as int,
                            (num_folders - k) as nat,
                            folder_reserve_size as int,
                        ) is None);
                    }
                    return Err(e);
                },
            }
            k = k + 1;
        }
        let mut files: Vec<FileEntry> = Vec::new();
        let ghost mut fi_offs: Seq<int> = Seq::empty();
        let ghost mut groups: Seq<Seq<int>> = Seq::new(
            folders@.len() as nat,
            |q: int| Seq::<int>::empty(),
        );
        let mut fpos = first_file_offset as usize;
        if fpos > n {
            return Err(CabError::InvalidData("File directory offset out of bounds".to_owned()));
        }
        let ghost ffo0: int = fpos as int;
        let mut j: usize = 0;
        while j < num_files
            invariant
                j <= num_files,
                files@.len() == j,
                fi_offs.len() == j,
                fpos <= data@.len() == n,
                folders@.len() == num_folders,
                groups.len() == num_folders,
                ffo0 == crate::bytes::le32_at(data@, 16),
                num_folders == crate::bytes::le16_at(data@, 26) as usize,
                num_files == crate::bytes::le16_at(data@, 28) as usize,
                folder_reserve_size as int == spec_folder_reserve_len(data@),
                spec_files_ok(data@, ffo0, num_files as nat, num_folders as int)
                    <==> spec_files_ok(
                    data@,
                    fpos as int,
                    (num_files - j) as nat,
                    num_folders as int,
                ),
                (j == 0 ==> fpos as int == ffo0),
                (j > 0 ==> fi_offs[0] == ffo0),
                (j > 0 ==> (spec_find_nul(data@, fi_offs[j - 1] + 16) matches Some(e) && fpos
                    == e + 1)),
                forall|q: int|
                    0 < q < j ==> (spec_find_nul(data@, fi_offs[q - 1] + 16) matches Some(e)
                        && #[trigger] fi_offs[q] == e + 1),
                forall|q: int|
                    0 <= q < j ==> spec_file_entry_ties(data@, #[trigger] fi_offs[q], files@[q]),
                forall|i: int|
                    0 <= i < j ==> (#[trigger] files@[i]).folder_index < folders@.len(),
                forall|ki: int, ji: int|
                    0 <= ki < folders@.len() && 0 <= ji < folders@[ki].files@.len() ==> (
                    #[trigger] folders@[ki].files@[ji]).folder_index == ki,
                forall|ki: int|
                    0 <= ki < folders@.len() ==> ctype_wf(
                        (#[trigger] folders@[ki]).compression_type,
                    ),
                forall|q: int|
                    0 <= q < folders@.len() ==> spec_folder_entry_ties(
                        data@,
                        #[trigger] fo_offs[q],
                        folder_reserve_size as int,
                        folders@[q],
                    ),
                fo_offs.len() == num_folders,
                (num_folders > 0 ==> fo_offs[0] == ds),
                spec_folder_dir_start(data@) == Some(ds),
                forall|q: int|
                    0 < q < num_folders ==> #[trigger] fo_offs[q] == fo_offs[q - 1] + 8
                        + folder_reserve_size,
                forall|ki: int|
                    0 <= ki < folders@.len() ==> (#[trigger] groups[ki]).len() == folders@[
                        ki
                    ].files@.len(),
                forall|ki: int, t: int|
                    0 <= ki < folders@.len() && 0 <= t < groups[ki].len() ==> {
                        let fj = #[trigger] groups[ki][t];
                        &&& 0 <= fj < j
                        &&& files@[fj].folder_index == ki
                        &&& (t > 0 ==> groups[ki][t - 1] < fj)
                        &&& spec_file_fields_eq(folders@[ki].files@[t], files@[fj])
                    },
            decreases num_files - j,
        {
            let (entry, next) = match parse_file_entry(&data, fpos) {
                Ok(p) => p,
                Err(e) => {
                    proof {
                        assert(!spec_files_ok(
                            data@,
                            fpos as int,
                            (num_files - j) as nat,
                            num_folders as int,
                        ));
                    }
                    return Err(e);
                },
            };
            let folder_index = entry.folder_index as usize;
            if folder_index >= folders.len() {
                proof {
                    assert(!spec_files_ok(
                        data@,
                        fpos as int,
                        (num_files - j) as nat,
                        num_folders as int,
                    ));
                }
                return Err(CabError::InvalidData("File entry folder index out of bounds".to_owned()));
            }
            let ghost entry_snap = entry;
            let copy = entry.duplicate();
            let ghost folders_old = folders@;
            let ghost groups_old = groups;
            let fo = vstd::std_specs::vec::vec_index_mut(&mut folders, folder_index);
            fo.files.push(copy);
            files.push(entry);
            proof {
                fi_offs = fi_offs.push(fpos as int);
                groups = groups.update(
                    folder_index as int,
                    groups[folder_index as int].push(j as int),
                );
                assert(folders@ =~= folders_old.update(
                    folder_index as int,
                    folders@[folder_index as int],
                ));
                let newfi = folders@[folder_index as int].files@;
                assert(newfi =~= folders_old[folder_index as int].files@.push(newfi.last()));
                assert(spec_file_fields_eq(newfi.last(), files@[j as int]));
                assert forall|ki: int|
                    0 <= ki < folders@.len() implies spec_folder_entry_ties(
                    data@,
                    #[trigger] fo_offs[ki],
                    folder_reserve_size as int,
                    folders@[ki],
                ) by {
                    if ki != folder_index as int {
                        assert(folders@[ki] == folders_old[ki]);
                    }
                }
                assert forall|ki: int, t: int|
                    0 <= ki < folders@.len() && 0 <= t < groups[ki].len() implies {
                    let fj = #[trigger] groups[ki][t];
                    &&& 0 <= fj < j + 1
                    &&& files@[fj].folder_index == ki
                    &&& (t > 0 ==> groups[ki][t - 1] < fj)
                    &&& spec_file_fields_eq(folders@[ki].files@[t], files@[fj])
                } by {
                    if ki == folder_index as int {
                        if t < groups[ki].len() - 1 {
                            assert(groups[ki][t] == groups_old[ki][t]);
                            assert(folders@[ki].files@[t] == folders_old[ki].files@[t]);
                        } else {
                            assert(groups[ki][t] == j as int);
                        }
                    } else {
                        assert(groups[ki] == groups_old[ki]);
                        assert(folders@[ki] == folders_old[ki]);
                    }
                }
            }
            fpos = next;
            j = j + 1;
        }
        proof {
            assert(spec_files_ok(data@, fpos as int, 0, num_folders as int));
            assert(spec_folders_end(
                data@,
                pos as int,
                0,
                folder_reserve_size as int,
            ) is Some);
        }
        let cab = Cabinet {
            data,
            cabinet_set_id,
            cabinet_set_index,
            data_reserve_size,
            reserve_data,
            folders,
            files,
            folder_offsets: Ghost(fo_offs),
            file_offsets: Ghost(fi_offs),
            folder_file_indices: Ghost(groups),
        };
        Ok(cab)
    }

    /// The 16-bit tag grouping this cabinet's set.
    pub fn cabinet_set_id(&self) -> (r: u16)
        ensures
            r == self.cabinet_set_id,
    {
        self.cabinet_set_id
    }

    /// This cabinet's index within its set.
    pub fn cabinet_set_index(&self) -> (r: u16)
        ensures
            r == self.cabinet_set_index,
    {
        self.cabinet_set_index
    }

    /// The application-defined reserve bytes of the header.
    pub fn reserve_data(&self) -> (r: &Vec<u8>)
        ensures
            r@ == self.reserve_data@,
    {
        &self.reserve_data
    }

    /// The folders of this cabinet, in directory order.
    pub fn folder_entries(&self) -> (r: &Vec<FolderEntry>)
        ensures
            r@ == self.folders@,
    {
        &self.folders
    }

    /// The first file entry with the given name, if any.
    pub fn get_file_entry(&self, name: &str) -> (r: Option<&FileEntry>)
        ensures
            (r matches Some(e) ==> spec_find_file(self.files@, name@, 0) matches Some(i) && *e
                == self.files@[i]),
            (r is None ==> spec_find_file(self.files@, name@, 0) is None),
    {
        let wanted: String = name.to_owned();
        let m = self.files.len();
        let mut i: usize = 0;
        while i < m
            invariant
                i <= m == self.files@.len(),
                wanted@ == name@,
                spec_find_file(self.files@, name@, 0) == spec_find_file(self.files@, name@, i as int),
            decreases m - i,
        {
            if self.files[i].name.eq(&wanted) {
                return Some(&self.files[i]);
            }
            i = i + 1;
        }
        None
    }

    /// Decompresses the folder at `index` and returns a reader over its
    /// content.  On success the content is exactly what the folder's block
    /// stream holds: the blocks parse at the folder's first-block offset,
    /// every stored checksum checks out, and the content is the stream's
    /// decompression under the folder's scheme.
    pub fn read_folder(&self, index: usize) -> (r: Result<FolderReader, CabError>)
        requires
            cab_wf(*self),
        ensures
            (r matches Ok(fr) ==> {
                &&& index < self.folders@.len()
                &&& ({
                    let f = self.folders@[index as int];
                    &&& spec_parse_blocks(
                        self.data@,
                        f.first_data_block_offset as int,
                        f.num_data_blocks as nat,
                        self.data_reserve_size as int,
                    ) matches Some(blocks)
                    &&& spec_blocks_checksums_ok(blocks)
                    &&& spec_folder_content(f.compression_type, blocks) == Some(fr.content@)
                })
                &&& fr.pos == 0
            }),
            (r is Err <==> !(index < self.folders@.len() && spec_folder_readable(
                *self,
                index as int,
            ))),
            (r matches Err(e) ==> e.is_invalid_input() || e.is_invalid_data()
                || e.is_unsupported()),
            (index < self.folders@.len() && self.folders@[index as int].compression_type
                is Quantum && (spec_parse_blocks(
                self.data@,
                self.folders@[index as int].first_data_block_offset as int,
                self.folders@[index as int].num_data_blocks as nat,
                self.data_reserve_size as int,
            ) matches Some(bl) && spec_blocks_checksums_ok(bl) && spec_blocks_sizes_ok(bl)) ==> (
            r matches Err(e) && e.is_unsupported())),
            (r matches Err(e) ==> !e.is_not_found()),
    {
        if index >= self.folders.len() {
            return Err(CabError::InvalidInput("Folder index is out of range".to_owned()));
        }
        let f = &self.folders[index];
        let raws = match read_raw_blocks(
            &self.data,
            f.first_data_block_offset,
            f.num_data_blocks,
            self.data_reserve_size,
        ) {
            Ok(v) => v,
            Err(e) => {
                return Err(e);
            },
        };
        let content = match decompress_blocks(f.compression_type, &raws) {
            Ok(v) => v,
            Err(e) => {
                return Err(e);
            },
        };
        Ok(FolderReader { content, pos: 0 })
    }

    /// Opens a reader over the decompressed bytes of the file with the
    /// given name: the slice of its folder's content at the file's offset,
    /// clipped to what the folder holds.  Fails with a not-found error if
    /// and only if no file entry carries the name.
    pub fn read_file(&self, name: &str) -> (r: Result<FileReader, CabError>)
        requires
            cab_wf(*self),
        ensures
            (spec_find_file(self.files@, name@, 0) is None <==> (r matches Err(e)
                && e.is_not_found())),
            (r matches Err(e) ==> e.is_not_found() || e.is_invalid_input() || e.is_invalid_data()
                || e.is_unsupported()),
            (r is Ok <==> (spec_find_file(self.files@, name@, 0) matches Some(i)
                && spec_folder_readable(*self, self.files@[i].folder_index as int))),
            (r matches Ok(fr) ==> {
                &&& spec_find_file(self.files@, name@, 0) matches Some(i)
                &&& ({
                    let e = self.files@[spec_find_file(self.files@, name@, 0)->Some_0];
                    let f = self.folders@[e.folder_index as int];
                    &&& spec_parse_blocks(
                        self.data@,
                        f.first_data_block_offset as int,
                        f.num_data_blocks as nat,
                        self.data_reserve_size as int,
                    ) matches Some(blocks)
                    &&& spec_folder_content(f.compression_type, blocks) matches Some(content)
                    &&& fr.content@ == content.subrange(
                        vstd::math::min(e.uncompressed_offset as int, content.len() as int),
                        vstd::math::min(
                            e.uncompressed_offset + e.uncompressed_size,
                            content.len() as int,
                        ),
                    )
                })
                &&& fr.pos == 0
            }),
    {
        let entry = match self.get_file_entry(name) {
            Some(e) => e,
            None => {
                return Err(CabError::NotFound("No such file in cabinet".to_owned()));
            },
        };
        let offset = entry.uncompressed_offset;
        let size = entry.uncompressed_size;
        let folder_index = entry.folder_index as usize;
        proof {
            lemma_find_file_in_bounds(self.files@, name@, 0);
            let i = spec_find_file(self.files@, name@, 0)->Some_0;
            assert(self.files@[i].folder_index == entry.folder_index);
        }
        let folder_reader = match self.read_folder(folder_index) {
            Ok(fr) => fr,
            Err(e) => {
                proof {
                    assert(!spec_folder_readable(*self, folder_index as int));
                }
                return Err(e);
            },
        };
        proof {
            assert(spec_folder_readable(*self, folder_index as int));
        }
        let content = folder_reader.content;
        let n = content.len();
        let start = if (offset as usize) < n {
            offset as usize
        } else {
            n
        };
        let end_wide = offset as u64 + size as u64;
        let end = if end_wide < n as u64 {
            end_wide as usize
        } else {
            n
        };
        let clipped = copy_range(&content, start, end - start);
        Ok(FileReader { content: clipped, pos: 0 })
    }
}

/// The block models of the blocks held in memory.
spec fn block_models(raws: Seq<RawBlock>) -> Seq<BlockModel> {
    raws.map_values(|rb: RawBlock| rb.model())
}

/// Parses and checksum-verifies the `num_blocks` data blocks at `first`.
fn read_raw_blocks(data: &Vec<u8>, first: u32, num_blocks: u16, data_reserve: u8) -> (r: Result<
    Vec<RawBlock>,
    CabError,
>)
    ensures
        (r matches Ok(raws) ==> {
            &&& spec_parse_blocks(
                data@,
                first as int,
                num_blocks as nat,
                data_reserve as int,
            ) == Some(block_models(raws@))
            &&& spec_blocks_checksums_ok(block_models(raws@))
            &&& spec_blocks_sizes_ok(block_models(raws@))
            &&& forall|i: int| 0 <= i < raws@.len() ==> (#[trigger] raws@[i]).usz <= 0x8000
        }),
        (r is Ok <==> (spec_parse_blocks(data@, first as int, num_blocks as nat, data_reserve as int)
            matches Some(bl) && spec_blocks_checksums_ok(bl) && spec_blocks_sizes_ok(bl))),
        (r matches Err(e) ==> e.is_invalid_data()),
{
    let n = data.len();
    let rsv = data_reserve as usize;
    let total = num_blocks as usize;
    let mut raws: Vec<RawBlock> = Vec::new();
    if total == 0 {
        proof {
            assert(block_models(raws@) =~= Seq::<BlockModel>::empty());
        }
        return Ok(raws);
    }
    if first as usize > n {
        proof {
            assert(spec_parse_blocks(data@, first as int, total as nat, rsv as int) is None);
        }
        return Err(CabError::InvalidData("Data block offset out of bounds".to_owned()));
    }
    let mut off: usize = first as usize;
    let mut i: usize = 0;
    proof {
        assert(block_models(raws@) =~= Seq::<BlockModel>::empty());
    }
    while i < total
        invariant
            i <= total,
            total == num_blocks as usize,
            rsv == data_reserve as usize,
            raws@.len() == i,
            off <= n == data@.len(),
            spec_parse_blocks(data@, first as int, total as nat, rsv as int) == prepend_blocks(
                block_models(raws@),
                spec_parse_blocks(data@, off as int, (total - i) as nat, rsv as int),
            ),
            spec_blocks_checksums_ok(block_models(raws@)),
            forall|q: int| 0 <= q < raws@.len() ==> (#[trigger] raws@[q]).usz <= 0x8000,
        decreases total - i,
    {
        if n - off < 8 || n - off - 8 < rsv {
            proof {
                assert(spec_parse_blocks(data@, off as int, (total - i) as nat, rsv as int)
                    is None);
                assert(spec_parse_blocks(data@, first as int, num_blocks as nat, data_reserve as int)
                    is None);
            }
            return Err(CabError::InvalidData("Truncated data block header".to_owned()));
        }
        let checksum = get_u32_le(data, off);
        let csize = get_u16_le(data, off + 4);
        let usz = get_u16_le(data, off + 6);
        let reserve = copy_range(data, off + 8, rsv);
        if n - off - 8 - rsv < csize as usize {
            proof {
                assert(spec_parse_blocks(data@, off as int, (total - i) as nat, rsv as int)
                    is None);
                assert(spec_parse_blocks(data@, first as int, num_blocks as nat, data_reserve as int)
                    is None);
            }
            return Err(CabError::InvalidData("Truncated data block payload".to_owned()));
        }
        let payload = copy_range(data, off + 8 + rsv, csize as usize);
        let ghost bm_here = BlockModel {
            checksum,
            csize,
            usz,
            reserve: reserve@,
            payload: payload@,
        };
        let ghost rest_here = spec_parse_blocks(
            data@,
            off + 8 + rsv + csize,
            (total - i - 1) as nat,
            rsv as int,
        );
        proof {
            assert(spec_parse_blocks(data@, off as int, (total - i) as nat, rsv as int)
                == prepend_blocks(seq![bm_here], rest_here));
            if rest_here is Some {
                let full = block_models(raws@) + (seq![bm_here] + rest_here->Some_0);
                assert(full[raws@.len() as int] == bm_here);
                assert(spec_parse_blocks(
                    data@,
                    first as int,
                    num_blocks as nat,
                    data_reserve as int,
                ) == Some(full));
            } else {
                assert(spec_parse_blocks(
                    data@,
                    first as int,
                    num_blocks as nat,
                    data_reserve as int,
                ) is None);
            }
        }
        if usz > 0x8000 {
            return Err(CabError::InvalidData("Data block uncompressed size too large".to_owned()));
        }
        if checksum != 0 {
            let actual = block_checksum(&reserve, &payload, csize, usz);
            if actual != checksum {
                let mut msg = String::new();
                msg.append("Checksum error in data block ");
                msg.append(dec_u64_string(i as u64).as_str());
                msg.append(" (expected 0x");
                msg.append(hex_u32_string(checksum).as_str());
                msg.append(", actual 0x");
                msg.append(hex_u32_string(actual).as_str());
                msg.append(")");
                return Err(CabError::InvalidData(msg));
            }
        }
        let rb = RawBlock { checksum, csize, usz, reserve, payload };
        let ghost bm = rb.model();
        let ghost models_old = block_models(raws@);
        let ghost next_off = off + 8 + rsv + csize;
        let ghost rest_opt = spec_parse_blocks(data@, next_off, (total - i - 1) as nat, rsv as int);
        proof {
            assert(spec_parse_blocks(data@, off as int, (total - i) as nat, rsv as int)
                == prepend_blocks(seq![bm], rest_opt));
        }
        raws.push(rb);
        proof {
            assert(block_models(raws@) =~= models_old + seq![bm]);
            if rest_opt is Some {
                let rest = rest_opt->Some_0;
                assert((models_old + seq![bm]) + rest =~= models_old + (seq![bm] + rest));
            }
            assert(spec_parse_blocks(data@, first as int, total as nat, rsv as int)
                == prepend_blocks(block_models(raws@), rest_opt));
            assert forall|q: int| 0 <= q < block_models(raws@).len() implies {
                let b = #[trigger] block_models(raws@)[q];
                b.checksum == 0 || b.checksum == crate::checksum::spec_block_checksum(
                    b.reserve,
                    b.payload,
                    b.csize,
                    b.usz,
                )
            } by {
                if q < models_old.len() {
                    assert(block_models(raws@)[q] == models_old[q]);
                }
            }
        }
        off = off + 8 + rsv + csize as usize;
        i = i + 1;
    }
    proof {
        assert(spec_parse_blocks(data@, off as int, 0, rsv as int) == Some(
            Seq::<BlockModel>::empty(),
        ));
        assert(block_models(raws@) + Seq::<BlockModel>::empty() =~= block_models(raws@));
    }
    Ok(raws)
}

/// Decompresses a parsed block stream under the folder's scheme.
fn decompress_blocks(ct: CompressionType, raws: &Vec<RawBlock>) -> (r: Result<Vec<u8>, CabError>)
    requires
        ctype_wf(ct),
        forall|i: int| 0 <= i < raws@.len() ==> (#[trigger] raws@[i]).usz <= 0x8000,
    ensures
        (r matches Ok(content) ==> spec_folder_content(ct, block_models(raws@)) == Some(
            content@,
        )),
        (r is Err <==> spec_folder_content(ct, block_models(raws@)) is None),
        (r matches Err(e) ==> e.is_invalid_data() || e.is_unsupported()),
        (ct is Quantum ==> (r matches Err(e) && e.is_unsupported())),
{
    let ghost blocks = block_models(raws@);
    let total = raws.len();
    let mut content: Vec<u8> = Vec::new();
    match ct {
        CompressionType::Quantum(_, _) => Err(
            CabError::Unsupported("Quantum decompression is not supported".to_owned()),
        ),
        CompressionType::Uncompressed => {
            let mut i: usize = 0;
            proof {
                assert(spec_block_payloads(blocks.take(0)).flatten() =~= Seq::<u8>::empty());
            }
            while i < total
                invariant
                    i <= total == raws@.len(),
                    blocks == block_models(raws@),
                    content@ == spec_block_payloads(blocks.take(i as int)).flatten(),
                decreases total - i,
            {
                let ghost content_old = content@;
                content.extend_from_slice(raws[i].payload.as_slice());
                proof {
                    assert(blocks[i as int] == raws@[i as int].model());
                    assert(spec_block_payloads(blocks.take(i as int)).push(blocks[i as int].payload)
                        =~= spec_block_payloads(blocks.take(i + 1)));
                    spec_block_payloads(blocks.take(i as int)).lemma_flatten_push(
                        blocks[i as int].payload,
                    );
                }
                i = i + 1;
            }
            proof {
                assert(blocks.take(total as int) =~= blocks);
            }
            Ok(content)
        },
        CompressionType::MsZip => {
            let mut de = MsZipDecompressor::new();
            let mut i: usize = 0;
            while i < total
                invariant
                    i <= total == raws@.len(),
                    ct is MsZip,
                    blocks == block_models(raws@),
                    forall|q: int| 0 <= q < raws@.len() ==> (#[trigger] raws@[q]).usz <= 0x8000,
                    de.wf(),
                    spec_mszip_content_from(blocks, 0, Seq::empty()) == prepend_bytes(
                        content@,
                        spec_mszip_content_from(blocks, i as int, de.dict()),
                    ),
                decreases total - i,
            {
                let rb = &raws[i];
                let ghost dict_old = de.dict();
                proof {
                    assert(blocks[i as int] == raws@[i as int].model());
                }
                let out = match de.decompress_block(rb.payload.as_slice(), rb.usz as usize) {
                    Ok(o) => o,
                    Err(e) => {
                        proof {
                            assert(spec_mszip_content_from(blocks, i as int, dict_old) is None);
                            assert(prepend_bytes(
                                content@,
                                spec_mszip_content_from(blocks, i as int, dict_old),
                            ) is None);
                            assert(spec_mszip_content_from(blocks, 0, Seq::empty()) is None);
                            assert(ct is MsZip);
                            assert(spec_folder_content(ct, blocks) is None);
                        }
                        return Err(e);
                    },
                };
                let ghost content_old = content@;
                content.extend_from_slice(out.as_slice());
                proof {
                    assert(blocks[i as int] == raws@[i as int].model());
                    let rest_opt = spec_mszip_content_from(blocks, i + 1, de.dict());
                    assert(spec_mszip_content_from(blocks, i as int, dict_old) == prepend_bytes(
                        out@,
                        rest_opt,
                    ));
                    if rest_opt is Some {
                        let rest = rest_opt->Some_0;
                        assert(content_old + (out@ + rest) =~= (content_old + out@) + rest);
                    }
                }
                i = i + 1;
            }
            proof {
                assert(spec_mszip_content_from(blocks, total as int, de.dict()) == Some(
                    Seq::<u8>::empty(),
                ));
                assert(content@ + Seq::<u8>::empty() =~= content@);
            }
            Ok(content)
        },
        CompressionType::Lzx(w) => {
            if w == 25 {
                return Err(
                    CabError::Unsupported(
                        "LZX decompression with a 32 MiB window is not supported".to_owned(),
                    ),
                );
            }
            let mut de = LzxDecoder::new(w);
            let mut i: usize = 0;
            while i < total
                invariant
                    i <= total == raws@.len(),
                    ct == CompressionType::Lzx(w),
                    blocks == block_models(raws@),
                    de.window_exp() == w as int,
                    de.past_chunks() == spec_block_payloads(blocks.take(i as int)),
                    de.past_lens() == spec_block_lens(blocks.take(i as int)),
                    spec_lzx_content_from(blocks, 0, w as int, Seq::empty(), Seq::empty())
                        == prepend_bytes(
                        content@,
                        spec_lzx_content_from(
                            blocks,
                            i as int,
                            w as int,
                            de.past_chunks(),
                            de.past_lens(),
                        ),
                    ),
                decreases total - i,
            {
                let rb = &raws[i];
                let ghost past_d = de.past_chunks();
                let ghost past_l = de.past_lens();
                proof {
                    assert(blocks[i as int] == raws@[i as int].model());
                }
                let ghost pd = de.past_chunks();
                let ghost pl = de.past_lens();
                let out = match de.decompress_next(rb.payload.as_slice(), rb.usz as usize) {
                    None => {
                        proof {
                            assert(spec_lzx_content_from(blocks, i as int, w as int, pd, pl)
                                is None);
                            assert(prepend_bytes(
                                content@,
                                spec_lzx_content_from(blocks, i as int, w as int, pd, pl),
                            ) is None);
                            assert(spec_lzx_content_from(
                                blocks,
                                0,
                                w as int,
                                Seq::empty(),
                                Seq::empty(),
                            ) is None);
                            assert(ct == CompressionType::Lzx(w));
                            assert(spec_folder_content(ct, blocks) is None);
                        }
                        return Err(
                            CabError::InvalidData("LZX decompression failed".to_owned()),
                        );
                    },
                    Some(o) => o,
                };
                let ghost content_old = content@;
                content.extend_from_slice(out.as_slice());
                proof {
                    assert(blocks[i as int] == raws@[i as int].model());
                    let rest_opt = spec_lzx_content_from(
                        blocks,
                        i + 1,
                        w as int,
                        de.past_chunks(),
                        de.past_lens(),
                    );
                    assert(spec_lzx_content_from(blocks, i as int, w as int, past_d, past_l)
                        == prepend_bytes(out@, rest_opt));
                    if rest_opt is Some {
                        let rest = rest_opt->Some_0;
                        assert(content_old + (out@ + rest) =~= (content_old + out@) + rest);
                    }
                    assert(spec_block_payloads(blocks.take(i as int)).push(
                        blocks[i as int].payload,
                    ) =~= spec_block_payloads(blocks.take(i + 1)));
                    assert(spec_block_lens(blocks.take(i as int)).push(blocks[i as int].usz as int)
                        =~= spec_block_lens(blocks.take(i + 1)));
                }
                i = i + 1;
            }
            proof {
                assert(spec_lzx_content_from(
                    blocks,
                    total as int,
                    w as int,
                    de.past_chunks(),
                    de.past_lens(),
                ) == Some(Seq::<u8>::empty()));
                assert(content@ + Seq::<u8>::empty() =~= content@);
            }
            Ok(content)
        },
    }
}

} // verus!
