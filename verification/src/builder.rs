//! Building a new cabinet.
//!
//! A caller declares the folders and files first; `build` validates the
//! declaration and emits the header and the folder and file directories
//! with placeholder sizes and offsets.  File bytes are then streamed in
//! declaration order through a per-folder block buffer: full blocks are
//! compressed and appended with their checksums.  `finish` patches every
//! placeholder -- each file's size and offset within its folder, each
//! folder's first-block offset and block count, and the header's total
//! size -- and hands back the cabinet's bytes.

use vstd::prelude::*;

use crate::bytes::{copy_range, push_u16_le, push_u32_le, set_u16_le, set_u32_le};
use crate::checksum::block_checksum;
use crate::consts;
use crate::ctype::CompressionType;
use crate::datetime::{datetime_to_bits, dt_valid, now_utc, DateTime};
use crate::error::CabError;
use crate::format::{
    lemma_checksums_ok_push, lemma_mszip_content_push, lemma_parse_blocks_frame,
    lemma_parse_blocks_snoc, spec_block_payloads, spec_blocks_checksums_ok, spec_blocks_extent,
    spec_folder_content, spec_header_bytes, spec_mszip_content_from, spec_parse_blocks, BlockModel,
};
use crate::mszip::{mszip_block_ok, mszip_signature};
use crate::mszip::MsZipCompressor;
use crate::checksum::spec_block_checksum;

verus! {

/// Some byte of `b` is outside us-ascii.
pub open spec fn has_non_ascii(b: Seq<u8>) -> bool {
    exists|i: int| 0 <= i < b.len() && b[i] > 0x7f
}

/// The attribute word a fresh file starts with: the archive bit, and the
/// name-is-UTF bit exactly where the name holds a byte outside us-ascii.
pub open spec fn spec_initial_attributes(name_bytes: Seq<u8>) -> u16 {
    if has_non_ascii(name_bytes) {
        (consts::ATTR_ARCH | consts::ATTR_NAME_IS_UTF) as u16
    } else {
        consts::ATTR_ARCH
    }
}

/// `attrs` with one bit set or cleared.
pub open spec fn spec_set_attr(attrs: u16, bit: u16, enable: bool) -> u16 {
    if enable {
        attrs | bit
    } else {
        attrs & !bit
    }
}

/// A file being declared for a new cabinet.
pub struct FileBuilder {
    pub name: String,
    pub attributes: u16,
    pub datetime: DateTime,
    pub entry_offset: usize,
    pub uncompressed_size: u32,
    pub offset_within_folder: u32,
}

impl FileBuilder {
    /// Declares a file with the given name: the archive attribute set, the
    /// name-is-UTF attribute exactly where the name needs it, and the
    /// current UTC time as its timestamp.
    pub fn new(name: String) -> (r: FileBuilder)
        ensures
            r.name@ == name@,
            r.attributes == spec_initial_attributes(vstd::utf8::encode_utf8(name@)),
            dt_valid(r.datetime),
            r.uncompressed_size == 0,
            r.offset_within_folder == 0,
    {
        let bytes = name.as_str().as_bytes();
        let m = bytes.len();
        let mut utf = false;
        let mut i: usize = 0;
        while i < m
            invariant
                i <= m == bytes@.len(),
                utf == exists|q: int| 0 <= q < i && bytes@[q] > 0x7f,
            decreases m - i,
        {
            if bytes[i] > 0x7f {
                utf = true;
            }
            i = i + 1;
        }
        let attributes = if utf {
            consts::ATTR_ARCH | consts::ATTR_NAME_IS_UTF
        } else {
            consts::ATTR_ARCH
        };
        FileBuilder {
            name,
            attributes,
            datetime: now_utc(),
            entry_offset: 0,
            uncompressed_size: 0,
            offset_within_folder: 0,
        }
    }

    /// Sets the file's timestamp.
    pub fn set_datetime(&mut self, datetime: DateTime)
        requires
            dt_valid(datetime),
        ensures
            *final(self) == (FileBuilder { datetime, ..*old(self) }),
    {
        self.datetime = datetime;
    }

    /// Sets or clears the "read-only" attribute bit.
    pub fn set_is_read_only(&mut self, is_read_only: bool)
        ensures
            *final(self) == (FileBuilder {
                attributes: spec_set_attr(
                    old(self).attributes,
                    consts::ATTR_READ_ONLY,
                    is_read_only,
                ),
                ..*old(self)
            }),
    {
        self.set_attribute(consts::ATTR_READ_ONLY, is_read_only);
    }

    /// Sets or clears the "hidden" attribute bit.
    pub fn set_is_hidden(&mut self, is_hidden: bool)
        ensures
            *final(self) == (FileBuilder {
                attributes: spec_set_attr(old(self).attributes, consts::ATTR_HIDDEN, is_hidden),
                ..*old(self)
            }),
    {
        self.set_attribute(consts::ATTR_HIDDEN, is_hidden);
    }

    /// Sets or clears the "system file" attribute bit.
    pub fn set_is_system(&mut self, is_system: bool)
        ensures
            *final(self) == (FileBuilder {
                attributes: spec_set_attr(old(self).attributes, consts::ATTR_SYSTEM, is_system),
                ..*old(self)
            }),
    {
        self.set_attribute(consts::ATTR_SYSTEM, is_system);
    }

    /// Sets or clears the "modified since last backup" attribute bit.
    pub fn set_is_archive(&mut self, is_archive: bool)
        ensures
            *final(self) == (FileBuilder {
                attributes: spec_set_attr(old(self).attributes, consts::ATTR_ARCH, is_archive),
                ..*old(self)
            }),
    {
        self.set_attribute(consts::ATTR_ARCH, is_archive);
    }

    /// Sets or clears the "execute after extraction" attribute bit.
    pub fn set_is_exec(&mut self, is_exec: bool)
        ensures
            *final(self) == (FileBuilder {
                attributes: spec_set_attr(old(self).attributes, consts::ATTR_EXEC, is_exec),
                ..*old(self)
            }),
    {
        self.set_attribute(consts::ATTR_EXEC, is_exec);
    }

    fn set_attribute(&mut self, bit: u16, enable: bool)
        ensures
            *final(self) == (FileBuilder {
                attributes: spec_set_attr(old(self).attributes, bit, enable),
                ..*old(self)
            }),
    {
        if enable {
            self.attributes = self.attributes | bit;
        } else {
            self.attributes = self.attributes & !bit;
        }
    }
}

/// A folder being declared for a new cabinet.
pub struct FolderBuilder {
    pub compression_type: CompressionType,
    pub files: Vec<FileBuilder>,
    pub reserve_data: Vec<u8>,
    pub entry_offset: usize,
    pub first_data_block_offset: u32,
    pub num_data_blocks: u16,
    pub content: Ghost<Seq<u8>>,
}

impl FolderBuilder {
    /// Declares a folder with the given compression scheme and no files.
    pub fn new(compression_type: CompressionType) -> (r: FolderBuilder)
        ensures
            r.compression_type == compression_type,
            r.files@.len() == 0,
            r.reserve_data@.len() == 0,
    {
        FolderBuilder {
            compression_type,
            files: Vec::new(),
            reserve_data: Vec::new(),
            entry_offset: 0,
            first_data_block_offset: 0,
            num_data_blocks: 0,
            content: Ghost(Seq::empty()),
        }
    }

    /// Adds a declared file to the folder.
    pub fn add_file(&mut self, file: FileBuilder)
        ensures
            final(self).files@ == old(self).files@.push(file),
            final(self).compression_type == old(self).compression_type,
            final(self).reserve_data@ == old(self).reserve_data@,
    {
        self.files.push(file);
    }

    /// Sets the folder's application-defined reserve bytes (at most 255).
    pub fn set_reserve_data(&mut self, data: Vec<u8>)
        ensures
            final(self).reserve_data@ == data@,
            final(self).files@ == old(self).files@,
            final(self).compression_type == old(self).compression_type,
    {
        self.reserve_data = data;
    }
}

/// A declaration of a new cabinet: its folders, their files, and the
/// header's reserve bytes.
pub struct CabinetBuilder {
    pub folders: Vec<FolderBuilder>,
    pub reserve_data: Vec<u8>,
}

/// How many files the first `k` folders declare, together.
pub open spec fn spec_total_files(folders: Seq<FolderBuilder>, k: int) -> int
    decreases k,
{
    if k <= 0 || k > folders.len() {
        0
    } else {
        spec_total_files(folders, k - 1) + folders[k - 1].files@.len()
    }
}

/// The declaration respects the format's limits: folder and file counts of
/// at most 65,535, a header reserve of at most 60,000 bytes, folder
/// reserves of at most 255 bytes, and LZX windows in range.
pub open spec fn spec_limits_ok(b: CabinetBuilder) -> bool {
    &&& b.folders@.len() <= 0xffff
    &&& forall|k: int| 0 <= k < b.folders@.len() ==> (#[trigger] b.folders@[k]).files@.len()
        <= 0xffff
    &&& spec_total_files(b.folders@, b.folders@.len() as int) <= 0xffff
    &&& b.reserve_data@.len() <= 60000
    &&& forall|k: int| 0 <= k < b.folders@.len() ==> (#[trigger] b.folders@[k]).reserve_data@.len()
        <= 255
    &&& forall|k: int|
        0 <= k < b.folders@.len() ==> ((#[trigger] b.folders@[k]).compression_type
            matches CompressionType::Lzx(w) ==> 15 <= w <= 25)
}

/// Every declared file holds a real calendar timestamp and a placeholder
/// size within the file-size cap.
pub open spec fn builder_wf(b: CabinetBuilder) -> bool {
    forall|k: int, j: int|
        0 <= k < b.folders@.len() && 0 <= j < b.folders@[k].files@.len() ==> dt_valid(
            (#[trigger] b.folders@[k].files@[j]).datetime,
        ) && b.folders@[k].files@[j].uncompressed_size <= consts::MAX_FILE_SIZE
}

impl CabinetBuilder {
    /// An empty declaration.
    pub fn new() -> (r: CabinetBuilder)
        ensures
            r.folders@.len() == 0,
            r.reserve_data@.len() == 0,
            builder_wf(r),
    {
        CabinetBuilder { folders: Vec::new(), reserve_data: Vec::new() }
    }

    /// Adds a declared folder to the cabinet.
    pub fn add_folder(&mut self, folder: FolderBuilder)
        ensures
            final(self).folders@ == old(self).folders@.push(folder),
            final(self).reserve_data@ == old(self).reserve_data@,
    {
        self.folders.push(folder);
    }

    /// Sets the header's application-defined reserve bytes (at most
    /// 60,000).
    pub fn set_reserve_data(&mut self, data: Vec<u8>)
        ensures
            final(self).reserve_data@ == data@,
            final(self).folders@ == old(self).folders@,
    {
        self.reserve_data = data;
    }

    /// Locks the declaration in and emits the header and directories; the
    /// returned writer streams the file bytes.
    pub fn build(self) -> (r: Result<CabinetWriter, CabError>)
        requires
            builder_wf(self),
        ensures
            (r is Ok <==> spec_limits_ok(self)),
            (r matches Ok(w) ==> {
                &&& writer_wf(w)
                &&& plan_meta_eq(w.folders@, self.folders@)
                &&& w.num_files_total as int == spec_total_files(
                    self.folders@,
                    self.folders@.len() as int,
                )
                &&& !w.failed && !w.file_open && w.current_folder_index == 0
            }),
            (r matches Err(e) ==> e.is_invalid_input()),
    {
        CabinetWriter::start(self)
    }
}

/// Which compressor a folder streams through.
pub enum FolderCompressor {
    /// The folder's bytes go out as they are.
    Plain,
    /// The folder's bytes go through the MSZIP codec.
    Zip(MsZipCompressor),
}

/// A writer streaming file bytes into a new cabinet.
pub struct CabinetWriter {
    pub out: Vec<u8>,
    pub folders: Vec<FolderBuilder>,
    pub first_folder_offset: usize,
    pub folder_reserve: usize,
    pub first_file_offset: u32,
    pub flags: u16,
    pub num_files_total: u16,
    pub dir_end: usize,
    pub current_folder_index: usize,
    pub next_file_index: usize,
    pub offset_within_folder: u64,
    pub file_open: bool,
    pub in_folder: bool,
    pub failed: bool,
    pub current_file_size: u32,
    pub fol_first_offset: u32,
    pub fol_num_blocks: u16,
    pub fol_finalized: bool,
    pub fol_buffer: Vec<u8>,
    pub fol_blocks: Ghost<Seq<BlockModel>>,
    pub fol_emitted: Ghost<Seq<u8>>,
    pub compressor: FolderCompressor,
}

/// The sum of the sizes of the files before `j` in a folder.
pub open spec fn spec_sizes_before(files: Seq<FileBuilder>, j: int) -> int
    decreases j,
{
    if j <= 0 || j > files.len() {
        0
    } else {
        spec_sizes_before(files, j - 1) + files[j - 1].uncompressed_size
    }
}

/// How many files the writer has still to open (with the folders after the
/// current one weighed by the most files a folder may hold).
pub open spec fn writer_measure(w: CabinetWriter) -> int {
    (w.folders@.len() - w.current_folder_index) * 0x10002 + (
    if w.current_folder_index < w.folders@.len() {
        w.folders@[w.current_folder_index as int].files@.len() + 1 - w.next_file_index
    } else {
        0
    })
}

/// The folder's directory fields point at a block stream of `out` that
/// parses whole, passes every stored checksum, and decompresses under the
/// folder's scheme to exactly the folder's recorded content.
pub open spec fn spec_folder_data_ok(out: Seq<u8>, f: FolderBuilder) -> bool {
    spec_parse_blocks(out, f.first_data_block_offset as int, f.num_data_blocks as nat, 0)
        matches Some(bl) && spec_blocks_checksums_ok(bl) && spec_folder_content(
        f.compression_type,
        bl,
    ) == Some(f.content@) && (forall|i: int|
        0 <= i < bl.len() - 1 ==> (#[trigger] bl[i]).usz == 0x8000)
}

/// Every folder of the plan owns a sound data region of `out`.
pub open spec fn spec_cabinet_data_ok(out: Seq<u8>, plan: Seq<FolderBuilder>) -> bool {
    forall|k: int| 0 <= k < plan.len() ==> spec_folder_data_ok(out, #[trigger] plan[k])
}

/// The two plans declare the same folders: same schemes and reserves, and
/// file for file the same names, attributes and timestamps (sizes and
/// offsets may differ: the writer fills those in).
pub open spec fn plan_meta_eq(a: Seq<FolderBuilder>, b: Seq<FolderBuilder>) -> bool {
    &&& a.len() == b.len()
    &&& forall|k: int|
        0 <= k < a.len() ==> (#[trigger] a[k]).compression_type == b[k].compression_type && a[
            k
        ].reserve_data@ == b[k].reserve_data@ && a[k].files@.len() == b[k].files@.len()
    &&& forall|k: int, j: int|
        0 <= k < a.len() && 0 <= j < a[k].files@.len() ==> (#[trigger] a[k].files@[j]).name@ == b[
            k
        ].files@[j].name@ && a[k].files@[j].attributes == b[k].files@[j].attributes && a[
            k
        ].files@[j].datetime == b[k].files@[j].datetime
}

/// `plan_meta_eq` chains.
pub proof fn lemma_plan_meta_trans(a: Seq<FolderBuilder>, b: Seq<FolderBuilder>, c: Seq<FolderBuilder>)
    requires
        plan_meta_eq(a, b),
        plan_meta_eq(b, c),
    ensures
        plan_meta_eq(a, c),
{
    assert forall|k: int|
        0 <= k < a.len() implies (#[trigger] a[k]).compression_type == c[k].compression_type && a[
        k
    ].reserve_data@ == c[k].reserve_data@ && a[k].files@.len() == c[k].files@.len() by {
        assert(b[k].compression_type == c[k].compression_type);
    }
    assert forall|k: int, j: int|
        0 <= k < a.len() && 0 <= j < a[k].files@.len() implies (#[trigger] a[k].files@[j]).name@
        == c[k].files@[j].name@ && a[k].files@[j].attributes == c[k].files@[j].attributes && a[
        k
    ].files@[j].datetime == c[k].files@[j].datetime by {
        assert(b[k].files@[j].name@ == c[k].files@[j].name@);
    }
}

/// The writer's invariant: the header stands at the front of the output
/// with a placeholder total size; every directory entry lies inside the
/// directory and before everything the writer appends later; progress
/// indices are in range; every file whose offset within its folder is
/// already fixed sits at the sum of the sizes of the files before it, and
/// the running folder offset continues that sum; each declared timestamp
/// is a real one.  The data regions stay sound throughout: the blocks of
/// every closed folder, and of the folder being streamed, parse at its
/// first-block offset, carry true checksums, and decompress under its
/// scheme to exactly the bytes streamed into it.
pub open spec fn writer_wf(w: CabinetWriter) -> bool {
    &&& w.folders@.len() <= 0xffff
    &&& forall|k: int|
        0 <= k < w.folders@.len() ==> (#[trigger] w.folders@[k]).files@.len() <= 0xffff
    &&& w.current_folder_index <= w.folders@.len()
    &&& (w.current_folder_index < w.folders@.len() ==> w.next_file_index <= w.folders@[
        w.current_folder_index as int
    ].files@.len())
    &&& (w.file_open ==> w.in_folder && w.current_folder_index < w.folders@.len() && 1
        <= w.next_file_index)
    &&& (w.current_folder_index < w.folders@.len() && w.next_file_index > 0 ==> w.in_folder)
    &&& (w.in_folder ==> w.current_folder_index < w.folders@.len())
    &&& w.out@.len() >= 36
    &&& 36 <= w.dir_end <= w.out@.len()
    &&& w.out@.subrange(0, 36) == spec_header_bytes(
        0,
        w.first_file_offset,
        w.folders@.len() as u16,
        w.num_files_total,
        w.flags,
        0,
        0,
    )
    &&& forall|k: int|
        0 <= k < w.folders@.len() ==> 36 <= (#[trigger] w.folders@[k]).entry_offset && w.folders@[
            k
        ].entry_offset + 8 <= w.dir_end
    &&& forall|k: int, j: int|
        0 <= k < w.folders@.len() && 0 <= j < w.folders@[k].files@.len() ==> 36 <= (
        #[trigger] w.folders@[k].files@[j]).entry_offset && w.folders@[k].files@[j].entry_offset
            + 16 <= w.dir_end
    &&& forall|k: int, j: int|
        0 <= k < w.current_folder_index && 0 <= j < w.folders@[k].files@.len() ==> (
        #[trigger] w.folders@[k].files@[j]).offset_within_folder == spec_sizes_before(
            w.folders@[k].files@,
            j,
        )
    &&& (w.current_folder_index < w.folders@.len() ==> forall|j: int|
        0 <= j < w.next_file_index ==> (#[trigger] w.folders@[
            w.current_folder_index as int
        ].files@[j]).offset_within_folder == spec_sizes_before(
            w.folders@[w.current_folder_index as int].files@,
            j,
        ))
    &&& (w.current_folder_index < w.folders@.len() ==> w.offset_within_folder
        == spec_sizes_before(
        w.folders@[w.current_folder_index as int].files@,
        if w.file_open {
            w.next_file_index - 1
        } else {
            w.next_file_index as int
        },
    ))
    &&& forall|k: int, j: int|
        0 <= k < w.folders@.len() && 0 <= j < w.folders@[k].files@.len() ==> dt_valid(
            (#[trigger] w.folders@[k].files@[j]).datetime,
        ) && w.folders@[k].files@[j].uncompressed_size <= consts::MAX_FILE_SIZE
    &&& w.fol_buffer@.len() <= 0x8000
    &&& (w.fol_buffer@.len() > 0 ==> w.in_folder)
    &&& (w.file_open ==> !w.fol_finalized)
    &&& (w.fol_finalized ==> w.fol_buffer@.len() == 0)
    &&& (w.in_folder && !w.failed ==> {
        &&& w.dir_end <= w.fol_first_offset as int
        &&& (!w.fol_finalized ==> forall|i: int|
            0 <= i < w.fol_blocks@.len() ==> (#[trigger] w.fol_blocks@[i]).usz == 0x8000)
        &&& (w.fol_finalized ==> forall|i: int|
            0 <= i < w.fol_blocks@.len() - 1 ==> (#[trigger] w.fol_blocks@[i]).usz == 0x8000)
        &&& spec_parse_blocks(w.out@, w.fol_first_offset as int, w.fol_num_blocks as nat, 0)
            == Some(w.fol_blocks@)
        &&& spec_blocks_checksums_ok(w.fol_blocks@)
        &&& w.fol_first_offset + spec_blocks_extent(w.fol_blocks@, 0) == w.out@.len()
        &&& match w.compressor {
            FolderCompressor::Plain => {
                &&& w.folders@[w.current_folder_index as int].compression_type
                    is Uncompressed
                &&& spec_block_payloads(w.fol_blocks@).flatten() == w.fol_emitted@
            },
            FolderCompressor::Zip(z) => {
                &&& w.folders@[w.current_folder_index as int].compression_type is MsZip
                &&& z.blocks().flatten() == w.fol_emitted@
                &&& crate::deflate::dict_feed_ok(z.blocks())
                &&& spec_mszip_content_from(w.fol_blocks@, 0, Seq::empty()) == Some(
                    w.fol_emitted@,
                )
            },
        }
    })
    &&& forall|k: int|
        0 <= k < w.current_folder_index ==> {
            let f = #[trigger] w.folders@[k];
            w.dir_end <= f.first_data_block_offset as int && spec_folder_data_ok(w.out@, f)
        }
    &&& w.current_file_size <= consts::MAX_FILE_SIZE
    &&& w.offset_within_folder <= 0xffffffffu64 + 0x7fff8000u64
}

/// A handle for the file whose bytes the writer takes next.
pub struct FileWriter {
    pub name: String,
}

impl FileWriter {
    /// The name of the file being written.
    pub fn file_name(&self) -> (r: &str)
        ensures
            r@ == self.name@,
    {
        self.name.as_str()
    }
}

impl CabinetWriter {
    /// Validates the declaration and emits the header, the folder entries
    /// (placeholder offsets and counts, real compression bits, reserve
    /// bytes zero-padded to the longest folder reserve) and the file
    /// entries (placeholder sizes and offsets, real folder index, date,
    /// time, attributes, and name).
    #[verifier::rlimit(100)]
    #[verifier::spinoff_prover]
    fn start(builder: CabinetBuilder) -> (r: Result<CabinetWriter, CabError>)
        requires
            builder_wf(builder),
        ensures
            (r is Ok <==> spec_limits_ok(builder)),
            (r matches Ok(w) ==> {
                &&& writer_wf(w)
                &&& plan_meta_eq(w.folders@, builder.folders@)
                &&& w.num_files_total as int == spec_total_files(
                    builder.folders@,
                    builder.folders@.len() as int,
                )
                &&& !w.failed && !w.file_open && w.current_folder_index == 0
            }),
            (r matches Err(e) ==> e.is_invalid_input()),
    {
        let num_folders = builder.folders.len();
        if num_folders > consts::MAX_NUM_FOLDERS {
            return Err(CabError::InvalidInput("Cabinet has too many folders".to_owned()));
        }
        let mut num_files: usize = 0;
        let mut k: usize = 0;
        while k < num_folders
            invariant
                k <= num_folders == builder.folders@.len(),
                num_files == spec_total_files(builder.folders@, k as int),
                num_files <= k * 0x10000,
                num_folders <= 0xffff,
                forall|q: int|
                    0 <= q < k ==> (#[trigger] builder.folders@[q]).files@.len() <= 0xffff,
            decreases num_folders - k,
        {
            let fl = builder.folders[k].files.len();
            if fl > consts::MAX_NUM_FILES {
                return Err(CabError::InvalidInput("Cabinet has too many files".to_owned()));
            }
            proof {
                assert((k + 1) * 0x10000 == k * 0x10000 + 0x10000) by (nonlinear_arith);
                assert(k * 0x10000 <= 0x10000 * 0x10000) by (nonlinear_arith)
                    requires k <= 0x10000;
            }
            num_files = num_files + fl;
            k = k + 1;
        }
        if num_files > consts::MAX_NUM_FILES {
            return Err(CabError::InvalidInput("Cabinet has too many files".to_owned()));
        }
        let header_reserve_size = builder.reserve_data.len();
        if header_reserve_size > consts::MAX_HEADER_RESERVE_SIZE {
            return Err(
                CabError::InvalidInput("Cabinet header reserve data is too large".to_owned()),
            );
        }
        let mut folder_reserve_size: usize = 0;
        let mut k2: usize = 0;
        while k2 < num_folders
            invariant
                k2 <= num_folders == builder.folders@.len(),
                folder_reserve_size <= consts::MAX_FOLDER_RESERVE_SIZE,
                forall|q: int|
                    0 <= q < k2 ==> (#[trigger] builder.folders@[q]).reserve_data@.len() <= 255,
                forall|q: int|
                    0 <= q < k2 ==> (#[trigger] builder.folders@[q]).reserve_data@.len()
                        <= folder_reserve_size,
                forall|q: int|
                    0 <= q < k2 ==> ((#[trigger] builder.folders@[q]).compression_type
                        matches CompressionType::Lzx(w) ==> 15 <= w <= 25),
            decreases num_folders - k2,
        {
            let rl = builder.folders[k2].reserve_data.len();
            if rl > consts::MAX_FOLDER_RESERVE_SIZE {
                return Err(
                    CabError::InvalidInput("Cabinet folder reserve data is too large".to_owned()),
                );
            }
            if rl > folder_reserve_size {
                folder_reserve_size = rl;
            }
            match builder.folders[k2].compression_type {
                CompressionType::Lzx(w) => {
                    if w < 15 || w > 25 {
                        return Err(CabError::InvalidInput("Invalid LZX window".to_owned()));
                    }
                },
                _ => {},
            }
            k2 = k2 + 1;
        }
        let flags: u16 = if header_reserve_size > 0 || folder_reserve_size > 0 {
            consts::FLAG_RESERVE_PRESENT
        } else {
            0
        };
        let first_folder_offset: usize = if flags != 0 {
            36 + 4 + header_reserve_size
        } else {
            36
        };
        let folder_entry_size = 8 + folder_reserve_size;
        proof {
            assert(num_folders * folder_entry_size <= 0xffff * 263) by (nonlinear_arith)
                requires num_folders <= 0xffff && folder_entry_size <= 263;
        }
        let first_file_offset = first_folder_offset + num_folders * folder_entry_size;

        // The fixed header, with zero placeholders for the sizes.
        let mut out: Vec<u8> = Vec::new();
        push_u32_le(&mut out, consts::FILE_SIGNATURE);
        push_u32_le(&mut out, 0);
        push_u32_le(&mut out, 0);
        push_u32_le(&mut out, 0);
        push_u32_le(&mut out, first_file_offset as u32);
        push_u32_le(&mut out, 0);
        out.push(consts::VERSION_MINOR);
        out.push(consts::VERSION_MAJOR);
        push_u16_le(&mut out, num_folders as u16);
        push_u16_le(&mut out, num_files as u16);
        push_u16_le(&mut out, flags);
        push_u16_le(&mut out, 0);
        push_u16_le(&mut out, 0);
        let ghost header_image = spec_header_bytes(
            0,
            first_file_offset as u32,
            num_folders as u16,
            num_files as u16,
            flags,
            0,
            0,
        );
        proof {
            assert(out@ =~= header_image);
        }
        if flags != 0 {
            push_u16_le(&mut out, header_reserve_size as u16);
            out.push(folder_reserve_size as u8);
            out.push(0);
            out.extend_from_slice(builder.reserve_data.as_slice());
        }
        proof {
            assert(out@.subrange(0, 36) =~= header_image);
        }

        // Folder entries.
        let mut folders = builder.folders;
        let mut k3: usize = 0;
        while k3 < num_folders
            invariant
                k3 <= num_folders == folders@.len(),
                num_folders == builder.folders@.len(),
                out@.len() >= 36,
                out@.subrange(0, 36) == header_image,
                forall|q: int|
                    0 <= q < k3 ==> 36 <= (#[trigger] folders@[q]).entry_offset && folders@[
                        q
                    ].entry_offset + 8 <= out@.len(),
                forall|q: int|
                    0 <= q < folders@.len() ==> (#[trigger] folders@[q]).files@ == builder.folders@[
                        q
                    ].files@,
                forall|q: int|
                    0 <= q < folders@.len() ==> (#[trigger] folders@[q]).compression_type
                        == builder.folders@[q].compression_type && folders@[q].reserve_data@
                        == builder.folders@[q].reserve_data@,
                forall|q: int|
                    0 <= q < builder.folders@.len() ==> ((
                    #[trigger] builder.folders@[q]).compression_type
                        matches CompressionType::Lzx(w) ==> 15 <= w <= 25),
                forall|q: int|
                    0 <= q < builder.folders@.len() ==> (#[trigger] builder.folders@[
                        q
                    ]).files@.len() <= 0xffff,
                builder_wf(builder),
            decreases num_folders - k3,
        {
            let ghost out_snap = out@;
            let eo = out.len();
            proof {
                assert(folders@[k3 as int].compression_type matches CompressionType::Lzx(w)
                    ==> 15 <= w <= 25);
            }
            let fo = vstd::std_specs::vec::vec_index_mut(&mut folders, k3);
            fo.entry_offset = eo;
            let bits = fo.compression_type.to_bitfield();
            push_u32_le(&mut out, 0);
            push_u16_le(&mut out, 0);
            push_u16_le(&mut out, bits);
            out.extend_from_slice(fo.reserve_data.as_slice());
            let pad = if fo.reserve_data.len() < folder_reserve_size {
                folder_reserve_size - fo.reserve_data.len()
            } else {
                0
            };
            let mut p: usize = 0;
            while p < pad
                invariant
                    p <= pad,
                    out@.len() >= out_snap.len() + 8 + p,
                    out@.subrange(0, out_snap.len() as int) == out_snap,
                decreases pad - p,
            {
                let ghost before = out@;
                out.push(0);
                proof {
                    assert(out@.subrange(0, out_snap.len() as int) =~= before.subrange(
                        0,
                        out_snap.len() as int,
                    ));
                }
                p = p + 1;
            }
            proof {
                assert(out@.subrange(0, 36) =~= out_snap.subrange(0, 36));
            }
            k3 = k3 + 1;
        }

        // File entries.
        let mut k4: usize = 0;
        while k4 < num_folders
            invariant
                k4 <= num_folders == folders@.len(),
                num_folders == builder.folders@.len(),
                out@.len() >= 36,
                out@.subrange(0, 36) == header_image,
                forall|q: int|
                    0 <= q < folders@.len() ==> 36 <= (#[trigger] folders@[q]).entry_offset
                        && folders@[q].entry_offset + 8 <= out@.len(),
                forall|q: int, j: int|
                    0 <= q < k4 && 0 <= j < folders@[q].files@.len() ==> 36 <= (
                    #[trigger] folders@[q].files@[j]).entry_offset && folders@[q].files@[
                        j
                    ].entry_offset + 16 <= out@.len(),
                forall|q: int|
                    0 <= q < folders@.len() ==> (#[trigger] folders@[q]).files@.len() <= 0xffff,
                forall|q: int|
                    0 <= q < folders@.len() ==> (#[trigger] folders@[q]).compression_type
                        == builder.folders@[q].compression_type && folders@[q].reserve_data@
                        == builder.folders@[q].reserve_data@ && folders@[q].files@.len()
                        == builder.folders@[q].files@.len(),
                forall|q: int, j: int|
                    0 <= q < folders@.len() && 0 <= j < folders@[q].files@.len() ==> {
                        let a = #[trigger] folders@[q].files@[j];
                        let b = builder.folders@[q].files@[j];
                        a.name@ == b.name@ && a.attributes == b.attributes && a.datetime
                            == b.datetime
                    },
                forall|q: int, j: int|
                    0 <= q < folders@.len() && 0 <= j < folders@[q].files@.len() ==> dt_valid(
                        (#[trigger] folders@[q].files@[j]).datetime,
                    ) && folders@[q].files@[j].uncompressed_size <= consts::MAX_FILE_SIZE,
            decreases num_folders - k4,
        {
            let ghost fsnap = folders@[k4 as int];
            let ghost out_len_outer = out@.len();
            let fo = vstd::std_specs::vec::vec_index_mut(&mut folders, k4);
            let nf = fo.files.len();
            let mut j: usize = 0;
            while j < nf
                invariant
                    j <= nf == fo.files@.len(),
                    nf <= 0xffff,
                    out@.len() >= 36,
                    out@.len() >= out_len_outer,
                    out@.subrange(0, 36) == header_image,
                    fo.entry_offset == fsnap.entry_offset,
                    fo.compression_type == fsnap.compression_type,
                    fo.reserve_data@ == fsnap.reserve_data@,
                    fo.files@.len() == builder.folders@[k4 as int].files@.len(),
                    forall|t: int|
                        0 <= t < j ==> 36 <= (#[trigger] fo.files@[t]).entry_offset && fo.files@[
                            t
                        ].entry_offset + 16 <= out@.len(),
                    forall|t: int|
                        0 <= t < fo.files@.len() ==> dt_valid((#[trigger] fo.files@[t]).datetime)
                            && fo.files@[t].uncompressed_size <= consts::MAX_FILE_SIZE,
                    forall|t: int|
                        0 <= t < fo.files@.len() ==> {
                            let a = #[trigger] fo.files@[t];
                            let b = builder.folders@[k4 as int].files@[t];
                            a.name@ == b.name@ && a.attributes == b.attributes && a.datetime
                                == b.datetime
                        },
                decreases nf - j,
            {
                let ghost out_snap = out@;
                let eo = out.len();
                proof {
                    assert(dt_valid(fo.files@[j as int].datetime));
                }
                let fi = vstd::std_specs::vec::vec_index_mut(&mut fo.files, j);
                fi.entry_offset = eo;
                let (date, time) = datetime_to_bits(fi.datetime);
                push_u32_le(&mut out, 0);
                push_u32_le(&mut out, 0);
                push_u16_le(&mut out, k4 as u16);
                push_u16_le(&mut out, date);
                push_u16_le(&mut out, time);
                push_u16_le(&mut out, fi.attributes);
                out.extend_from_slice(fi.name.as_str().as_bytes());
                out.push(0);
                proof {
                    assert(out@.subrange(0, 36) =~= out_snap.subrange(0, 36));
                }
                j = j + 1;
            }
            k4 = k4 + 1;
        }
        let dir_end = out.len();
        let w = CabinetWriter {
            out,
            folders,
            first_folder_offset,
            folder_reserve: folder_reserve_size,
            first_file_offset: first_file_offset as u32,
            flags,
            num_files_total: num_files as u16,
            dir_end,
            current_folder_index: 0,
            next_file_index: 0,
            offset_within_folder: 0,
            file_open: false,
            in_folder: false,
            failed: false,
            current_file_size: 0,
            fol_first_offset: 0,
            fol_num_blocks: 0,
            fol_finalized: false,
            fol_buffer: Vec::new(),
            fol_blocks: Ghost(Seq::empty()),
            fol_emitted: Ghost(Seq::empty()),
            compressor: FolderCompressor::Plain,
        };
        Ok(w)
    }

    /// Stores the finished size of the file just streamed and advances the
    /// running offset within the folder.
    fn settle_open_file(&mut self)
        requires
            writer_wf(*old(self)),
            old(self).file_open,
        ensures
            writer_wf(*final(self)),
            !final(self).file_open,
            final(self).current_folder_index == old(self).current_folder_index,
            final(self).next_file_index == old(self).next_file_index,
            final(self).in_folder == old(self).in_folder,
            final(self).folders@.len() == old(self).folders@.len(),
            writer_measure(*final(self)) == writer_measure(*old(self)),
            final(self).first_file_offset == old(self).first_file_offset,
            final(self).flags == old(self).flags,
            final(self).num_files_total == old(self).num_files_total,
            final(self).dir_end == old(self).dir_end,
            final(self).fol_finalized == old(self).fol_finalized,
            final(self).failed == old(self).failed,
            final(self).first_folder_offset == old(self).first_folder_offset,
            final(self).folder_reserve == old(self).folder_reserve,
            final(self).offset_within_folder == old(self).offset_within_folder + old(
                self,
            ).current_file_size,
            plan_meta_eq(final(self).folders@, old(self).folders@),
    {
        let cfi = self.current_folder_index;
        let j = self.next_file_index - 1;
        let size = self.current_file_size;
        let ghost folders_old = self.folders@;
        let ghost files_old = self.folders@[cfi as int].files@;
        let fo = vstd::std_specs::vec::vec_index_mut(&mut self.folders, cfi);
        let fi = vstd::std_specs::vec::vec_index_mut(&mut fo.files, j);
        fi.uncompressed_size = size;
        self.offset_within_folder = self.offset_within_folder + size as u64;
        self.current_file_size = 0;
        self.file_open = false;
        proof {
            let files_new = self.folders@[cfi as int].files@;
            assert(files_new =~= files_old.update(j as int, files_new[j as int]));
            lemma_sizes_before_update_beyond(files_old, files_new, j as int);
            assert(self.offset_within_folder == spec_sizes_before(files_new, j + 1));
        }
    }

    /// Opens the next declared file of the current folder: records its
    /// offset within the folder and hands back its writer handle.
    #[verifier::rlimit(100)]
    #[verifier::spinoff_prover]
    fn open_next_file(&mut self) -> (fw: FileWriter)
        requires
            writer_wf(*old(self)),
            !old(self).file_open,
            old(self).in_folder,
            !old(self).fol_finalized,
            old(self).current_folder_index < old(self).folders@.len(),
            old(self).next_file_index < old(self).folders@[
                old(self).current_folder_index as int
            ].files@.len(),
            old(self).offset_within_folder <= 0xffffffffu64,
        ensures
            writer_wf(*final(self)),
            final(self).file_open,
            final(self).current_folder_index == old(self).current_folder_index,
            final(self).next_file_index == old(self).next_file_index + 1,
            final(self).folders@.len() == old(self).folders@.len(),
            final(self).first_file_offset == old(self).first_file_offset,
            final(self).flags == old(self).flags,
            final(self).num_files_total == old(self).num_files_total,
            final(self).dir_end == old(self).dir_end,
            final(self).first_folder_offset == old(self).first_folder_offset,
            final(self).folder_reserve == old(self).folder_reserve,
            plan_meta_eq(final(self).folders@, old(self).folders@),
            writer_measure(*final(self)) < writer_measure(*old(self)),
            fw.name@ == old(self).folders@[old(self).current_folder_index as int].files@[
                old(self).next_file_index as int
            ].name@,
    {
        let cfi = self.current_folder_index;
        let nfi = self.next_file_index;
        let off32 = self.offset_within_folder as u32;
        let ghost folders_old = self.folders@;
        let ghost files_old = self.folders@[cfi as int].files@;
        let fo = vstd::std_specs::vec::vec_index_mut(&mut self.folders, cfi);
        let fi = vstd::std_specs::vec::vec_index_mut(&mut fo.files, nfi);
        fi.offset_within_folder = off32;
        let name = fi.name.clone();
        self.next_file_index = nfi + 1;
        self.file_open = true;
        proof {
            let files_new = self.folders@[cfi as int].files@;
            assert(files_new =~= files_old.update(nfi as int, files_new[nfi as int]));
            lemma_sizes_before_update_beyond(files_old, files_new, nfi as int);
        }
        FileWriter { name }
    }

    /// A writer for the next declared file that still needs its bytes, or
    /// `None` when every file is done and the cabinet can be finished.
    /// Folders are closed as their last file completes: the buffered bytes
    /// go out as a final block.
    #[verifier::rlimit(100)]
    #[verifier::spinoff_prover]
    pub fn next_file(&mut self) -> (r: Result<Option<FileWriter>, CabError>)
        requires
            writer_wf(*old(self)),
        ensures
            writer_wf(*final(self)),
            (r matches Ok(fw) ==> (fw is Some <==> final(self).file_open)),
            (r matches Ok(fw) ==> (fw is Some ==> writer_measure(*final(self)) < writer_measure(
                *old(self),
            ))),
            (r matches Ok(fw) ==> (fw is None ==> final(self).current_folder_index == final(
                self).folders@.len())),
            (!old(self).failed && old(self).file_open && old(self).current_folder_index < old(
                self,
            ).folders@.len() && old(self).next_file_index < old(self).folders@[
                old(self).current_folder_index as int
            ].files@.len() && old(self).offset_within_folder + old(self).current_file_size
                <= 0xffffffffu64 ==> (r matches Ok(f) && f is Some)),
            (r matches Ok(f) ==> (f matches Some(fw) ==> final(self).file_open && final(
                self).next_file_index >= 1 && final(self).current_folder_index < final(
                self).folders@.len() && fw.name@ == final(self).folders@[
                final(self).current_folder_index as int
            ].files@[final(self).next_file_index - 1].name@)),
            final(self).first_file_offset == old(self).first_file_offset,
            final(self).flags == old(self).flags,
            final(self).num_files_total == old(self).num_files_total,
            final(self).dir_end == old(self).dir_end,
            final(self).folders@.len() == old(self).folders@.len(),
            final(self).first_folder_offset == old(self).first_folder_offset,
            final(self).folder_reserve == old(self).folder_reserve,
            plan_meta_eq(final(self).folders@, old(self).folders@),
    {
        if self.file_open {
            self.settle_open_file();
            // A settled mid-folder file is followed directly by the next
            // declared file of the same folder; nothing else moves.
            let cfi = self.current_folder_index;
            if !self.failed && cfi < self.folders.len() && !self.fol_finalized
                && self.next_file_index > 0 && self.next_file_index < self.folders[
                cfi
            ].files.len() && self.offset_within_folder <= 0xffffffffu64 {
                let fw = self.open_next_file();
                return Ok(Some(fw));
            }
        }
        loop
            invariant
                writer_wf(*self),
                !self.file_open,
                writer_measure(*self) <= writer_measure(*old(self)),
                self.first_file_offset == old(self).first_file_offset,
                self.flags == old(self).flags,
                self.num_files_total == old(self).num_files_total,
                self.dir_end == old(self).dir_end,
                self.folders@.len() == old(self).folders@.len(),
                self.first_folder_offset == old(self).first_folder_offset,
                self.folder_reserve == old(self).folder_reserve,
                plan_meta_eq(self.folders@, old(self).folders@),
                !(!old(self).failed && old(self).file_open && old(self).current_folder_index
                    < old(self).folders@.len() && old(self).next_file_index < old(self).folders@[
                    old(self).current_folder_index as int
                ].files@.len() && old(self).offset_within_folder + old(self).current_file_size
                    <= 0xffffffffu64),
            decreases writer_measure(*self),
        {
            if self.failed {
                return Err(CabError::InvalidData("An earlier write failed".to_owned()));
            }
            let cfi = self.current_folder_index;
            if cfi >= self.folders.len() {
                return Ok(None);
            }
            let nfi = self.next_file_index;
            let num_files_here = self.folders[cfi].files.len();
            if nfi < num_files_here {
                if nfi == 0 && !self.in_folder {
                    // Begin the folder at the current end of the output.
                    if self.out.len() > consts::MAX_TOTAL_CAB_SIZE as usize {
                        return Err(
                            CabError::InvalidData("Cabinet file is too large".to_owned()),
                        );
                    }
                    let is_zip = match self.folders[cfi].compression_type {
                        CompressionType::Uncompressed => false,
                        CompressionType::MsZip => true,
                        CompressionType::Quantum(_, _) => {
                            return Err(
                                CabError::InvalidInput(
                                    "Quantum compression is not supported".to_owned(),
                                ),
                            );
                        },
                        CompressionType::Lzx(_) => {
                            return Err(
                                CabError::Unsupported(
                                    "LZX compression is not supported".to_owned(),
                                ),
                            );
                        },
                    };
                    self.fol_first_offset = self.out.len() as u32;
                    self.fol_num_blocks = 0;
                    self.fol_finalized = false;
                    self.in_folder = true;
                    self.compressor = if is_zip {
                        FolderCompressor::Zip(MsZipCompressor::new())
                    } else {
                        FolderCompressor::Plain
                    };
                    self.fol_blocks = Ghost(Seq::empty());
                    self.fol_emitted = Ghost(Seq::empty());
                    proof {
                        lemma_fresh_folder_region(
                            self.out@,
                            self.fol_first_offset as int,
                        );
                    }
                }
                // Begin the next file.
                if self.fol_finalized {
                    self.failed = true;
                    return Err(CabError::InvalidData("Folder already closed".to_owned()));
                }
                if self.offset_within_folder > 0xffffffffu64 {
                    return Err(CabError::InvalidInput("Folder is overfull".to_owned()));
                }
                let off32 = self.offset_within_folder as u32;
                let ghost folders_old = self.folders@;
                let ghost files_old = self.folders@[cfi as int].files@;
                let fo = vstd::std_specs::vec::vec_index_mut(&mut self.folders, cfi);
                let fi = vstd::std_specs::vec::vec_index_mut(&mut fo.files, nfi);
                fi.offset_within_folder = off32;
                let name = fi.name.clone();
                self.next_file_index = nfi + 1;
                self.file_open = true;
                proof {
                    let files_new = self.folders@[cfi as int].files@;
                    assert(files_new =~= files_old.update(nfi as int, files_new[nfi as int]));
                    lemma_sizes_before_update_beyond(files_old, files_new, nfi as int);
                }
                return Ok(Some(FileWriter { name }));
            }
            // End the folder: flush the buffer and record its extent.
            if !self.in_folder {
                // A folder with no files owns no data blocks.
                if self.out.len() > consts::MAX_TOTAL_CAB_SIZE as usize {
                    return Err(CabError::InvalidData("Cabinet file is too large".to_owned()));
                }
                match self.folders[cfi].compression_type {
                    CompressionType::Uncompressed => {},
                    CompressionType::MsZip => {},
                    CompressionType::Quantum(_, _) => {
                        return Err(
                            CabError::InvalidInput(
                                "Quantum compression is not supported".to_owned(),
                            ),
                        );
                    },
                    CompressionType::Lzx(_) => {
                        return Err(
                            CabError::Unsupported("LZX compression is not supported".to_owned()),
                        );
                    },
                }
                self.fol_first_offset = self.out.len() as u32;
                self.fol_num_blocks = 0;
                self.fol_finalized = false;
                self.fol_blocks = Ghost(Seq::empty());
                self.fol_emitted = Ghost(Seq::empty());
                proof {
                    lemma_fresh_folder_region(self.out@, self.fol_first_offset as int);
                }
            }
            if self.fol_buffer.len() > 0 {
                match self.write_data_block(true) {
                    Ok(()) => {},
                    Err(e) => {
                        return Err(e);
                    },
                }
            }
            let first = self.fol_first_offset;
            let nblocks = self.fol_num_blocks;
            let ghost emitted = self.fol_emitted@;
            let ghost blocks_done = self.fol_blocks@;
            let ghost was_zip = self.compressor is Zip;
            let fo = vstd::std_specs::vec::vec_index_mut(&mut self.folders, cfi);
            fo.first_data_block_offset = first;
            fo.num_data_blocks = nblocks;
            fo.content = Ghost(emitted);
            self.in_folder = false;
            self.compressor = FolderCompressor::Plain;
            self.current_folder_index = cfi + 1;
            self.next_file_index = 0;
            self.offset_within_folder = 0;
            proof {
                let f = self.folders@[cfi as int];
                assert(spec_parse_blocks(
                    self.out@,
                    f.first_data_block_offset as int,
                    f.num_data_blocks as nat,
                    0,
                ) == Some(blocks_done));
                assert(spec_folder_content(f.compression_type, blocks_done) == Some(f.content@));
                assert(spec_folder_data_ok(self.out@, f));
            }
            proof {
                assert((self.folders@.len() - self.current_folder_index) * 0x10002 + 0x10002 == (
                self.folders@.len() - self.current_folder_index + 1) * 0x10002)
                    by (nonlinear_arith);
            }
        }
    }

    /// Takes as many of `buf`'s bytes as the open file may still hold
    /// (`MAX_FILE_SIZE` caps a file), buffers them, and emits a data block
    /// whenever the buffer reaches a full block.  Returns how many bytes
    /// were taken; an empty `buf` yields zero, and a file already at the
    /// cap rejects more bytes.
    #[verifier::rlimit(100)]
    #[verifier::spinoff_prover]
    pub fn write_file_data(&mut self, buf: &[u8]) -> (r: Result<usize, CabError>)
        requires
            writer_wf(*old(self)),
            old(self).file_open,
        ensures
            writer_wf(*final(self)),
            (r matches Ok(nw) ==> {
                &&& final(self).file_open
                &&& nw == vstd::math::min(
                    buf@.len() as int,
                    consts::MAX_FILE_SIZE - old(self).current_file_size,
                )
                &&& final(self).current_file_size == old(self).current_file_size + nw
                &&& final(self).current_folder_index == old(self).current_folder_index
                &&& final(self).next_file_index == old(self).next_file_index
                &&& final(self).folders@.len() == old(self).folders@.len()
                &&& final(self).fol_emitted@ + final(self).fol_buffer@ == old(self).fol_emitted@
                    + old(self).fol_buffer@ + buf@.take(nw as int)
                &&& (buf@.len() == 0 ==> nw == 0)
            }),
            (buf@.len() > 0 && old(self).current_file_size == consts::MAX_FILE_SIZE ==> r
                is Err),
            final(self).first_file_offset == old(self).first_file_offset,
            final(self).flags == old(self).flags,
            final(self).num_files_total == old(self).num_files_total,
            final(self).dir_end == old(self).dir_end,
            final(self).folders@ == old(self).folders@,
            plan_meta_eq(final(self).folders@, old(self).folders@),
            ((old(self).compressor is Plain) && !old(self).failed && !(buf@.len() > 0 && old(
                self,
            ).current_file_size == consts::MAX_FILE_SIZE) && old(self).fol_num_blocks + (old(
                self,
            ).fol_buffer@.len() + buf@.len()) / 0x8000 < 0xffff ==> r is Ok),
    {
        if buf.len() == 0 {
            return Ok(0);
        }
        if self.current_file_size == consts::MAX_FILE_SIZE {
            return Err(CabError::InvalidInput("File is already at maximum size".to_owned()));
        }
        let remaining = consts::MAX_FILE_SIZE - self.current_file_size;
        let max_bytes: usize = if buf.len() as u64 <= remaining as u64 {
            buf.len()
        } else {
            remaining as usize
        };
        let mut i: usize = 0;
        while i < max_bytes
            invariant
                writer_wf(*self),
                self.file_open,
                self.file_open == old(self).file_open,
                self.in_folder,
                (old(self).compressor is Plain) == (self.compressor is Plain),
                ((old(self).compressor is Plain) && !old(self).failed ==> !self.failed
                    && self.fol_num_blocks * 0x8000 + self.fol_buffer@.len() == old(
                    self,
                ).fol_num_blocks * 0x8000 + old(self).fol_buffer@.len() + i),
                i <= max_bytes <= buf@.len(),
                self.current_file_size == old(self).current_file_size,
                self.current_folder_index == old(self).current_folder_index,
                self.next_file_index == old(self).next_file_index,
                self.folders@.len() == old(self).folders@.len(),
                self.offset_within_folder == old(self).offset_within_folder,
                self.folders@ == old(self).folders@,
                self.fol_emitted@ + self.fol_buffer@ == old(self).fol_emitted@ + old(
                    self).fol_buffer@ + buf@.take(i as int),
                self.first_file_offset == old(self).first_file_offset,
                self.flags == old(self).flags,
                self.num_files_total == old(self).num_files_total,
                self.dir_end == old(self).dir_end,
                self.first_folder_offset == old(self).first_folder_offset,
                self.folder_reserve == old(self).folder_reserve,
            decreases max_bytes - i,
        {
            if self.fol_buffer.len() == consts::MAX_UNCOMPRESSED_BLOCK_SIZE {
                proof {
                    if old(self).compressor is Plain && !old(self).failed && old(
                        self,
                    ).fol_num_blocks + (old(self).fol_buffer@.len() + buf@.len()) / 0x8000
                        < 0xffff {
                        let nb0: int = old(self).fol_num_blocks as int;
                        let extra: int = old(self).fol_buffer@.len() as int + buf@.len() as int;
                        let nb: int = self.fol_num_blocks as int;
                        assert(nb * 0x8000 + 0x8000 <= nb0 * 0x8000 + extra);
                        assert(nb < nb0 + extra / 0x8000 + 1) by (nonlinear_arith)
                            requires
                                nb * 0x8000 + 0x8000 <= nb0 * 0x8000 + extra,
                                nb0 >= 0,
                                extra >= 0,
                        ;
                        assert(self.fol_num_blocks < 0xffff);
                    }
                }
                match self.write_data_block(false) {
                    Ok(()) => {},
                    Err(e) => {
                        return Err(e);
                    },
                }
            }
            let space = consts::MAX_UNCOMPRESSED_BLOCK_SIZE - self.fol_buffer.len();
            let chunk = if max_bytes - i < space {
                max_bytes - i
            } else {
                space
            };
            let ghost emitted_pre = self.fol_emitted@;
            let ghost buffer_pre = self.fol_buffer@;
            self.fol_buffer.extend_from_slice(&buf[i..i + chunk]);
            proof {
                assert(emitted_pre + (buffer_pre + buf@.subrange(i as int, i + chunk))
                    =~= (emitted_pre + buffer_pre) + buf@.subrange(i as int, i + chunk));
                assert(buf@.take(i as int) + buf@.subrange(i as int, i + chunk) =~= buf@.take(
                    i + chunk,
                ));
                assert((old(self).fol_emitted@ + old(self).fol_buffer@ + buf@.take(i as int))
                    + buf@.subrange(i as int, i + chunk) =~= old(self).fol_emitted@ + old(
                    self).fol_buffer@ + buf@.take(i + chunk));
            }
            i = i + chunk;
        }
        self.current_file_size = self.current_file_size + max_bytes as u32;
        Ok(max_bytes)
    }

    /// Compresses the buffered block under the folder's scheme and appends
    /// its header (checksum over the payload, merged with the sizes), and
    /// the payload, at the end of the output.
    #[verifier::rlimit(100)]
    #[verifier::spinoff_prover]
    fn write_data_block(&mut self, is_last_block: bool) -> (r: Result<(), CabError>)
        requires
            writer_wf(*old(self)),
            old(self).in_folder,
            old(self).fol_buffer@.len() > 0,
            !old(self).fol_finalized,
            (!is_last_block ==> old(self).fol_buffer@.len() == 0x8000),
            (is_last_block ==> !old(self).file_open),
        ensures
            writer_wf(*final(self)),
            (r is Ok ==> final(self).fol_buffer@.len() == 0 && !final(self).failed && final(
                self).fol_emitted@ == old(self).fol_emitted@ + old(self).fol_buffer@),
            (r is Ok ==> final(self).fol_num_blocks == old(self).fol_num_blocks + 1 && final(
                self).fol_finalized == is_last_block),
            (r is Err ==> final(self).fol_finalized == old(self).fol_finalized),
            ((old(self).compressor is Plain) == (final(self).compressor is Plain)),
            (old(self).compressor is Plain && !old(self).failed && old(self).fol_num_blocks
                < 0xffff ==> r is Ok),
            final(self).file_open == old(self).file_open,
            final(self).in_folder,
            final(self).current_folder_index == old(self).current_folder_index,
            final(self).next_file_index == old(self).next_file_index,
            final(self).current_file_size == old(self).current_file_size,
            final(self).offset_within_folder == old(self).offset_within_folder,
            final(self).folders@ == old(self).folders@,
            final(self).first_file_offset == old(self).first_file_offset,
            final(self).flags == old(self).flags,
            final(self).num_files_total == old(self).num_files_total,
            final(self).dir_end == old(self).dir_end,
            final(self).first_folder_offset == old(self).first_folder_offset,
            final(self).folder_reserve == old(self).folder_reserve,
    {
        if self.failed {
            return Err(CabError::InvalidData("An earlier write failed".to_owned()));
        }
        if self.fol_num_blocks == 0xffff {
            self.failed = true;
            return Err(CabError::InvalidData("Folder has too many data blocks".to_owned()));
        }
        let ghost buffer_old = self.fol_buffer@;
        let ghost zip_past: Seq<Seq<u8>> = if self.compressor is Zip {
            self.compressor->Zip_0.blocks()
        } else {
            Seq::empty()
        };
        let usz = self.fol_buffer.len() as u16;
        let compressed: Vec<u8> = match &mut self.compressor {
            FolderCompressor::Plain => copy_range(&self.fol_buffer, 0, self.fol_buffer.len()),
            FolderCompressor::Zip(z) => {
                match z.compress_block(self.fol_buffer.as_slice(), is_last_block) {
                    Ok(c) => c,
                    Err(e) => {
                        self.failed = true;
                        return Err(e);
                    },
                }
            },
        };
        self.fol_buffer.clear();
        let csize = compressed.len() as u16;
        let empty_reserve: Vec<u8> = Vec::new();
        let checksum = block_checksum(&empty_reserve, &compressed, csize, usz);
        let ghost out_snap = self.out@;
        let ghost b = BlockModel {
            checksum,
            csize,
            usz,
            reserve: Seq::empty(),
            payload: compressed@,
        };
        push_u32_le(&mut self.out, checksum);
        push_u16_le(&mut self.out, csize);
        push_u16_le(&mut self.out, usz);
        self.out.extend_from_slice(compressed.as_slice());
        self.fol_num_blocks = self.fol_num_blocks + 1;
        self.fol_finalized = is_last_block;
        self.fol_blocks = Ghost(old(self).fol_blocks@.push(b));
        self.fol_emitted = Ghost(old(self).fol_emitted@ + buffer_old);
        proof {
            let first = old(self).fol_first_offset as int;
            let nb = old(self).fol_num_blocks as nat;
            let blocks_old = old(self).fol_blocks@;
            let emitted_old = old(self).fol_emitted@;
            let base = out_snap.len() as int;
            assert(self.out@.subrange(0, 36) =~= out_snap.subrange(0, 36));
            assert(self.out@.len() == base + 8 + b.csize);
            crate::bytes::lemma_le32_roundtrip(checksum);
            crate::bytes::lemma_le16_roundtrip(csize);
            crate::bytes::lemma_le16_roundtrip(usz);
            assert(crate::bytes::le32_at(self.out@, base) == checksum);
            assert(crate::bytes::le16_at(self.out@, base + 4) == csize);
            assert(crate::bytes::le16_at(self.out@, base + 6) == usz);
            assert(b.reserve =~= self.out@.subrange(base + 8, base + 8));
            assert(b.payload =~= self.out@.subrange(base + 8, self.out@.len() as int));
            lemma_parse_blocks_snoc(out_snap, self.out@, first, nb, 0, b);
            assert(empty_reserve@ =~= Seq::<u8>::empty());
            assert(b.checksum == spec_block_checksum(b.reserve, b.payload, b.csize, b.usz));
            lemma_checksums_ok_push(blocks_old, b);
            assert forall|k: int| 0 <= k < self.current_folder_index implies {
                let f = #[trigger] self.folders@[k];
                self.dir_end <= f.first_data_block_offset as int && spec_folder_data_ok(
                    self.out@,
                    f,
                )
            } by {
                let f = self.folders@[k];
                lemma_parse_blocks_frame(
                    out_snap,
                    self.out@,
                    f.first_data_block_offset as int,
                    f.num_data_blocks as nat,
                    0,
                );
            }
            assert forall|q: int|
                0 <= q < old(self).fol_blocks@.push(b).len() - 1 implies (#[trigger] old(
                self,
            ).fol_blocks@.push(b)[q]).usz == 0x8000 by {
                if q < old(self).fol_blocks@.len() {
                    assert(old(self).fol_blocks@.push(b)[q] == old(self).fol_blocks@[q]);
                }
            }
            if !is_last_block {
                assert forall|q: int|
                    0 <= q < old(self).fol_blocks@.push(b).len() implies (#[trigger] old(
                    self,
                ).fol_blocks@.push(b)[q]).usz == 0x8000 by {
                    if q < old(self).fol_blocks@.len() {
                        assert(old(self).fol_blocks@.push(b)[q] == old(self).fol_blocks@[q]);
                    } else {
                        assert(old(self).fol_blocks@.push(b)[q] == b);
                    }
                }
            }
            match &self.compressor {
                FolderCompressor::Plain => {
                    assert(b.payload == buffer_old);
                    assert(spec_block_payloads(blocks_old.push(b)) =~= spec_block_payloads(
                        blocks_old,
                    ).push(b.payload));
                    spec_block_payloads(blocks_old).lemma_flatten_push(b.payload);
                },
                FolderCompressor::Zip(z) => {
                    assert(mszip_block_ok(zip_past, buffer_old, compressed@));
                    assert(zip_past.flatten() == emitted_old);
                    assert(Seq::<u8>::empty() + emitted_old =~= emitted_old);
                    assert(crate::deflate::spec_dict_accepted(
                        crate::deflate::window_of(emitted_old),
                    ));
                    assert(b.payload.subrange(0, 2) == mszip_signature());
                    lemma_mszip_content_push(blocks_old, b, 0, Seq::empty());
                    assert(z.blocks() =~= zip_past.push(buffer_old));
                    zip_past.lemma_flatten_push(buffer_old);
                },
            }
        }
        Ok(())
    }

    /// Streams any still-unwritten files as empty, closes the last folder,
    /// patches every directory placeholder -- each file's size and offset,
    /// each folder's first-block offset and block count -- and the header's
    /// total size, and hands back the cabinet's bytes together with the
    /// settled plan.  The patched total size equals the returned length
    /// exactly; the plan declares the same folders and files (same schemes,
    /// reserves, names, attributes and timestamps) as the writer was built
    /// over, every file of the plan sits at the sum of the sizes of the
    /// files before it in its folder, and every folder of the plan owns a
    /// data region of the output that parses, passes its checksums, and
    /// decompresses under the folder's scheme to exactly the folder's
    /// streamed content.
    pub fn finish(self) -> (r: Result<(Vec<u8>, Ghost<Seq<FolderBuilder>>), CabError>)
        requires
            writer_wf(self),
        ensures
            (r matches Ok(p) ==> {
                &&& crate::bytes::le32_at(p.0@, 8) == p.0@.len()
                &&& p.0@.len() <= consts::MAX_TOTAL_CAB_SIZE
                &&& p.0@.subrange(0, 36) == spec_header_bytes(
                    p.0@.len() as u32,
                    self.first_file_offset,
                    self.folders@.len() as u16,
                    self.num_files_total,
                    self.flags,
                    0,
                    0,
                )
                &&& plan_meta_eq(p.1@, self.folders@)
                &&& spec_cabinet_data_ok(p.0@, p.1@)
                &&& forall|k: int, j: int|
                    0 <= k < p.1@.len() && 0 <= j < p.1@[k].files@.len() ==> (#[trigger] p.1@[
                        k
                    ].files@[j]).offset_within_folder == spec_sizes_before(p.1@[k].files@, j)
                        && p.1@[k].files@[j].uncompressed_size <= consts::MAX_FILE_SIZE
            }),
    {
        let mut w = self;
        loop
            invariant
                writer_wf(w),
                w.first_file_offset == self.first_file_offset,
                w.flags == self.flags,
                w.num_files_total == self.num_files_total,
                w.folders@.len() == self.folders@.len(),
                plan_meta_eq(w.folders@, self.folders@),
            ensures
                writer_wf(w),
                w.first_file_offset == self.first_file_offset,
                w.flags == self.flags,
                w.num_files_total == self.num_files_total,
                w.folders@.len() == self.folders@.len(),
                plan_meta_eq(w.folders@, self.folders@),
                w.current_folder_index == w.folders@.len(),
            decreases 2 * writer_measure(w) + (if w.file_open {
                1int
            } else {
                0int
            }),
        {
            let ghost before = w.folders@;
            match w.next_file() {
                Ok(Some(_fw)) => {
                    proof {
                        lemma_plan_meta_trans(w.folders@, before, self.folders@);
                    }
                },
                Ok(None) => {
                    proof {
                        lemma_plan_meta_trans(w.folders@, before, self.folders@);
                    }
                    break ;
                },
                Err(e) => {
                    return Err(e);
                },
            }
        }
        // Patch the folder and file directory entries.
        let num_folders = w.folders.len();
        let ghost header_old = w.out@.subrange(0, 36);
        proof {
            assert(header_old == spec_header_bytes(
                0,
                self.first_file_offset,
                self.folders@.len() as u16,
                self.num_files_total,
                self.flags,
                0,
                0,
            ));
            assert(w.current_folder_index == w.folders@.len());
        }
        let mut k: usize = 0;
        while k < num_folders
            invariant
                k <= num_folders == w.folders@.len(),
                36 <= w.dir_end <= w.out@.len(),
                w.out@.len() >= 36,
                w.out@.subrange(0, 36) == header_old,
                plan_meta_eq(w.folders@, self.folders@),
                forall|q: int|
                    0 <= q < w.folders@.len() ==> 36 <= (#[trigger] w.folders@[q]).entry_offset
                        && w.folders@[q].entry_offset + 8 <= w.dir_end,
                forall|q: int, j: int|
                    0 <= q < w.folders@.len() && 0 <= j < w.folders@[q].files@.len() ==> 36 <= (
                    #[trigger] w.folders@[q].files@[j]).entry_offset && w.folders@[q].files@[
                        j
                    ].entry_offset + 16 <= w.dir_end,
                forall|q: int, j: int|
                    0 <= q < w.folders@.len() && 0 <= j < w.folders@[q].files@.len() ==> (
                    #[trigger] w.folders@[q].files@[j]).offset_within_folder == spec_sizes_before(
                        w.folders@[q].files@,
                        j,
                    ) && w.folders@[q].files@[j].uncompressed_size <= consts::MAX_FILE_SIZE,
                forall|q: int|
                    0 <= q < w.folders@.len() ==> w.dir_end <= (
                    #[trigger] w.folders@[q]).first_data_block_offset as int
                        && spec_folder_data_ok(w.out@, w.folders@[q]),
            decreases num_folders - k,
        {
            let eo = w.folders[k].entry_offset;
            let first = w.folders[k].first_data_block_offset;
            let nblocks = w.folders[k].num_data_blocks;
            let ghost before = w.out@;
            set_u32_le(&mut w.out, eo, first);
            set_u16_le(&mut w.out, eo + 4, nblocks);
            proof {
                assert(w.out@.subrange(0, 36) =~= before.subrange(0, 36));
                lemma_data_ok_patch(before, w.out@, w.folders@, w.dir_end as int);
            }
            let nf = w.folders[k].files.len();
            let mut j: usize = 0;
            while j < nf
                invariant
                    j <= nf == w.folders@[k as int].files@.len(),
                    k < w.folders@.len(),
                    num_folders == w.folders@.len(),
                    36 <= w.dir_end <= w.out@.len(),
                    w.out@.len() >= 36,
                    w.out@.subrange(0, 36) == header_old,
                    plan_meta_eq(w.folders@, self.folders@),
                    forall|q: int|
                        0 <= q < w.folders@.len() ==> 36 <= (#[trigger] w.folders@[q]).entry_offset
                            && w.folders@[q].entry_offset + 8 <= w.dir_end,
                    forall|q: int, t: int|
                        0 <= q < w.folders@.len() && 0 <= t < w.folders@[q].files@.len() ==> 36
                            <= (#[trigger] w.folders@[q].files@[t]).entry_offset && w.folders@[
                            q
                        ].files@[t].entry_offset + 16 <= w.dir_end,
                    forall|q: int, t: int|
                        0 <= q < w.folders@.len() && 0 <= t < w.folders@[q].files@.len() ==> (
                        #[trigger] w.folders@[q].files@[t]).offset_within_folder
                            == spec_sizes_before(w.folders@[q].files@, t) && w.folders@[q].files@[
                            t
                        ].uncompressed_size <= consts::MAX_FILE_SIZE,
                    forall|q: int|
                        0 <= q < w.folders@.len() ==> w.dir_end <= (
                        #[trigger] w.folders@[q]).first_data_block_offset as int
                            && spec_folder_data_ok(w.out@, w.folders@[q]),
                decreases nf - j,
            {
                let feo = w.folders[k].files[j].entry_offset;
                let fsz = w.folders[k].files[j].uncompressed_size;
                let foff = w.folders[k].files[j].offset_within_folder;
                let ghost before2 = w.out@;
                set_u32_le(&mut w.out, feo, fsz);
                set_u32_le(&mut w.out, feo + 4, foff);
                proof {
                    assert(w.out@.subrange(0, 36) =~= before2.subrange(0, 36));
                    lemma_data_ok_patch(before2, w.out@, w.folders@, w.dir_end as int);
                }
                j = j + 1;
            }
            k = k + 1;
        }
        if w.out.len() > consts::MAX_TOTAL_CAB_SIZE as usize {
            return Err(CabError::InvalidData("Cabinet file is too large".to_owned()));
        }
        let total = w.out.len() as u32;
        let ghost before3 = w.out@;
        set_u32_le(&mut w.out, 8, total);
        proof {
            let b = crate::bytes::le32_bytes(total);
            assert(w.out@.subrange(0, 36) =~= header_old.update(8, b[0]).update(9, b[1]).update(
                10,
                b[2],
            ).update(11, b[3]));
            crate::format::lemma_header_total_patch(
                total,
                self.first_file_offset,
                self.folders@.len() as u16,
                self.num_files_total,
                self.flags,
            );
            assert(w.out@.subrange(0, 36) == spec_header_bytes(
                total,
                self.first_file_offset,
                self.folders@.len() as u16,
                self.num_files_total,
                self.flags,
                0,
                0,
            ));
            lemma_data_ok_patch(before3, w.out@, w.folders@, w.dir_end as int);
            assert(spec_cabinet_data_ok(w.out@, w.folders@));
        }
        let ghost plan = w.folders@;
        Ok((w.out, Ghost(plan)))
    }
}

/// Directory consistency of a written folder: where every file sits at the
/// sum of the sizes of the files before it -- which the writer maintains
/// for every settled file, and `finish` leaves true of all of them -- the
/// files lie contiguously in ascending order of their offsets.
pub proof fn lemma_folder_offsets_ascend(files: Seq<FileBuilder>, i: int, j: int)
    requires
        forall|t: int|
            0 <= t < files.len() ==> (#[trigger] files[t]).offset_within_folder
                == spec_sizes_before(files, t),
        0 <= i <= j < files.len(),
    ensures
        files[i].offset_within_folder <= files[j].offset_within_folder,
{
    lemma_sizes_before_monotone(files, i, j);
}

/// The sum of the sizes of the files before an index grows with the index.
proof fn lemma_sizes_before_monotone(files: Seq<FileBuilder>, i: int, j: int)
    requires
        0 <= i <= j <= files.len(),
    ensures
        spec_sizes_before(files, i) <= spec_sizes_before(files, j),
    decreases j - i,
{
    if i < j {
        lemma_sizes_before_monotone(files, i, j - 1);
    }
}

/// Directory consistency of a written folder: where every file's size is at
/// most `MAX_FILE_SIZE` -- which the writer enforces while streaming -- the
/// folder's total payload is at most `MAX_FILE_SIZE` times its file count.
pub proof fn lemma_folder_total_size_bound(files: Seq<FileBuilder>, j: int)
    requires
        forall|t: int|
            0 <= t < files.len() ==> (#[trigger] files[t]).uncompressed_size
                <= consts::MAX_FILE_SIZE,
        0 <= j <= files.len(),
    ensures
        spec_sizes_before(files, j) <= j * consts::MAX_FILE_SIZE,
    decreases j,
{
    if j > 0 {
        lemma_folder_total_size_bound(files, j - 1);
        assert((j - 1) * consts::MAX_FILE_SIZE + consts::MAX_FILE_SIZE == j
            * consts::MAX_FILE_SIZE) by (nonlinear_arith);
    }
}

/// Patching bytes below `lo` leaves every folder data region at or past
/// `lo` sound.
proof fn lemma_data_ok_patch(d1: Seq<u8>, d2: Seq<u8>, plan: Seq<FolderBuilder>, lo: int)
    requires
        d1.len() <= d2.len(),
        forall|i: int| lo <= i < d1.len() ==> d1[i] == d2[i],
        forall|k: int|
            0 <= k < plan.len() ==> lo <= (#[trigger] plan[k]).first_data_block_offset as int
                && spec_folder_data_ok(d1, plan[k]),
    ensures
        forall|k: int| 0 <= k < plan.len() ==> spec_folder_data_ok(d2, #[trigger] plan[k]),
{
    assert forall|k: int| 0 <= k < plan.len() implies spec_folder_data_ok(
        d2,
        #[trigger] plan[k],
    ) by {
        let f = plan[k];
        lemma_parse_blocks_frame(
            d1,
            d2,
            f.first_data_block_offset as int,
            f.num_data_blocks as nat,
            0,
        );
    }
}

/// A folder region opened at the end of the output holds zero blocks, which
/// parse, checksum, and decompress to nothing.
proof fn lemma_fresh_folder_region(out: Seq<u8>, off: int)
    requires
        0 <= off <= out.len(),
    ensures
        spec_parse_blocks(out, off, 0, 0) == Some(Seq::<BlockModel>::empty()),
        spec_blocks_checksums_ok(Seq::<BlockModel>::empty()),
        spec_blocks_extent(Seq::<BlockModel>::empty(), 0) == 0,
        spec_block_payloads(Seq::<BlockModel>::empty()).flatten() == Seq::<u8>::empty(),
        spec_mszip_content_from(Seq::<BlockModel>::empty(), 0, Seq::<u8>::empty()) == Some(
            Seq::<u8>::empty(),
        ),
{
    assert(spec_block_payloads(Seq::<BlockModel>::empty()) =~= Seq::<Seq<u8>>::empty());
    assert(Seq::<Seq<u8>>::empty().flatten() =~= Seq::<u8>::empty());
}

/// Updating one file at or past `j` leaves the sum of the sizes before `j`
/// unchanged.
proof fn lemma_sizes_before_update_beyond(
    files_old: Seq<FileBuilder>,
    files_new: Seq<FileBuilder>,
    at: int,
)
    requires
        files_new.len() == files_old.len(),
        forall|t: int| 0 <= t < files_old.len() && t != at ==> files_new[t] == files_old[t],
    ensures
        forall|j: int| 0 <= j <= at ==> spec_sizes_before(files_new, j) == spec_sizes_before(
            files_old,
            j,
        ),
{
    assert forall|j: int| 0 <= j <= at implies spec_sizes_before(files_new, j)
        == spec_sizes_before(files_old, j) by {
        lemma_sizes_before_prefix_eq(files_old, files_new, j);
    }
}

/// Sequences equal before `j` have the same sum of sizes before `j`.
proof fn lemma_sizes_before_prefix_eq(a: Seq<FileBuilder>, b: Seq<FileBuilder>, j: int)
    requires
        a.len() == b.len(),
        forall|t: int| 0 <= t < j && t < a.len() ==> b[t] == a[t],
    ensures
        spec_sizes_before(b, j) == spec_sizes_before(a, j),
    decreases j,
{
    if 0 < j <= a.len() {
        lemma_sizes_before_prefix_eq(a, b, j - 1);
    }
}

} // verus!
