//! Reading and writing Windows cabinet (CAB) archives.
//!
//! A cabinet groups files into *folders* (unrelated to filesystem
//! directories); the files of a folder share one compression stream.  The
//! library parses and builds the cabinet byte format in memory: callers hand
//! it the bytes of an existing cabinet, or receive the bytes of a new one.
//! Every function that interprets or produces the format carries a contract
//! over a mathematical model of the bytes, and the contracts are verified.

pub mod builder;
pub mod bytes;
pub mod cabinet;
pub mod checksum;
pub mod consts;
pub mod ctype;
pub mod datetime;
pub mod deflate;
pub mod error;
pub mod format;
pub mod lzx;
pub mod mszip;
pub mod strings;

pub use builder::{CabinetBuilder, CabinetWriter, FileBuilder, FileWriter, FolderBuilder};
pub use cabinet::{Cabinet, FileEntry, FileReader, FolderEntry, FolderReader, SeekPos};
pub use checksum::Checksum;
pub use ctype::CompressionType;
pub use datetime::DateTime;
pub use error::CabError;
pub use mszip::{MsZipCompressor, MsZipDecompressor};
