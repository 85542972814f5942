//! The compression-type bitfield of a folder entry.
//!
//! The low nibble selects the scheme (0 none, 1 MSZIP, 2 Quantum, 3 LZX);
//! Quantum carries a level in bits 4..8 and a memory figure in bits 8..13,
//! LZX carries its window exponent in bits 8..13.

use vstd::prelude::*;

use crate::bytes::lemma_split_at_base;
use crate::error::CabError;

verus! {

/// A scheme for compressing the data of one folder.
#[derive(Clone, Copy, Debug, Hash, PartialEq, Eq, Structural)]
pub enum CompressionType {
    /// No compression.
    Uncompressed,
    /// MSZIP: deflate with a per-block signature and a dictionary carried
    /// across blocks.
    MsZip,
    /// Quantum compression with a level in 1..=7 and a memory figure in
    /// 10..=21.  Recognized, but neither encoded nor decoded.
    Quantum(u16, u16),
    /// LZX compression with a window exponent in 15..=25 (32 KiB to 32 MiB).
    /// Decoded only.
    Lzx(u16),
}

/// The field values a `CompressionType` may carry.
pub open spec fn ctype_wf(ct: CompressionType) -> bool {
    match ct {
        CompressionType::Quantum(level, memory) => 1 <= level <= 7 && 10 <= memory <= 21,
        CompressionType::Lzx(w) => 15 <= w <= 25,
        _ => true,
    }
}

/// The bitfield a compression type encodes to; out-of-range Quantum fields
/// are clamped into range.
pub open spec fn spec_ctype_to_bits(ct: CompressionType) -> u16 {
    match ct {
        CompressionType::Uncompressed => 0u16,
        CompressionType::MsZip => 1u16,
        CompressionType::Quantum(level, memory) => {
            let l: int = if level < 1 {
                1
            } else if level > 7 {
                7
            } else {
                level as int
            };
            let m: int = if memory < 10 {
                10
            } else if memory > 21 {
                21
            } else {
                memory as int
            };
            (2 + l * 16 + m * 256) as u16
        },
        CompressionType::Lzx(w) => (3 + w * 256) as u16,
    }
}

/// The compression type a bitfield decodes to, or `None` where the scheme
/// nibble or a parameter field is out of range.
pub open spec fn spec_ctype_from_bits(bits: u16) -> Option<CompressionType> {
    let scheme = bits % 16;
    if scheme == 0 {
        Some(CompressionType::Uncompressed)
    } else if scheme == 1 {
        Some(CompressionType::MsZip)
    } else if scheme == 2 {
        let level = (bits / 16) % 16;
        let memory = (bits / 256) % 32;
        if 1 <= level <= 7 && 10 <= memory <= 21 {
            Some(CompressionType::Quantum(level as u16, memory as u16))
        } else {
            None
        }
    } else if scheme == 3 {
        let w = (bits / 256) % 32;
        if 15 <= w <= 25 {
            Some(CompressionType::Lzx(w as u16))
        } else {
            None
        }
    } else {
        None
    }
}

impl CompressionType {
    /// Decodes a folder entry's compression bitfield.
    pub fn from_bitfield(bits: u16) -> (r: Result<CompressionType, CabError>)
        ensures
            (r matches Ok(ct) ==> spec_ctype_from_bits(bits) == Some(ct) && ctype_wf(ct)),
            (r matches Err(e) ==> spec_ctype_from_bits(bits) is None && e.is_invalid_data()),
    {
        let scheme = bits % 16;
        if scheme == 0 {
            Ok(CompressionType::Uncompressed)
        } else if scheme == 1 {
            Ok(CompressionType::MsZip)
        } else if scheme == 2 {
            let level = (bits / 16) % 16;
            let memory = (bits / 256) % 32;
            if level < 1 || level > 7 {
                Err(CabError::InvalidData("Invalid Quantum level".to_owned()))
            } else if memory < 10 || memory > 21 {
                Err(CabError::InvalidData("Invalid Quantum memory".to_owned()))
            } else {
                Ok(CompressionType::Quantum(level, memory))
            }
        } else if scheme == 3 {
            let w = (bits / 256) % 32;
            if w < 15 || w > 25 {
                Err(CabError::InvalidData("Invalid LZX window".to_owned()))
            } else {
                Ok(CompressionType::Lzx(w))
            }
        } else {
            Err(CabError::InvalidData("Invalid compression type".to_owned()))
        }
    }

    /// Encodes the compression type as a folder entry's bitfield.
    pub fn to_bitfield(self) -> (r: u16)
        requires
            (self matches CompressionType::Lzx(w) ==> 15 <= w <= 25),
        ensures
            r == spec_ctype_to_bits(self),
    {
        match self {
            CompressionType::Uncompressed => 0,
            CompressionType::MsZip => 1,
            CompressionType::Quantum(level, memory) => {
                let l = if level < 1 {
                    1
                } else if level > 7 {
                    7
                } else {
                    level
                };
                let m = if memory < 10 {
                    10
                } else if memory > 21 {
                    21
                } else {
                    memory
                };
                2 + l * 16 + m * 256
            },
            CompressionType::Lzx(w) => 3 + w * 256,
        }
    }
}

/// Decoding inverts encoding: a compression type with fields in range comes
/// back exactly from its bitfield.
pub proof fn lemma_ctype_bits_roundtrip(ct: CompressionType)
    requires
        ctype_wf(ct),
    ensures
        spec_ctype_from_bits(spec_ctype_to_bits(ct)) == Some(ct),
{
    match ct {
        CompressionType::Uncompressed => {},
        CompressionType::MsZip => {},
        CompressionType::Quantum(level, memory) => {
            let l = level as int;
            let m = memory as int;
            let bits = spec_ctype_to_bits(ct) as int;
            assert(bits == 2 + l * 16 + m * 256);
            lemma_split_at_base(l + m * 16, 2, 16);
            assert((l + m * 16) * 16 + 2 == 2 + l * 16 + m * 256) by (nonlinear_arith);
            assert(bits % 16 == 2);
            assert(bits / 16 == l + m * 16);
            lemma_split_at_base(m, l, 16);
            assert((bits / 16) % 16 == l);
            lemma_split_at_base(m, 2 + l * 16, 256);
            assert(bits / 256 == m);
            lemma_split_at_base(0, m, 32);
            assert((bits / 256) % 32 == m);
        },
        CompressionType::Lzx(w) => {
            let wi = w as int;
            let bits = spec_ctype_to_bits(ct) as int;
            assert(bits == 3 + wi * 256);
            lemma_split_at_base(wi * 16, 3, 16);
            assert((wi * 16) * 16 + 3 == 3 + wi * 256) by (nonlinear_arith);
            assert(bits % 16 == 3);
            lemma_split_at_base(wi, 3, 256);
            assert(bits / 256 == wi);
            lemma_split_at_base(0, wi, 32);
            assert((bits / 256) % 32 == wi);
        },
    }
}

} // verus!
