//! Fixed-size records of the file table and of the chunk table.
use vstd::prelude::*;
use crate::bytes::{be_u32, be_word_at};

verus! {

/// Size in bytes of a file-table record.
pub const TOF_ENTRY_SIZE: usize = 20;

/// Size in bytes of a chunk-table record.
pub const TOC_ENTRY_SIZE: usize = 12;

/// One record of the file table.
#[derive(Debug, Clone, Copy, PartialEq, Eq, Structural)]
pub struct ToFEntry {
    /// Offset of the directory path in the name table.
    pub ton_path_offset: u32,
    /// Offset of the file name in the name table.
    pub ton_file_name_offset: u32,
    /// Index of the chunk that holds the file's bytes.
    pub chunk_number: u32,
    /// Where the file's bytes start in the decompressed chunk.
    pub offset_in_chunk: u32,
    /// Number of bytes of the file.
    pub file_size: u32,
}

/// One record of the chunk table.
#[derive(Debug, Clone, Copy, PartialEq, Eq, Structural)]
pub struct ToCEntry {
    /// Offset of the compressed bytes from the start of the raw chunk region.
    pub chunk_offset: u32,
    /// Number of compressed bytes.
    pub chunk_size: u32,
    /// Number of bytes the chunk decompresses to.
    pub decompressed_size: u32,
}

/// The file-table record stored at position `i` of `s`.
pub open spec fn tof_entry_at(s: Seq<u8>, i: int) -> ToFEntry {
    ToFEntry {
        ton_path_offset: be_word_at(s, i) as u32,
        ton_file_name_offset: be_word_at(s, i + 4) as u32,
        chunk_number: be_word_at(s, i + 8) as u32,
        offset_in_chunk: be_word_at(s, i + 12) as u32,
        file_size: be_word_at(s, i + 16) as u32,
    }
}

/// The chunk-table record stored at position `i` of `s`.
pub open spec fn toc_entry_at(s: Seq<u8>, i: int) -> ToCEntry {
    ToCEntry {
        chunk_offset: be_word_at(s, i) as u32,
        chunk_size: be_word_at(s, i + 4) as u32,
        decompressed_size: be_word_at(s, i + 8) as u32,
    }
}

impl ToFEntry {
    /// Decodes the five big-endian fields of a file-table record.
    pub fn parse(data: [u8; TOF_ENTRY_SIZE]) -> (r: Self)
        ensures
            r == tof_entry_at(data@, 0),
    {
        ToFEntry {
            ton_path_offset: be_u32(data[0], data[1], data[2], data[3]),
            ton_file_name_offset: be_u32(data[4], data[5], data[6], data[7]),
            chunk_number: be_u32(data[8], data[9], data[10], data[11]),
            offset_in_chunk: be_u32(data[12], data[13], data[14], data[15]),
            file_size: be_u32(data[16], data[17], data[18], data[19]),
        }
    }
}

impl ToCEntry {
    /// Decodes the three big-endian fields of a chunk-table record.
    pub fn parse(data: [u8; TOC_ENTRY_SIZE]) -> (r: Self)
        ensures
            r == toc_entry_at(data@, 0),
    {
        ToCEntry {
            chunk_offset: be_u32(data[0], data[1], data[2], data[3]),
            chunk_size: be_u32(data[4], data[5], data[6], data[7]),
            decompressed_size: be_u32(data[8], data[9], data[10], data[11]),
        }
    }
}

} // verus!
