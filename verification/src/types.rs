//! wimlib's constants and the plain-value forms of the records it fills in.

use vstd::prelude::*;

verus! {

/// Length of a WIM GUID in bytes.
pub const WIMLIB_GUID_LEN: usize = 16;

/// Open flag: verify the integrity table while opening.
pub const WIMLIB_OPEN_FLAG_CHECK_INTEGRITY: i32 = 0x0000_0001;
/// Open flag: refuse split (SWM) images.
pub const WIMLIB_OPEN_FLAG_ERROR_IF_SPLIT: i32 = 0x0000_0002;

/// Reference flag: treat the given names as glob patterns.
pub const WIMLIB_REF_FLAG_GLOB_ENABLE: i32 = 0x0000_0001;

/// Write flag: write an integrity table.
pub const WIMLIB_WRITE_FLAG_CHECK_INTEGRITY: i32 = 0x0000_0001;
/// Write flag: recompress data that is already compressed.
pub const WIMLIB_WRITE_FLAG_RECOMPRESS: i32 = 0x0000_0010;
/// Write flag: rebuild the whole file.
pub const WIMLIB_WRITE_FLAG_REBUILD: i32 = 0x0000_0040;
/// Write flag: solid (ESD-style) compression.
pub const WIMLIB_WRITE_FLAG_SOLID: i32 = 0x0000_1000;

/// Image index meaning "every image".
pub const WIMLIB_ALL_IMAGES: i32 = -1;

/// Progress callback answer: go on.
pub const WIMLIB_PROGRESS_STATUS_CONTINUE: i32 = 0;
/// Progress callback answer: abort the operation.
pub const WIMLIB_PROGRESS_STATUS_ABORT: i32 = 1;

/// Progress message: extraction of an image begins.
pub const WIMLIB_PROGRESS_MSG_EXTRACT_IMAGE_BEGIN: i32 = 0;
/// Progress message: directory structure being created.
pub const WIMLIB_PROGRESS_MSG_EXTRACT_FILE_STRUCTURE: i32 = 3;
/// Progress message: file data being extracted (carries byte counts).
pub const WIMLIB_PROGRESS_MSG_EXTRACT_STREAMS: i32 = 4;
/// Progress message: next part of a split pipable WIM.
pub const WIMLIB_PROGRESS_MSG_EXTRACT_SPWM_PART_BEGIN: i32 = 5;
/// Progress message: metadata being applied.
pub const WIMLIB_PROGRESS_MSG_EXTRACT_METADATA: i32 = 6;
/// Progress message: extraction of an image ends.
pub const WIMLIB_PROGRESS_MSG_EXTRACT_IMAGE_END: i32 = 7;
/// Progress message: data being written.
pub const WIMLIB_PROGRESS_MSG_WRITE_STREAMS: i32 = 12;
/// Progress message: integrity table being checked (carries byte counts).
pub const WIMLIB_PROGRESS_MSG_VERIFY_INTEGRITY: i32 = 16;

/// Compression type: none.
pub const WIMLIB_COMPRESSION_TYPE_NONE: i32 = 0;
/// Compression type: XPRESS.
pub const WIMLIB_COMPRESSION_TYPE_XPRESS: i32 = 1;
/// Compression type: LZX.
pub const WIMLIB_COMPRESSION_TYPE_LZX: i32 = 2;
/// Compression type: LZMS.
pub const WIMLIB_COMPRESSION_TYPE_LZMS: i32 = 3;

/// wimlib's success code.
pub const WIMLIB_ERR_SUCCESS: i32 = 0;
/// wimlib's code for a failed integrity check.
pub const WIMLIB_ERR_INTEGRITY: i32 = 13;

/// What wimlib reports about an opened WIM (`struct wimlib_wim_info`).
/// The 32 bits of flag bit-fields are held in `flags`; bit 0 is
/// `has_integrity_table`.
pub struct WimInfo {
    pub guid: [u8; WIMLIB_GUID_LEN],
    pub image_count: u32,
    pub boot_index: u32,
    pub wim_version: u32,
    pub chunk_size: u32,
    pub part_number: u16,
    pub total_parts: u16,
    pub compression_type: i32,
    pub total_bytes: u64,
    pub flags: u32,
    pub reserved: [u32; 9],
}

impl WimInfo {
    /// An all-zero record, the state before wimlib fills it in.
    pub fn zeroed() -> (info: WimInfo)
        ensures
            info.guid@ == Seq::new(16, |i: int| 0u8),
            info.image_count == 0,
            info.boot_index == 0,
            info.wim_version == 0,
            info.chunk_size == 0,
            info.part_number == 0,
            info.total_parts == 0,
            info.compression_type == 0,
            info.total_bytes == 0,
            info.flags == 0,
            info.reserved@ == Seq::new(9, |i: int| 0u32),
    {
        let info = WimInfo {
            guid: [0u8; 16],
            image_count: 0,
            boot_index: 0,
            wim_version: 0,
            chunk_size: 0,
            part_number: 0,
            total_parts: 0,
            compression_type: 0,
            total_bytes: 0,
            flags: 0,
            reserved: [0u32; 9],
        };
        assert(info.guid@ =~= Seq::new(16, |i: int| 0u8));
        assert(info.reserved@ =~= Seq::new(9, |i: int| 0u32));
        info
    }

    /// Whether the WIM carries an integrity table: bit 0 of `flags`.
    pub fn has_integrity_table(&self) -> (r: bool)
        ensures
            r == (self.flags % 2 == 1),
    {
        let f = self.flags;
        assert((f & 1u32 != 0u32) == (f % 2 == 1)) by (bit_vector);
        f & 1 != 0
    }
}

/// The `extract` record of wimlib's progress information, as plain values
/// (the name pointers it also carries are not read).
pub struct ProgressInfoExtract {
    pub image: u32,
    pub extract_flags: u32,
    pub total_bytes: u64,
    pub completed_bytes: u64,
    pub total_streams: u64,
    pub completed_streams: u64,
    pub part_number: u32,
    pub total_parts: u32,
    pub guid: [u8; WIMLIB_GUID_LEN],
    pub current_file_count: u64,
    pub end_file_count: u64,
}

/// The `integrity` record of wimlib's progress information, as plain values
/// (the file name pointer it also carries is not read).
pub struct ProgressInfoIntegrity {
    pub total_bytes: u64,
    pub completed_bytes: u64,
    pub total_chunks: u32,
    pub completed_chunks: u32,
    pub chunk_size: u32,
}

/// The `write_streams` record of wimlib's progress information.
pub struct ProgressInfoWriteStreams {
    pub total_bytes: u64,
    pub total_streams: u64,
    pub completed_bytes: u64,
    pub completed_streams: u64,
    pub num_threads: u32,
    pub compression_type: i32,
    pub total_parts: u32,
    pub completed_parts: u32,
    pub completed_compressed_bytes: u64,
}

/// Readable name of a compression type.
pub open spec fn compression_name(ct: i32) -> Seq<char> {
    if ct == WIMLIB_COMPRESSION_TYPE_NONE {
        "无压缩"@
    } else if ct == WIMLIB_COMPRESSION_TYPE_XPRESS {
        "XPRESS"@
    } else if ct == WIMLIB_COMPRESSION_TYPE_LZX {
        "LZX"@
    } else if ct == WIMLIB_COMPRESSION_TYPE_LZMS {
        "LZMS (solid)"@
    } else {
        "未知"@
    }
}

/// Turns a compression type constant into a readable name
/// (`"未知"` for a value wimlib does not define).
pub fn compression_type_name(ct: i32) -> (r: &'static str)
    ensures
        r@ == compression_name(ct),
{
    if ct == WIMLIB_COMPRESSION_TYPE_NONE {
        "无压缩"
    } else if ct == WIMLIB_COMPRESSION_TYPE_XPRESS {
        "XPRESS"
    } else if ct == WIMLIB_COMPRESSION_TYPE_LZX {
        "LZX"
    } else if ct == WIMLIB_COMPRESSION_TYPE_LZMS {
        "LZMS (solid)"
    } else {
        "未知"
    }
}

} // verus!
