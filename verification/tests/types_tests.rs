use wimlib_kit::types::{
    compression_type_name, WimInfo, WIMLIB_COMPRESSION_TYPE_LZMS, WIMLIB_COMPRESSION_TYPE_LZX,
    WIMLIB_COMPRESSION_TYPE_NONE, WIMLIB_COMPRESSION_TYPE_XPRESS,
};

#[test]
fn compression_names() {
    assert_eq!(compression_type_name(WIMLIB_COMPRESSION_TYPE_NONE), "无压缩");
    assert_eq!(compression_type_name(WIMLIB_COMPRESSION_TYPE_XPRESS), "XPRESS");
    assert_eq!(compression_type_name(WIMLIB_COMPRESSION_TYPE_LZX), "LZX");
    assert_eq!(
        compression_type_name(WIMLIB_COMPRESSION_TYPE_LZMS),
        "LZMS (solid)"
    );
    assert_eq!(compression_type_name(42), "未知");
}

#[test]
fn integrity_flag_is_low_bit() {
    let mut info = WimInfo::zeroed();
    assert!(!info.has_integrity_table());
    info.flags = 0x1;
    assert!(info.has_integrity_table());
    // No bit but the lowest may count as "has an integrity table".
    info.flags = 0xFFFF_FFFE;
    assert!(!info.has_integrity_table());
}

// The plain record holds the same fields as struct wimlib_wim_info and so has
// its size and alignment; the `#[repr(C)]` record that crosses the FFI
// boundary in the program asserts the same numbers at compile time.
#[test]
fn wim_info_matches_c_layout() {
    assert_eq!(std::mem::size_of::<WimInfo>(), 88);
    assert_eq!(std::mem::align_of::<WimInfo>(), 8);
}

#[test]
fn zeroed_info_is_all_zero() {
    let info = WimInfo::zeroed();
    assert_eq!(info.guid, [0u8; 16]);
    assert_eq!(info.image_count, 0);
    assert_eq!(info.total_bytes, 0);
    assert_eq!(info.reserved, [0u32; 9]);
}
