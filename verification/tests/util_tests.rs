use wimlib_kit::util::human_bytes;
use wimlib_kit::wide::{from_wide, to_wide};

#[test]
fn human_bytes_boundaries() {
    assert_eq!(human_bytes(0), "0 B");
    assert_eq!(human_bytes(1), "1 B");
    assert_eq!(human_bytes(1023), "1023 B");
    assert_eq!(human_bytes(1024), "1.00 KiB");
    assert_eq!(human_bytes(1536), "1.50 KiB");
    assert_eq!(human_bytes(1024 * 1024), "1.00 MiB");
    assert_eq!(human_bytes(1024 * 1024 * 1024), "1.00 GiB");
    assert_eq!(human_bytes(1_099_511_627_776), "1.00 TiB");
    assert_eq!(
        human_bytes(3u64 * 1024 * 1024 * 1024 + 512 * 1024 * 1024),
        "3.50 GiB"
    );
}

/// The float computation that the integer one stands for.
fn float_reference(bytes: u64) -> String {
    const UNITS: [&str; 6] = ["B", "KiB", "MiB", "GiB", "TiB", "PiB"];
    if bytes == 0 {
        return "0 B".to_string();
    }
    let mut val = bytes as f64;
    let mut idx = 0;
    while val >= 1024.0 && idx < UNITS.len() - 1 {
        val /= 1024.0;
        idx += 1;
    }
    if idx == 0 {
        format!("{bytes} {}", UNITS[0])
    } else {
        format!("{val:.2} {}", UNITS[idx])
    }
}

#[test]
fn human_bytes_rounds_ties_to_even() {
    // 1152 / 1024 = 1.125 exactly: the tie goes to the even last digit.
    assert_eq!(human_bytes(1152), "1.12 KiB");
    assert_eq!(human_bytes(1152), float_reference(1152));
    // 1.375 KiB, tie rounding up to the even digit 8.
    assert_eq!(human_bytes(1408), "1.38 KiB");
    assert_eq!(human_bytes(1408), float_reference(1408));
}

#[test]
fn human_bytes_just_below_next_unit() {
    // 1023.999... KiB rounds to 1024.00 in the smaller unit.
    assert_eq!(human_bytes(1024 * 1024 - 1), "1024.00 KiB");
    assert_eq!(human_bytes(u64::MAX), "16384.00 PiB");
}

#[test]
fn human_bytes_matches_float_formatting() {
    let mut samples: Vec<u64> = Vec::new();
    for k in 0..64u32 {
        let p = 1u64 << k;
        for d in [0u64, 1, 2, 3, 5, 127, 128, 129, 1000] {
            samples.push(p.wrapping_add(d));
            samples.push(p.wrapping_sub(d));
        }
    }
    let mut x: u64 = 0x9E37_79B9_7F4A_7C15;
    for _ in 0..20000 {
        x ^= x << 13;
        x ^= x >> 7;
        x ^= x << 17;
        samples.push(x);
        samples.push(x >> (x % 64));
    }
    for b in samples {
        assert_eq!(human_bytes(b), float_reference(b), "bytes = {b}");
    }
}

#[test]
fn wide_roundtrip_ascii() {
    let w = to_wide("test.wim");
    assert_eq!(w.last().copied(), Some(0), "to_wide must end in NUL");
    let back = from_wide(Some(w.as_slice()));
    assert_eq!(back.as_deref(), Some("test.wim"));
}

#[test]
fn wide_roundtrip_non_ascii() {
    let s = "镜像 テスト.wim";
    let w = to_wide(s);
    let back = from_wide(Some(w.as_slice()));
    assert_eq!(back.as_deref(), Some(s));
}

#[test]
fn wide_empty_string() {
    let w = to_wide("");
    assert_eq!(w, vec![0u16]);
    let back = from_wide(Some(w.as_slice()));
    assert_eq!(back.as_deref(), Some(""));
}

#[test]
fn from_wide_null_returns_none() {
    let back = from_wide(None);
    assert_eq!(back, None);
}

#[test]
fn to_wide_matches_std_utf16() {
    for s in ["", "a", "C:\\镜像\\install.wim", "emoji 😀 and 𝄞", "\u{FFFF}\u{10000}\u{10FFFF}"] {
        let mut expected: Vec<u16> = s.encode_utf16().collect();
        expected.push(0);
        assert_eq!(to_wide(s), expected);
    }
}

#[test]
fn from_wide_stops_at_first_nul() {
    let w: Vec<u16> = vec![0x61, 0x62, 0, 0x63, 0];
    assert_eq!(from_wide(Some(w.as_slice())).as_deref(), Some("ab"));
    // No terminator at all: the whole buffer is read.
    let w: Vec<u16> = vec![0x61, 0x62];
    assert_eq!(from_wide(Some(w.as_slice())).as_deref(), Some("ab"));
}

#[test]
fn from_wide_replaces_unpaired_surrogates() {
    let cases: Vec<Vec<u16>> = vec![
        vec![0xD83D, 0xDE00, 0],
        vec![0xD83D, 0x61, 0],
        vec![0xDE00, 0x61, 0],
        vec![0x61, 0xD83D, 0],
        vec![0xD800, 0xD800, 0xDC00, 0],
    ];
    for w in cases {
        let end = w.iter().position(|&u| u == 0).unwrap();
        let expected = String::from_utf16_lossy(&w[..end]);
        assert_eq!(from_wide(Some(w.as_slice())), Some(expected));
    }
    assert_eq!(from_wide(Some(&[0xD83D, 0xDE00, 0][..])).as_deref(), Some("😀"));
    assert_eq!(from_wide(Some(&[0xD83D, 0x61, 0][..])).as_deref(), Some("\u{FFFD}a"));
}

#[test]
fn embedded_nul_is_where_reading_stops() {
    // The round trip needs a string without NUL: reading stops at the first one.
    let w = to_wide("a\0b");
    assert_eq!(from_wide(Some(w.as_slice())).as_deref(), Some("a"));
}
