use wimlib_kit::cli::{
    capture_plan, convert_plan, exit_status, extract_plan, image_lines, info_lines, info_report,
    join_plan,
    optimize_plan, split_plan, verify_failure_notice, verify_passed_message, ImageProperties,
};
use wimlib_kit::error::WimError;
use wimlib_kit::parse::{parse_compression, parse_i32, parse_image_index, parse_u64, resolve_target};
use wimlib_kit::types::WimInfo;

fn other_message(e: WimError) -> String {
    match e {
        WimError::Other(m) => m,
        _ => panic!("Other error expected"),
    }
}

#[test]
fn integer_parsing_follows_str_parse() {
    for s in [
        "", "+", "-", "0", "1", "+7", "-7", "007", "2147483647", "2147483648", "-2147483648",
        "-2147483649", "1 ", " 1", "1a", "++1", "+-1", "99999999999999999999999", "٣",
    ] {
        assert_eq!(parse_i32(s), s.parse::<i32>().ok(), "i32 {s:?}");
        assert_eq!(parse_u64(s), s.parse::<u64>().ok(), "u64 {s:?}");
    }
    assert_eq!(parse_u64("18446744073709551615"), Some(u64::MAX));
    assert_eq!(parse_u64("18446744073709551616"), None);
    assert_eq!(parse_u64("-1"), None);
}

#[test]
fn image_index_accepts_all_and_numbers() {
    assert_eq!(parse_image_index("ALL").ok(), Some(-1));
    assert_eq!(parse_image_index("2").ok(), Some(2));
    let e = parse_image_index("two").err().unwrap();
    assert_eq!(other_message(e), "无效的卷号: two（应为正整数或 all）");
    let e = parse_image_index("0").err().unwrap();
    assert_eq!(other_message(e), "无效的卷号: 0（应为正整数或 all）");
    let e = parse_image_index("-1").err().unwrap();
    assert_eq!(other_message(e), "无效的卷号: -1（应为正整数或 all）");
    assert_eq!(parse_image_index("+3").ok(), Some(3));
}

#[test]
fn compression_names_parse_in_any_case() {
    assert_eq!(parse_compression("NONE").ok(), Some(0));
    assert_eq!(parse_compression("Xpress").ok(), Some(1));
    assert_eq!(parse_compression("lzx").ok(), Some(2));
    assert_eq!(parse_compression("LZMS").ok(), Some(3));
    let e = parse_compression("ZIP").err().unwrap();
    assert_eq!(other_message(e), "未知压缩类型: zip（可选 none|xpress|lzx|lzms）");
}

#[test]
fn target_follows_to_then_extension() {
    assert_eq!(resolve_target("out.esd", None, None).ok(), Some((3, true, true)));
    assert_eq!(resolve_target("out.wim", None, None).ok(), Some((2, false, false)));
    assert_eq!(resolve_target("out.esd", Some("WIM"), None).ok(), Some((2, false, false)));
    assert_eq!(resolve_target("out.wim", Some("esd"), Some("xpress")).ok(), Some((1, false, true)));
    assert_eq!(resolve_target("out.wim", None, Some("lzms")).ok(), Some((3, true, false)));
    let e = resolve_target("out.wim", Some("zip"), Some("bogus")).err().unwrap();
    assert_eq!(other_message(e), "未知目标类型: zip（可选 wim|esd）");
    let e = resolve_target("out.wim", None, Some("bogus")).err().unwrap();
    assert_eq!(other_message(e), "未知压缩类型: bogus（可选 none|xpress|lzx|lzms）");
}

#[test]
fn convert_and_capture_plans() {
    let p = convert_plan("a.esd", "b.wim", None, None, true).ok().unwrap();
    assert_eq!((p.compression, p.solid, p.to_esd), (2, false, false));
    assert_eq!(p.write_flags, 0x41);
    assert_eq!(p.banner, "转换 a.esd -> b.wim（WIM，LZX）");
    assert_eq!(p.done, "转换完成 -> b.wim");
    assert!(p.intro.is_none());

    let p = capture_plan("C:\\MyApp", "MyApp.esd", None, None, false).ok().unwrap();
    assert_eq!(p.write_flags, 0x1040);
    assert_eq!(p.intro.as_deref(), Some("正在扫描并捕获目录 C:\\MyApp ..."));
    assert_eq!(p.banner, "制作 C:\\MyApp -> MyApp.esd（ESD，LZMS (solid)）");
    assert_eq!(p.done, "制作完成 -> MyApp.esd");
}

#[test]
fn split_join_optimize_plans() {
    let (size, p) = split_plan("i.wim", "p.swm", 3800, false);
    assert_eq!(size, 3800 * 1024 * 1024);
    assert_eq!(p.write_flags, 0);
    assert_eq!(p.banner, "分卷 i.wim -> p.swm（每片 ≤ 3800 MiB）");
    assert_eq!(p.done, "分卷完成 -> p.swm");
    assert_eq!(split_plan("i.wim", "p.swm", 0, true).0, 1024 * 1024);
    assert_eq!(split_plan("i.wim", "p.swm", 0, true).1.write_flags, 1);
    assert_eq!(split_plan("i.wim", "p.swm", u64::MAX, false).0, u64::MAX);

    let j = join_plan(3, "o.wim", true);
    assert_eq!(j.write_flags, 1);
    assert_eq!(j.banner, "合并 3 个分卷 -> o.wim");
    assert_eq!(j.done, "合并完成 -> o.wim");

    let o = optimize_plan("i.wim", true, true);
    assert_eq!(o.write_flags, 0x51);
    assert_eq!(o.banner, "优化（原地重写）i.wim ...");
    assert_eq!(o.done, "优化完成 -> i.wim");
    assert_eq!(optimize_plan("i.wim", false, false).write_flags, 0x40);
}

#[test]
fn extract_plan_handles_split_images() {
    let p = extract_plan("fixtures/test.swm", "1", "out").ok().unwrap();
    assert_eq!(p.image_index, 1);
    assert_eq!(p.swm_glob.as_deref(), Some("fixtures\\test*.swm"));
    assert_eq!(
        p.glob_notice.as_deref(),
        Some("检测到 SWM 分卷，引用其余分片: fixtures\\test*.swm")
    );
    assert_eq!(p.done, "解包完成 -> out");
    let p = extract_plan("test.wim", "all", "out").ok().unwrap();
    assert_eq!(p.image_index, -1);
    assert!(p.swm_glob.is_none());
    assert!(extract_plan("test.wim", "x", "out").is_err());
    assert!(extract_plan("test.wim", "0", "out").is_err());
    assert!(extract_plan("test.wim", "-1", "out").is_err());
}

#[test]
fn exit_status_separates_corrupt_images() {
    assert_eq!(exit_status(&Ok(())), 0);
    let corrupt = WimError::Wimlib { code: 13, message: "bad".to_string() };
    assert_eq!(exit_status(&Err(corrupt)), 2);
    let other = WimError::Wimlib { code: 47, message: "x".to_string() };
    assert_eq!(exit_status(&Err(other)), 1);
    assert_eq!(exit_status(&Err(WimError::Other("x".to_string()))), 1);
}

#[test]
fn verify_messages() {
    assert_eq!(verify_passed_message(true), "校验通过：镜像完整性 OK");
    assert!(verify_passed_message(false).starts_with("⚠"));
    let corrupt = WimError::Wimlib { code: 13, message: "bad".to_string() };
    assert!(verify_failure_notice(&corrupt).is_some());
    assert!(verify_failure_notice(&WimError::Other("x".to_string())).is_none());
}

#[test]
fn info_lines_describe_the_image() {
    let mut info = WimInfo::zeroed();
    info.image_count = 2;
    info.wim_version = 0x10d00;
    info.compression_type = 2;
    info.chunk_size = 32768;
    info.part_number = 1;
    info.total_parts = 3;
    info.flags = 1;
    info.total_bytes = 1536;
    let lines = info_lines("1.14.4", "test.wim", &info);
    assert_eq!(
        lines,
        vec![
            "wimlib   : 1.14.4",
            "镜像文件 : test.wim",
            "卷数     : 2",
            "WIM 版本 : 0x00010d00",
            "压缩方式 : LZX",
            "块大小   : 32.00 KiB",
            "分卷     : 第 1/3 片",
            "完整性表 : 有",
            "本卷大小 : 1.50 KiB",
            "",
        ]
    );
    info.total_parts = 1;
    info.flags = 0;
    let lines = info_lines("1.14.4", "test.wim", &info);
    assert_eq!(lines.len(), 9);
    assert_eq!(lines[6], "完整性表 : 无");
}

#[test]
fn image_lines_show_present_properties() {
    let props = ImageProperties {
        name: Some("Windows".to_string()),
        display_name: None,
        description: Some("desc".to_string()),
        product_name: None,
        flags: Some("Professional".to_string()),
        total_bytes: Some("1048576".to_string()),
    };
    assert_eq!(
        image_lines(1, &props),
        vec![
            "── 卷 1 ──",
            "  名称       : Windows",
            "  描述       : desc",
            "  FLAGS      : Professional",
            "  数据大小   : 1.00 MiB",
        ]
    );
    let props = ImageProperties {
        name: None,
        display_name: None,
        description: None,
        product_name: None,
        flags: None,
        total_bytes: Some("many".to_string()),
    };
    assert_eq!(image_lines(2, &props), vec!["── 卷 2 ──"]);
}

#[test]
fn error_from_code_uses_description_or_code() {
    match WimError::from_code(13, Some("integrity".to_string())) {
        WimError::Wimlib { code, message } => {
            assert_eq!(code, 13);
            assert_eq!(message, "integrity");
        }
        _ => panic!("Wimlib error expected"),
    }
    match WimError::from_code(-5, None) {
        WimError::Wimlib { code, message } => {
            assert_eq!(code, -5);
            assert_eq!(message, "错误码 -5");
        }
        _ => panic!("Wimlib error expected"),
    }
    assert!(WimError::from_code(13, None).is_integrity_failure());
    assert!(!WimError::from_code(12, None).is_integrity_failure());
}

#[test]
fn info_report_has_one_section_per_image_in_order() {
    let mut info = WimInfo::zeroed();
    info.image_count = 2;
    let props = vec![
        ImageProperties {
            name: Some("A".to_string()),
            display_name: None,
            description: None,
            product_name: None,
            flags: None,
            total_bytes: None,
        },
        ImageProperties {
            name: Some("B".to_string()),
            display_name: None,
            description: None,
            product_name: None,
            flags: None,
            total_bytes: Some("2048".to_string()),
        },
    ];
    let lines = info_report("1.14.4", "test.wim", &info, &props);
    let header = info_lines("1.14.4", "test.wim", &info);
    assert_eq!(&lines[..header.len()], &header[..]);
    assert_eq!(
        &lines[header.len()..],
        &[
            "── 卷 1 ──",
            "  名称       : A",
            "── 卷 2 ──",
            "  名称       : B",
            "  数据大小   : 2.00 KiB",
        ]
    );
}
