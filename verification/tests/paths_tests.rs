use wimlib_kit::paths::{
    join_text, library_paths, make_swm_glob, path_has_extension, select_swm_parts,
    swm_search_dir, DirEntry,
};
use wimlib_kit::error::WimError;

#[test]
fn swm_glob_plain() {
    assert_eq!(make_swm_glob("test.swm"), "test*.swm");
}

// test.swm / test2.swm / test3.swm all map to the same glob.
#[test]
fn swm_glob_strips_trailing_digits() {
    assert_eq!(make_swm_glob("test3.swm"), "test*.swm");
}

// A stem made only of digits must not be trimmed to nothing.
#[test]
fn swm_glob_all_digit_stem_kept() {
    assert_eq!(make_swm_glob("123.swm"), "123*.swm");
}

#[test]
fn swm_glob_preserves_directory() {
    let g = make_swm_glob("fixtures/test.swm");
    assert!(g.ends_with("test*.swm"), "got: {g}");
    assert!(g.contains("fixtures"), "got: {g}");
}

#[test]
fn swm_glob_joins_like_windows_paths() {
    assert_eq!(make_swm_glob("fixtures/test.swm"), "fixtures\\test*.swm");
    assert_eq!(make_swm_glob("C:\\img\\part12.SWM"), "C:\\img\\part*.swm");
    assert_eq!(make_swm_glob("/test.swm"), "/test*.swm");
    assert_eq!(make_swm_glob("C:\\test.swm"), "C:\\test*.swm");
    assert_eq!(make_swm_glob("C:test2.swm"), "C:test*.swm");
    assert_eq!(make_swm_glob("dir/.swm"), "dir\\.swm*.swm");
    assert_eq!(make_swm_glob("dir/a.b2.swm"), "dir\\a.b*.swm");
    assert_eq!(make_swm_glob("./x.swm"), ".\\x*.swm");
    assert_eq!(make_swm_glob("a//b3.swm"), "a\\b*.swm");
    assert_eq!(make_swm_glob("a/./b.swm"), "a\\b*.swm");
    assert_eq!(make_swm_glob("dir/sub/"), "dir\\sub*.swm");
    assert_eq!(make_swm_glob("\\\\server\\share\\x1.swm"), "\\\\server\\share\\x*.swm");
}

#[test]
fn extension_checks_ignore_case() {
    assert!(path_has_extension("x/test.SWM", "swm"));
    assert!(path_has_extension("out.esd", "esd"));
    assert!(!path_has_extension("out.wim", "esd"));
    assert!(!path_has_extension(".esd", "esd"));
    assert!(!path_has_extension("dir.esd/out", "esd"));
    assert!(!path_has_extension("..", "esd"));
}

#[test]
fn search_dir_is_parent_or_dot() {
    assert_eq!(swm_search_dir("test.swm"), ".");
    assert_eq!(swm_search_dir("fixtures/test.swm"), "fixtures");
    assert_eq!(swm_search_dir("/test.swm"), "/");
    assert_eq!(swm_search_dir("a//b.swm"), "a");
    assert_eq!(swm_search_dir("./b.swm"), ".");
    assert_eq!(swm_search_dir("C:b.swm"), "C:");
}

fn entry(name: &str, path: &str) -> DirEntry {
    DirEntry { name: name.to_string(), path: path.to_string() }
}

#[test]
fn swm_parts_are_filtered_and_sorted() {
    let entries = vec![
        entry("test3.swm", "d/test3.swm"),
        entry("other.swm", "d/other.swm"),
        entry("test.SWM", "d/test.SWM"),
        entry("test2.swm", "d/test2.swm"),
        entry("test.wim", "d/test.wim"),
    ];
    let parts = match select_swm_parts("d/test.swm", &entries) {
        Ok(p) => p,
        Err(_) => panic!("parts expected"),
    };
    assert_eq!(parts, vec!["d/test.SWM", "d/test2.swm", "d/test3.swm"]);
}

#[test]
fn no_swm_parts_is_an_error() {
    let entries = vec![entry("a.wim", "d/a.wim")];
    match select_swm_parts("d/test2.swm", &entries) {
        Err(WimError::Other(m)) => assert_eq!(m, "未找到任何 SWM 分卷（目录 d，前缀 test）"),
        _ => panic!("error expected"),
    }
}

#[test]
fn join_text_follows_windows_join() {
    assert_eq!(join_text("C:\\tools", "libwim-15.dll"), "C:\\tools\\libwim-15.dll");
    assert_eq!(join_text("C:\\tools\\", "libwim-15.dll"), "C:\\tools\\libwim-15.dll");
    assert_eq!(join_text("dir/", "x.dll"), "dir/x.dll");
    assert_eq!(join_text("C:", "x.dll"), "C:x.dll");
    assert_eq!(join_text("", "x.dll"), "x.dll");
    assert_eq!(join_text("dir", "D:x.dll"), "D:x.dll");
}

// The library is looked for beside the program, then in the current
// directory, then by its bare name.
#[test]
fn library_paths_in_documented_order() {
    assert_eq!(
        library_paths(Some("C:\\tools\\wimtool.exe"), Some("D:\\work"), "libwim-15.dll"),
        vec![
            "C:\\tools\\libwim-15.dll".to_string(),
            "D:\\work\\libwim-15.dll".to_string(),
            "libwim-15.dll".to_string(),
        ]
    );
    assert_eq!(
        library_paths(None, None, "libwim-15.dll"),
        vec!["libwim-15.dll".to_string()]
    );
    // A program path without a parent adds no candidate of its own.
    assert_eq!(
        library_paths(Some("C:\\"), Some("w"), "a.dll"),
        vec!["w\\a.dll".to_string(), "a.dll".to_string()]
    );
}

// Paths with a UNC, device or verbatim prefix are read as `std::path` reads
// them on Windows.
#[test]
fn swm_glob_reads_unc_and_device_prefixes() {
    assert_eq!(make_swm_glob(r"\\server\share"), "*.swm");
    assert_eq!(make_swm_glob(r"\\server\share\test2.swm"), r"\\server\share\test*.swm");
    assert_eq!(make_swm_glob(r"\\server\share\dir\test3.swm"), r"\\server\share\dir\test*.swm");
    assert_eq!(make_swm_glob("//server/share/t.swm"), "//server/share/t*.swm");
    assert_eq!(make_swm_glob(r"\\.\pipe\x3.swm"), r"\\.\pipe\x*.swm");
    // Without a share there is no prefix: `\\x3.swm` is the root and a name.
    assert_eq!(make_swm_glob(r"\\x3.swm"), r"\x*.swm");
    assert_eq!(swm_search_dir(r"\\server\share\test.swm"), r"\\server\share\");
    assert_eq!(swm_search_dir(r"\\server\share"), ".");
}

#[test]
fn swm_glob_reads_verbatim_prefixes() {
    // In a verbatim path only `\` separates components.
    assert_eq!(make_swm_glob(r"\\?\C:\dir/a3.swm"), r"\\?\C:\dir\a*.swm");
    // A verbatim path keeps its `.` components.
    assert_eq!(make_swm_glob(r"\\?\C:\x\.\y3.swm"), r"\\?\C:\x\.\y*.swm");
    assert_eq!(make_swm_glob(r"\\?\UNC\server\share\a.swm"), r"\\?\UNC\server\share\a*.swm");
    assert_eq!(swm_search_dir(r"\\?\C:\x\.\y3.swm"), r"\\?\C:\x\.");
}

#[test]
fn join_text_rebuilds_verbatim_paths() {
    assert_eq!(join_text(r"\\?\C:\a\\b", "c/d"), r"\\?\C:\a\b\c\d");
    assert_eq!(join_text(r"\\?\C:\a\b", "../c"), r"\\?\C:\a\c");
    assert_eq!(join_text(r"\\?\C:\a", r"\x"), r"\\?\C:\x");
    assert_eq!(join_text(r"\\?\C:\a", "./x"), r"\\?\C:\a\x");
    assert_eq!(join_text(r"\\server\share", "x"), r"\\server\share\x");
    assert_eq!(join_text(r"C:\a", r"\x"), r"C:\x");
    assert_eq!(join_text(r"C:\a", r"\\srv\sh\x"), r"\\srv\sh\x");
    assert_eq!(
        library_paths(Some(r"\\?\C:\tools\wimtool.exe"), None, "libwim-15.dll"),
        vec![r"\\?\C:\tools\libwim-15.dll".to_string(), "libwim-15.dll".to_string()]
    );
}
