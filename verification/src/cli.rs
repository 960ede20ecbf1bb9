//! The tool's commands and every decision they make before and after
//! talking to wimlib: write flags, sizes, the messages they print, and the
//! exit status.

use vstd::prelude::*;
use crate::error::WimError;
use crate::order::texts;
use crate::parse::{
    index_choice, opt_text, parse_image_index, parse_u64, parsed_in_range, resolve_target,
    target_choice,
};
use crate::paths::{has_extension, make_swm_glob, path_has_extension, swm_glob};
use crate::types::{
    compression_name, compression_type_name, WimInfo, WIMLIB_WRITE_FLAG_CHECK_INTEGRITY,
    WIMLIB_WRITE_FLAG_REBUILD, WIMLIB_WRITE_FLAG_RECOMPRESS, WIMLIB_WRITE_FLAG_SOLID,
};
use crate::util::{decimal, digit_char, human_bytes, human_bytes_text, push_char, push_decimal};

verus! {

broadcast use vstd::string::group_string_axioms;

/// Command line of the tool.
pub struct Cli {
    pub command: Command,
}

/// The tool's subcommands and their arguments.
pub enum Command {
    /// Print what the image holds.
    Info { image: String },
    /// Check the image's integrity.
    Verify { image: String },
    /// Apply image `index` (1-based, or `all`) to directory `dest`.
    Extract { image: String, index: String, dest: String },
    /// Export every image into a new WIM or ESD container.
    Convert {
        image: String,
        dest: String,
        to: Option<String>,
        compress: Option<String>,
        check: bool,
    },
    /// Capture a directory into a new WIM or ESD file.
    Capture {
        source: String,
        dest: String,
        name: Option<String>,
        to: Option<String>,
        compress: Option<String>,
        check: bool,
    },
    /// Split an image into SWM parts of at most `size` MiB.
    Split { image: String, dest: String, size: u64, check: bool },
    /// Join the parts of a split image into one WIM.
    Join { image: String, dest: String, check: bool },
    /// Rewrite an image in place, rebuilt and optionally recompressed.
    Optimize { image: String, recompress: bool, check: bool },
}

/// Exit status for a corrupt image, apart from other failures.
pub const EXIT_CORRUPT: i32 = 2;

/// The process exit status for a command's outcome: 0 on success,
/// `EXIT_CORRUPT` when the image failed its integrity check, 1 otherwise.
pub fn exit_status(outcome: &Result<(), WimError>) -> (code: u8)
    ensures
        outcome is Ok ==> code == 0,
        outcome matches Err(e) ==> code == (if e.integrity_failure() {
            EXIT_CORRUPT as u8
        } else {
            1u8
        }),
{
    match outcome {
        Ok(()) => 0,
        Err(e) => if e.is_integrity_failure() {
            2
        } else {
            1
        },
    }
}

/// Write flags for rewriting an image: rebuild, plus solid compression and an
/// integrity table when asked.
pub open spec fn rebuild_flags(solid: bool, check: bool) -> int {
    WIMLIB_WRITE_FLAG_REBUILD + (if solid { WIMLIB_WRITE_FLAG_SOLID as int } else { 0 }) + (if check {
        WIMLIB_WRITE_FLAG_CHECK_INTEGRITY as int
    } else {
        0
    })
}

/// Write flags for an in-place rewrite: rebuild, plus recompression and an
/// integrity table when asked.
pub open spec fn optimize_flags(recompress: bool, check: bool) -> int {
    WIMLIB_WRITE_FLAG_REBUILD + (if recompress {
        WIMLIB_WRITE_FLAG_RECOMPRESS as int
    } else {
        0
    }) + (if check { WIMLIB_WRITE_FLAG_CHECK_INTEGRITY as int } else { 0 })
}

/// An in-place rewrite always rebuilds (0x40); `--recompress` adds 0x10 and
/// `--check` adds 0x1, each on its own.
pub proof fn lemma_optimize_flags(recompress: bool, check: bool)
    ensures
        optimize_flags(recompress, check) == 0x40 + (if recompress {
            0x10int
        } else {
            0
        }) + (if check {
            1int
        } else {
            0
        }),
{
}

/// Write flags that only ask for an integrity table, when `check`.
pub open spec fn check_flags(check: bool) -> int {
    if check { WIMLIB_WRITE_FLAG_CHECK_INTEGRITY as int } else { 0 }
}

fn or_flags(a: i32, b: i32) -> (r: i32)
    requires
        0 <= a <= 0x1fff,
        b == 0 || b == 1 || b == 0x10 || b == 0x1000,
        a & b == 0,
    ensures
        r == a + b,
{
    assert(a | b == a + b) by (bit_vector)
        requires
            0 <= a <= 0x1fff,
            b == 0 || b == 1 || b == 0x10 || b == 0x1000,
            a & b == 0,
    ;
    a | b
}

fn rebuild_write_flags(solid: bool, check: bool) -> (r: i32)
    ensures
        r == rebuild_flags(solid, check),
{
    let mut f = WIMLIB_WRITE_FLAG_REBUILD;
    if solid {
        assert(0x40i32 & 0x1000i32 == 0) by (bit_vector);
        f = or_flags(f, WIMLIB_WRITE_FLAG_SOLID);
    }
    if check {
        assert(0x40i32 & 1i32 == 0) by (bit_vector);
        assert(0x1040i32 & 1i32 == 0) by (bit_vector);
        f = or_flags(f, WIMLIB_WRITE_FLAG_CHECK_INTEGRITY);
    }
    f
}

/// What a convert or capture run does once its arguments are read.
pub struct WritePlan {
    /// Compression type of the output.
    pub compression: i32,
    /// Whether the output is written with solid compression.
    pub solid: bool,
    /// Whether the output is an ESD container (else WIM).
    pub to_esd: bool,
    /// Flags for the final write.
    pub write_flags: i32,
    /// Line printed before the work starts, if any.
    pub intro: Option<String>,
    /// Line printed before writing.
    pub banner: String,
    /// Line printed on success.
    pub done: String,
}

/// `"ESD"` or `"WIM"`.
pub open spec fn container_name(esd: bool) -> Seq<char> {
    if esd { "ESD"@ } else { "WIM"@ }
}

/// The banner `"<verb> <from> -> <dest>（<container>，<compression>）"`.
pub open spec fn write_banner(verb: Seq<char>, from: Seq<char>, dest: Seq<char>, esd: bool, ct: i32) -> Seq<char> {
    verb + " "@ + from + " -> "@ + dest + "（"@ + container_name(esd) + "，"@ + compression_name(ct)
        + "）"@
}

/// The success line `"<verb>完成 -> <target>"`.
pub open spec fn done_line(verb: Seq<char>, target: Seq<char>) -> Seq<char> {
    verb + "完成 -> "@ + target
}

/// Whether `plan` is the plan of a convert or capture run: with `verb` and
/// source `from`, writing `dest` as `choice` resolved, with an integrity table
/// when `check`.
pub open spec fn is_write_plan(
    r: Result<WritePlan, WimError>,
    choice: Result<(i32, bool, bool), Seq<char>>,
    verb: Seq<char>,
    from: Seq<char>,
    dest: Seq<char>,
    check: bool,
    intro: Option<Seq<char>>,
) -> bool {
    match choice {
        Err(msg) => r matches Err(WimError::Other(m)) && m@ == msg,
        Ok((ct, solid, esd)) => r matches Ok(p) && p.compression == ct && p.solid == solid
            && p.to_esd == esd && p.write_flags == rebuild_flags(solid, check) && p.banner@
            == write_banner(verb, from, dest, esd, ct) && p.done@ == done_line(verb, dest) && match intro {
            Some(t) => p.intro matches Some(x) && x@ == t,
            None => p.intro is None,
        },
    }
}

fn banner_text(verb: &str, from: &str, dest: &str, esd: bool, ct: i32) -> (r: String)
    ensures
        r@ == write_banner(verb@, from@, dest@, esd, ct),
{
    let mut b = String::from_str(verb);
    b.append(" ");
    b.append(from);
    b.append(" -> ");
    b.append(dest);
    b.append("（");
    b.append(if esd { "ESD" } else { "WIM" });
    b.append("，");
    b.append(compression_type_name(ct));
    b.append("）");
    b
}

fn done_text(verb: &str, target: &str) -> (r: String)
    ensures
        r@ == done_line(verb@, target@),
{
    let mut d = String::from_str(verb);
    d.append("完成 -> ");
    d.append(target);
    d
}

/// Decides a convert run: exports every image of `image` into `dest`.
pub fn convert_plan(
    image: &str,
    dest: &str,
    to: Option<&str>,
    compress: Option<&str>,
    check: bool,
) -> (r: Result<WritePlan, WimError>)
    ensures
        is_write_plan(
            r,
            target_choice(dest@, opt_text(to), opt_text(compress)),
            "转换"@,
            image@,
            dest@,
            check,
            None,
        ),
{
    let (ct, solid, esd) = resolve_target(dest, to, compress)?;
    Ok(WritePlan {
        compression: ct,
        solid,
        to_esd: esd,
        write_flags: rebuild_write_flags(solid, check),
        intro: None,
        banner: banner_text("转换", image, dest, esd, ct),
        done: done_text("转换", dest),
    })
}

/// The line printed before a directory is captured.
pub open spec fn capture_intro(source: Seq<char>) -> Seq<char> {
    "正在扫描并捕获目录 "@ + source + " ..."@
}

/// Decides a capture run: captures directory `source` into `dest`.
pub fn capture_plan(
    source: &str,
    dest: &str,
    to: Option<&str>,
    compress: Option<&str>,
    check: bool,
) -> (r: Result<WritePlan, WimError>)
    ensures
        is_write_plan(
            r,
            target_choice(dest@, opt_text(to), opt_text(compress)),
            "制作"@,
            source@,
            dest@,
            check,
            Some(capture_intro(source@)),
        ),
{
    let (ct, solid, esd) = resolve_target(dest, to, compress)?;
    let mut intro = String::from_str("正在扫描并捕获目录 ");
    intro.append(source);
    intro.append(" ...");
    Ok(WritePlan {
        compression: ct,
        solid,
        to_esd: esd,
        write_flags: rebuild_write_flags(solid, check),
        intro: Some(intro),
        banner: banner_text("制作", source, dest, esd, ct),
        done: done_text("制作", dest),
    })
}

/// What a split, join or optimize run does.
pub struct TaskPlan {
    /// Flags for the write.
    pub write_flags: i32,
    /// Line printed before the work starts.
    pub banner: String,
    /// Line printed on success.
    pub done: String,
}

/// Size in bytes of each part for `size_mib` MiB: at least 1 MiB, saturated
/// at `u64::MAX`.
pub open spec fn part_size_bytes(size_mib: u64) -> int {
    let mib = if size_mib == 0 { 1 } else { size_mib as int };
    if mib * 1048576 > u64::MAX { u64::MAX as int } else { mib * 1048576 }
}

/// The banner of a split run.
pub open spec fn split_banner(image: Seq<char>, dest: Seq<char>, size_mib: u64) -> Seq<char> {
    "分卷 "@ + image + " -> "@ + dest + "（每片 ≤ "@ + decimal(size_mib as nat) + " MiB）"@
}

/// Decides a split run: the part size and the plan.
pub fn split_plan(image: &str, dest: &str, size_mib: u64, check: bool) -> (r: (u64, TaskPlan))
    ensures
        r.0 == part_size_bytes(size_mib),
        r.1.write_flags == check_flags(check),
        r.1.banner@ == split_banner(image@, dest@, size_mib),
        r.1.done@ == done_line("分卷"@, dest@),
{
    let mib: u64 = if size_mib < 1 { 1 } else { size_mib };
    let part_size = match mib.checked_mul(1024 * 1024) {
        Some(v) => v,
        None => u64::MAX,
    };
    let mut banner = String::from_str("分卷 ");
    banner.append(image);
    banner.append(" -> ");
    banner.append(dest);
    banner.append("（每片 ≤ ");
    push_decimal(&mut banner, size_mib as u128);
    banner.append(" MiB）");
    let flags = if check { WIMLIB_WRITE_FLAG_CHECK_INTEGRITY } else { 0 };
    (part_size, TaskPlan { write_flags: flags, banner, done: done_text("分卷", dest) })
}

/// The banner of a join run over `parts` parts.
pub open spec fn join_banner(parts: nat, dest: Seq<char>) -> Seq<char> {
    "合并 "@ + decimal(parts) + " 个分卷 -> "@ + dest
}

/// Decides a join run of `parts` parts into `dest`.
pub fn join_plan(parts: usize, dest: &str, check: bool) -> (r: TaskPlan)
    ensures
        r.write_flags == check_flags(check),
        r.banner@ == join_banner(parts as nat, dest@),
        r.done@ == done_line("合并"@, dest@),
{
    let mut banner = String::from_str("合并 ");
    push_decimal(&mut banner, parts as u128);
    banner.append(" 个分卷 -> ");
    banner.append(dest);
    let flags = if check { WIMLIB_WRITE_FLAG_CHECK_INTEGRITY } else { 0 };
    TaskPlan { write_flags: flags, banner, done: done_text("合并", dest) }
}

/// The banner of an optimize run.
pub open spec fn optimize_banner(image: Seq<char>) -> Seq<char> {
    "优化（原地重写）"@ + image + " ..."@
}

/// Decides an in-place optimize run of `image`.
pub fn optimize_plan(image: &str, recompress: bool, check: bool) -> (r: TaskPlan)
    ensures
        r.write_flags == optimize_flags(recompress, check),
        r.banner@ == optimize_banner(image@),
        r.done@ == done_line("优化"@, image@),
{
    let mut f = WIMLIB_WRITE_FLAG_REBUILD;
    if recompress {
        assert(0x40i32 & 0x10i32 == 0) by (bit_vector);
        f = or_flags(f, WIMLIB_WRITE_FLAG_RECOMPRESS);
    }
    if check {
        assert(0x40i32 & 1i32 == 0) by (bit_vector);
        assert(0x50i32 & 1i32 == 0) by (bit_vector);
        f = or_flags(f, WIMLIB_WRITE_FLAG_CHECK_INTEGRITY);
    }
    let mut banner = String::from_str("优化（原地重写）");
    banner.append(image);
    banner.append(" ...");
    TaskPlan { write_flags: f, banner, done: done_text("优化", image) }
}


/// What an extract run does once its arguments are read.
pub struct ExtractPlan {
    /// Image to apply (1-based, or every image).
    pub image_index: i32,
    /// For a split image, the glob that references its other parts.
    pub swm_glob: Option<String>,
    /// For a split image, the line that announces the glob.
    pub glob_notice: Option<String>,
    /// Line printed on success.
    pub done: String,
}

/// The line that announces the parts of a split image being referenced.
pub open spec fn glob_notice_text(glob: Seq<char>) -> Seq<char> {
    "检测到 SWM 分卷，引用其余分片: "@ + glob
}

/// Decides an extract run: which image, and for a `.swm` image (extension
/// in any case) the glob of its other parts.
pub fn extract_plan(image: &str, index: &str, dest: &str) -> (r: Result<ExtractPlan, WimError>)
    ensures
        match index_choice(index@) {
            Err(msg) => r matches Err(WimError::Other(m)) && m@ == msg,
            Ok(idx) => r matches Ok(p) && p.image_index == idx && p.done@ == done_line(
                "解包"@,
                dest@,
            ) && if has_extension(image@, "swm"@) {
                &&& p.swm_glob matches Some(g) && g@ == swm_glob(image@)
                &&& p.glob_notice matches Some(n) && n@ == glob_notice_text(swm_glob(image@))
            } else {
                p.swm_glob is None && p.glob_notice is None
            },
        },
{
    let image_index = parse_image_index(index)?;
    let (swm_glob, glob_notice) = if path_has_extension(image, "swm") {
        let g = make_swm_glob(image);
        let mut n = String::from_str("检测到 SWM 分卷，引用其余分片: ");
        n.append(g.as_str());
        (Some(g), Some(n))
    } else {
        (None, None)
    };
    Ok(ExtractPlan { image_index, swm_glob, glob_notice, done: done_text("解包", dest) })
}

/// Line printed when an image opened with its integrity checked: passed, or
/// a warning that it has no integrity table to check.
pub open spec fn verify_passed_text(has_table: bool) -> Seq<char> {
    if has_table {
        "校验通过：镜像完整性 OK"@
    } else {
        "⚠ 该镜像不含完整性表，已跳过哈希校验（无法判定是否损坏）。"@
    }
}

/// The line printed after a successful integrity check.
pub fn verify_passed_message(has_table: bool) -> (r: &'static str)
    ensures
        r@ == verify_passed_text(has_table),
{
    if has_table {
        "校验通过：镜像完整性 OK"
    } else {
        "⚠ 该镜像不含完整性表，已跳过哈希校验（无法判定是否损坏）。"
    }
}

/// The extra line printed when opening for verification fails: only for a
/// corrupt image.
pub fn verify_failure_notice(e: &WimError) -> (r: Option<&'static str>)
    ensures
        e.integrity_failure() ==> (r matches Some(t) && t@
            == "校验失败：镜像已损坏（完整性校验未通过，错误码 13）"@),
        !e.integrity_failure() ==> r is None,
{
    if e.is_integrity_failure() {
        Some("校验失败：镜像已损坏（完整性校验未通过，错误码 13）")
    } else {
        None
    }
}

/// Lower-case hexadecimal digit of `d` (`0 <= d < 16`).
pub open spec fn hex_digit(d: int) -> char {
    if d < 10 {
        digit_char(d)
    } else {
        ((d - 10 + 97) as u8) as char
    }
}

/// The last `n` hexadecimal digits of `v`, zero-padded (`{:0n x}` for values below `16^n`).
pub open spec fn hex_fixed(v: nat, n: nat) -> Seq<char>
    decreases n,
{
    if n == 0 {
        seq![]
    } else {
        hex_fixed(v / 16, (n - 1) as nat).push(hex_digit((v % 16) as int))
    }
}

fn push_hex_fixed(s: &mut String, v: u32, n: u32)
    ensures
        final(s)@ == old(s)@ + hex_fixed(v as nat, n as nat),
    decreases n,
{
    if n > 0 {
        push_hex_fixed(s, v / 16, n - 1);
        let d = v % 16;
        let c: char = if d < 10 {
            ((d + 48) as u8) as char
        } else {
            ((d - 10 + 97) as u8) as char
        };
        push_char(s, c);
    }
}

/// The summary lines `info` prints about an opened image, ending with a blank line.
pub open spec fn info_header(version: Seq<char>, image: Seq<char>, info: WimInfo) -> Seq<Seq<char>> {
    seq![
        "wimlib   : "@ + version,
        "镜像文件 : "@ + image,
        "卷数     : "@ + decimal(info.image_count as nat),
        "WIM 版本 : 0x"@ + hex_fixed(info.wim_version as nat, 8),
        "压缩方式 : "@ + compression_name(info.compression_type),
        "块大小   : "@ + human_bytes_text(info.chunk_size as nat),
    ] + (if info.total_parts > 1 {
        seq![
            "分卷     : 第 "@ + decimal(info.part_number as nat) + "/"@ + decimal(
                info.total_parts as nat,
            ) + " 片"@,
        ]
    } else {
        seq![]
    }) + seq![
        "完整性表 : "@ + (if info.flags % 2 == 1 { "有"@ } else { "无"@ }),
        "本卷大小 : "@ + human_bytes_text(info.total_bytes as nat),
        seq![],
    ]
}

fn line(label: &str, value: &str) -> (r: String)
    ensures
        r@ == label@ + value@,
{
    let mut l = String::from_str(label);
    l.append(value);
    l
}

/// Builds the summary lines `info` prints: wimlib's version, the image path,
/// image count, WIM version, compression, chunk size, part number (for split
/// images), integrity table, size, and a blank line.
pub fn info_lines(version: &str, image: &str, info: &WimInfo) -> (lines: Vec<String>)
    ensures
        texts(lines@) == info_header(version@, image@, *info),
{
    let mut lines: Vec<String> = Vec::new();
    lines.push(line("wimlib   : ", version));
    lines.push(line("镜像文件 : ", image));
    let mut l = String::from_str("卷数     : ");
    push_decimal(&mut l, info.image_count as u128);
    lines.push(l);
    let mut l = String::from_str("WIM 版本 : 0x");
    push_hex_fixed(&mut l, info.wim_version, 8);
    lines.push(l);
    lines.push(line("压缩方式 : ", compression_type_name(info.compression_type)));
    lines.push(line("块大小   : ", human_bytes(info.chunk_size as u64).as_str()));
    if info.total_parts > 1 {
        let mut l = String::from_str("分卷     : 第 ");
        push_decimal(&mut l, info.part_number as u128);
        l.append("/");
        push_decimal(&mut l, info.total_parts as u128);
        l.append(" 片");
        lines.push(l);
    }
    lines.push(line("完整性表 : ", if info.has_integrity_table() { "有" } else { "无" }));
    lines.push(line("本卷大小 : ", human_bytes(info.total_bytes).as_str()));
    lines.push(String::new());
    assert(texts(lines@) =~= info_header(version@, image@, *info));
    lines
}

/// The properties of one image that `info` shows, as wimlib reported them.
pub struct ImageProperties {
    pub name: Option<String>,
    pub display_name: Option<String>,
    pub description: Option<String>,
    pub product_name: Option<String>,
    pub flags: Option<String>,
    pub total_bytes: Option<String>,
}

/// A labelled line for a property that is present.
pub open spec fn property_line(label: Seq<char>, value: Option<String>) -> Seq<Seq<char>> {
    match value {
        Some(v) => seq![label + v@],
        None => seq![],
    }
}

/// The data-size line: shown when the reported byte count reads as a `u64`.
pub open spec fn size_line(total_bytes: Option<String>) -> Seq<Seq<char>> {
    match total_bytes {
        Some(t) => match parsed_in_range(t@, false, 0, u64::MAX as int) {
            Some(b) => seq!["  数据大小   : "@ + human_bytes_text(b as nat)],
            None => seq![],
        },
        None => seq![],
    }
}

/// The lines `info` prints about image `index`.
pub open spec fn image_section(index: u32, p: ImageProperties) -> Seq<Seq<char>> {
    seq!["── 卷 "@ + decimal(index as nat) + " ──"@] + property_line("  名称       : "@, p.name)
        + property_line("  显示名     : "@, p.display_name) + property_line(
        "  描述       : "@,
        p.description,
    ) + property_line("  产品       : "@, p.product_name) + property_line(
        "  FLAGS      : "@,
        p.flags,
    ) + size_line(p.total_bytes)
}

/// Each property of an image is printed under its own label: the section
/// holds the label followed by the property's value when it is present,
/// and every line whose third character is that label's (`名`, `显`, `描`,
/// `产`) is that property's line, so no value is printed under another
/// property's label.
pub proof fn lemma_section_labels(index: u32, p: ImageProperties)
    ensures
        p.name matches Some(x) ==> image_section(index, p).contains("  名称       : "@ + x@),
        p.display_name matches Some(x) ==> image_section(index, p).contains(
            "  显示名     : "@ + x@,
        ),
        p.description matches Some(x) ==> image_section(index, p).contains(
            "  描述       : "@ + x@,
        ),
        p.product_name matches Some(x) ==> image_section(index, p).contains(
            "  产品       : "@ + x@,
        ),
        forall|l: Seq<char>|
            image_section(index, p).contains(l) && l.len() > 2 && l[2] == '名' ==> (
            p.name matches Some(x) && l == "  名称       : "@ + x@),
        forall|l: Seq<char>|
            image_section(index, p).contains(l) && l.len() > 2 && l[2] == '显' ==> (
            p.display_name matches Some(x) && l == "  显示名     : "@ + x@),
        forall|l: Seq<char>|
            image_section(index, p).contains(l) && l.len() > 2 && l[2] == '描' ==> (
            p.description matches Some(x) && l == "  描述       : "@ + x@),
        forall|l: Seq<char>|
            image_section(index, p).contains(l) && l.len() > 2 && l[2] == '产' ==> (
            p.product_name matches Some(x) && l == "  产品       : "@ + x@),
{
    reveal_strlit("── 卷 ");
    reveal_strlit("  名称       : ");
    reveal_strlit("  显示名     : ");
    reveal_strlit("  描述       : ");
    reveal_strlit("  产品       : ");
    reveal_strlit("  FLAGS      : ");
    reveal_strlit("  数据大小   : ");
    let h = seq!["── 卷 "@ + decimal(index as nat) + " ──"@];
    let a = property_line("  名称       : "@, p.name);
    let b = property_line("  显示名     : "@, p.display_name);
    let c = property_line("  描述       : "@, p.description);
    let d = property_line("  产品       : "@, p.product_name);
    let e = property_line("  FLAGS      : "@, p.flags);
    let f = size_line(p.total_bytes);
    let sec = image_section(index, p);
    assert(sec == h + a + b + c + d + e + f);
    let la = a.len() as int;
    let lb = b.len() as int;
    let lc = c.len() as int;
    let ld = d.len() as int;
    assert(p.name matches Some(x) ==> sec[1] == "  名称       : "@ + x@);
    assert(p.display_name matches Some(x) ==> sec[1 + la] == "  显示名     : "@ + x@);
    assert(p.description matches Some(x) ==> sec[1 + la + lb] == "  描述       : "@ + x@);
    assert(p.product_name matches Some(x) ==> sec[1 + la + lb + lc] == "  产品       : "@ + x@);
    assert forall|l: Seq<char>| sec.contains(l) && l.len() > 2 implies {
        &&& (l[2] == '名' ==> (p.name matches Some(x) && l == "  名称       : "@ + x@))
        &&& (l[2] == '显' ==> (p.display_name matches Some(x) && l == "  显示名     : "@ + x@))
        &&& (l[2] == '描' ==> (p.description matches Some(x) && l == "  描述       : "@ + x@))
        &&& (l[2] == '产' ==> (p.product_name matches Some(x) && l == "  产品       : "@ + x@))
    } by {
        let k = choose|k: int| 0 <= k < sec.len() && sec[k] == l;
        if k == 0 {
            assert(l[2] == ' ');
        } else if k < 1 + la {
            assert(l == a[0]);
        } else if k < 1 + la + lb {
            assert(l == b[0]);
        } else if k < 1 + la + lb + lc {
            assert(l == c[0]);
        } else if k < 1 + la + lb + lc + ld {
            assert(l == d[0]);
        } else if k < 1 + la + lb + lc + ld + e.len() {
            assert(l == e[0]);
            assert(l[2] == 'F');
        } else {
            assert(l == f[0]);
            assert(l[2] == '数');
        }
    }
}

fn push_property(lines: &mut Vec<String>, label: &str, value: &Option<String>)
    ensures
        texts(final(lines)@) == texts(old(lines)@) + property_line(label@, *value),
{
    let ghost before = texts(lines@);
    match value {
        Some(v) => {
            lines.push(line(label, v.as_str()));
        },
        None => {},
    }
    assert(texts(lines@) =~= before + property_line(label@, *value));
}

/// Builds the lines `info` prints about image `index` from its properties.
pub fn image_lines(index: u32, props: &ImageProperties) -> (lines: Vec<String>)
    ensures
        texts(lines@) == image_section(index, *props),
{
    let mut lines: Vec<String> = Vec::new();
    let mut head = String::from_str("── 卷 ");
    push_decimal(&mut head, index as u128);
    head.append(" ──");
    lines.push(head);
    push_property(&mut lines, "  名称       : ", &props.name);
    push_property(&mut lines, "  显示名     : ", &props.display_name);
    push_property(&mut lines, "  描述       : ", &props.description);
    push_property(&mut lines, "  产品       : ", &props.product_name);
    push_property(&mut lines, "  FLAGS      : ", &props.flags);
    let ghost before = texts(lines@);
    match &props.total_bytes {
        Some(t) => match parse_u64(t.as_str()) {
            Some(b) => lines.push(line("  数据大小   : ", human_bytes(b).as_str())),
            None => {},
        },
        None => {},
    }
    assert(texts(lines@) =~= before + size_line(props.total_bytes));
    assert(texts(lines@) =~= image_section(index, *props));
    lines
}


/// The texts of a sequence of line lists, joined in order.
pub open spec fn joined(sections: Seq<Seq<Seq<char>>>) -> Seq<Seq<char>>
    decreases sections.len(),
{
    if sections.len() == 0 {
        seq![]
    } else {
        joined(sections.drop_last()) + sections.last()
    }
}

/// Everything `info` prints: the summary, then one section per image,
/// numbered from 1 in ascending order.
pub open spec fn info_text(
    version: Seq<char>,
    image: Seq<char>,
    info: WimInfo,
    props: Seq<ImageProperties>,
) -> Seq<Seq<char>> {
    info_header(version, image, info) + joined(
        Seq::new(props.len(), |i: int| image_section((i + 1) as u32, props[i])),
    )
}

/// Builds every line `info` prints, given the properties of each image in
/// order (image 1 first).
pub fn info_report(version: &str, image: &str, info: &WimInfo, props: &Vec<ImageProperties>) -> (lines: Vec<String>)
    requires
        props@.len() == info.image_count,
    ensures
        texts(lines@) == info_text(version@, image@, *info, props@),
{
    let mut lines = info_lines(version, image, info);
    let ghost header = texts(lines@);
    let n = props.len();
    let mut i: usize = 0;
    assert(joined(Seq::new(0, |k: int| image_section((k + 1) as u32, props@[k]))) =~= Seq::<
        Seq<char>,
    >::empty());
    assert(header + Seq::<Seq<char>>::empty() =~= header);
    while i < n
        invariant
            i <= n,
            n == props@.len(),
            n <= u32::MAX,
            header == info_header(version@, image@, *info),
            texts(lines@) == header + joined(
                Seq::new(i as nat, |k: int| image_section((k + 1) as u32, props@[k])),
            ),
        decreases n - i,
    {
        let section = image_lines((i + 1) as u32, &props[i]);
        let ghost before = texts(lines@);
        let mut j: usize = 0;
        while j < section.len()
            invariant
                j <= section@.len(),
                texts(lines@) == before + texts(section@).take(j as int),
            decreases section@.len() - j,
        {
            let ghost prev = lines@;
            let item = section[j].clone();
            assert(item@ == section@[j as int]@);
            lines.push(item);
            assert(texts(lines@) =~= texts(prev).push(section@[j as int]@));
            assert(texts(section@).take(j + 1) =~= texts(section@).take(j as int).push(
                section@[j as int]@,
            ));
            assert(texts(lines@) =~= before + texts(section@).take(j + 1));
            j = j + 1;
        }
        assert(texts(section@).take(section@.len() as int) =~= texts(section@));
        let ghost sec = Seq::new((i + 1) as nat, |k: int| image_section((k + 1) as u32, props@[k]));
        assert(sec.drop_last() =~= Seq::new(i as nat, |k: int| image_section((k + 1) as u32, props@[k])));
        assert(sec.last() == image_section((i + 1) as u32, props@[i as int]));
        i = i + 1;
        assert(texts(lines@) =~= header + joined(sec));
    }
    lines
}

} // verus!
