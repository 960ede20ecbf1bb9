//! Reading the tool's arguments: integers, compression names, target
//! container types and image indices.

use vstd::prelude::*;
use crate::error::WimError;
use crate::paths::{has_extension, path_has_extension};
use crate::text::{
    ascii_lowercase, chars_equal, chars_of, eq_ignore_case, is_digit, lowercase_chars, push_chars,
    str_eq_ignore_case,
};
use crate::types::{
    WIMLIB_ALL_IMAGES, WIMLIB_COMPRESSION_TYPE_LZMS, WIMLIB_COMPRESSION_TYPE_LZX,
    WIMLIB_COMPRESSION_TYPE_NONE, WIMLIB_COMPRESSION_TYPE_XPRESS,
};

verus! {

broadcast use vstd::string::group_string_axioms;

/// Value of a string of decimal digits.
pub open spec fn digits_value(d: Seq<char>) -> nat
    decreases d.len(),
{
    if d.len() == 0 {
        0
    } else {
        digits_value(d.drop_last()) * 10 + ((d.last() as u32) - 48) as nat
    }
}

/// Whether every character of `d` is an ASCII digit.
pub open spec fn all_digits(d: Seq<char>) -> bool {
    forall|i: int| 0 <= i < d.len() ==> is_digit(#[trigger] d[i])
}

/// The integer that Rust's `str::parse` reads from `s`, before any range
/// check: an optional `+` (or, when `signed`, `-`) followed by at least one
/// ASCII digit and nothing else.
pub open spec fn parsed_integer(s: Seq<char>, signed: bool) -> Option<int> {
    if s.len() == 0 {
        None
    } else if (s[0] == '+' || s[0] == '-') && s.len() == 1 {
        None
    } else {
        let neg = s[0] == '-' && signed;
        let d = if s[0] == '+' || neg { s.drop_first() } else { s };
        if !all_digits(d) {
            None
        } else if neg {
            Some(-(digits_value(d) as int))
        } else {
            Some(digits_value(d) as int)
        }
    }
}

/// The value `str::parse` gives for an integer type with range `lo..=hi`.
pub open spec fn parsed_in_range(s: Seq<char>, signed: bool, lo: int, hi: int) -> Option<int> {
    match parsed_integer(s, signed) {
        Some(v) => if lo <= v <= hi { Some(v) } else { None },
        None => None,
    }
}

proof fn lemma_digits_value_prefix_monotone(d: Seq<char>, k: int)
    requires
        0 <= k <= d.len(),
    ensures
        digits_value(d.take(k)) <= digits_value(d),
    decreases d.len(),
{
    if k < d.len() {
        assert(d.drop_last().take(k) =~= d.take(k));
        lemma_digits_value_prefix_monotone(d.drop_last(), k);
    } else {
        assert(d.take(k) =~= d);
    }
}

/// Reads an integer as `str::parse` does for a type with range `lo..=hi`.
fn parse_in_range(cs: &[char], signed: bool, lo: i128, hi: i128) -> (r: Option<i128>)
    requires
        -0x1_0000_0000_0000_0000 <= lo <= hi <= 0x1_0000_0000_0000_0000,
    ensures
        r matches Some(v) ==> parsed_in_range(cs@, signed, lo as int, hi as int) == Some(v as int),
        r is None ==> parsed_in_range(cs@, signed, lo as int, hi as int) is None,
{
    let n = cs.len();
    if n == 0 {
        return None;
    }
    if (cs[0] == '+' || cs[0] == '-') && n == 1 {
        return None;
    }
    let neg = cs[0] == '-' && signed;
    let start: usize = if cs[0] == '+' || neg { 1 } else { 0 };
    let ghost d = if cs@[0] == '+' || neg { cs@.drop_first() } else { cs@ };
    assert(d =~= cs@.skip(start as int));
    let mut acc: u128 = 0;
    let mut i = start;
    assert(d.take(0) =~= Seq::<char>::empty());
    while i < n
        invariant
            start <= i <= n,
            n == cs@.len(),
            n > 0,
            !((cs@[0] == '+' || cs@[0] == '-') && n == 1),
            neg == (cs@[0] == '-' && signed),
            d == (if cs@[0] == '+' || neg { cs@.drop_first() } else { cs@ }),
            -0x1_0000_0000_0000_0000 <= lo <= hi <= 0x1_0000_0000_0000_0000,
            d == cs@.skip(start as int),
            acc == digits_value(d.take(i - start)),
            acc <= 0x1_0000_0000_0000_0000,
            all_digits(d.take(i - start)),
        decreases n - i,
    {
        let c = cs[i];
        if c < '0' || c > '9' {
            assert(!is_digit(d[i - start]));
            return None;
        }
        let v: u128 = (c as u32 - 48) as u128;
        assert(d.take(i - start + 1).drop_last() =~= d.take(i - start));
        acc = acc * 10 + v;
        i = i + 1;
        assert(all_digits(d.take(i - start))) by {
            assert forall|j: int| 0 <= j < d.take(i - start).len() implies is_digit(
                #[trigger] d.take(i - start)[j],
            ) by {
                if j < i - start - 1 {
                    assert(d.take(i - start)[j] == d.take(i - start - 1)[j]);
                }
            }
        }
        if acc > 0x1_0000_0000_0000_0000 {
            proof {
                lemma_digits_value_prefix_monotone(d, i - start);
            }
            return None;
        }
    }
    assert(d.take(n - start) =~= d);
    let value: i128 = if neg { -(acc as i128) } else { acc as i128 };
    if value < lo || value > hi {
        None
    } else {
        Some(value)
    }
}

/// `s.parse::<i32>()`, `None` for any error.
pub fn parse_i32(s: &str) -> (r: Option<i32>)
    ensures
        r matches Some(v) ==> parsed_in_range(s@, true, i32::MIN as int, i32::MAX as int) == Some(
            v as int,
        ),
        r is None ==> parsed_in_range(s@, true, i32::MIN as int, i32::MAX as int) is None,
{
    let cs = chars_of(s);
    match parse_in_range(cs.as_slice(), true, i32::MIN as i128, i32::MAX as i128) {
        Some(v) => Some(v as i32),
        None => None,
    }
}

/// `s.parse::<u64>()`, `None` for any error.
pub fn parse_u64(s: &str) -> (r: Option<u64>)
    ensures
        r matches Some(v) ==> parsed_in_range(s@, false, 0, u64::MAX as int) == Some(v as int),
        r is None ==> parsed_in_range(s@, false, 0, u64::MAX as int) is None,
{
    let cs = chars_of(s);
    match parse_in_range(cs.as_slice(), false, 0, u64::MAX as i128) {
        Some(v) => Some(v as u64),
        None => None,
    }
}


/// Compression type that a (lower-cased) name selects.
pub open spec fn compression_of(lower: Seq<char>) -> Option<i32> {
    if lower == "none"@ {
        Some(WIMLIB_COMPRESSION_TYPE_NONE)
    } else if lower == "xpress"@ {
        Some(WIMLIB_COMPRESSION_TYPE_XPRESS)
    } else if lower == "lzx"@ {
        Some(WIMLIB_COMPRESSION_TYPE_LZX)
    } else if lower == "lzms"@ {
        Some(WIMLIB_COMPRESSION_TYPE_LZMS)
    } else {
        None
    }
}

/// Message for an unknown compression name.
pub open spec fn unknown_compression_text(name: Seq<char>) -> Seq<char> {
    "未知压缩类型: "@ + ascii_lowercase(name) + "（可选 none|xpress|lzx|lzms）"@
}

/// Reads a compression type name (`none`, `xpress`, `lzx`, `lzms`, in any
/// ASCII case).
pub fn parse_compression(name: &str) -> (r: Result<i32, WimError>)
    ensures
        compression_of(ascii_lowercase(name@)) matches Some(ct) ==> r == Ok::<i32, WimError>(ct),
        compression_of(ascii_lowercase(name@)) is None ==> (r matches Err(WimError::Other(m))
            && m@ == unknown_compression_text(name@)),
{
    let lower = lowercase_chars(chars_of(name).as_slice());
    if chars_equal(lower.as_slice(), chars_of("none").as_slice()) {
        Ok(WIMLIB_COMPRESSION_TYPE_NONE)
    } else if chars_equal(lower.as_slice(), chars_of("xpress").as_slice()) {
        Ok(WIMLIB_COMPRESSION_TYPE_XPRESS)
    } else if chars_equal(lower.as_slice(), chars_of("lzx").as_slice()) {
        Ok(WIMLIB_COMPRESSION_TYPE_LZX)
    } else if chars_equal(lower.as_slice(), chars_of("lzms").as_slice()) {
        Ok(WIMLIB_COMPRESSION_TYPE_LZMS)
    } else {
        let mut m = String::from_str("未知压缩类型: ");
        push_chars(&mut m, lower.as_slice(), 0, lower.len());
        assert(lower@.subrange(0, lower@.len() as int) =~= lower@);
        m.append("（可选 none|xpress|lzx|lzms）");
        Err(WimError::Other(m))
    }
}

/// Container type chosen for an output: `Some(true)` for ESD, `Some(false)`
/// for WIM, `None` for an unknown `--to` value. An explicit `--to` wins,
/// otherwise the output's extension decides (`.esd` gives ESD).
pub open spec fn target_esd(dest: Seq<char>, to: Option<Seq<char>>) -> Option<bool> {
    match to {
        Some(t) => if eq_ignore_case(t, "esd"@) {
            Some(true)
        } else if eq_ignore_case(t, "wim"@) {
            Some(false)
        } else {
            None
        },
        None => Some(has_extension(dest, "esd"@)),
    }
}

/// Message for an unknown container type.
pub open spec fn unknown_target_text(to: Seq<char>) -> Seq<char> {
    "未知目标类型: "@ + to + "（可选 wim|esd）"@
}

/// Spec form of an optional string argument.
pub open spec fn opt_text(o: Option<&str>) -> Option<Seq<char>> {
    match o {
        Some(s) => Some(s@),
        None => None,
    }
}

/// The outcome of resolving an output's container and compression: the
/// compression type, whether it is solid, whether the container is ESD; or
/// the message of the error.
pub open spec fn target_choice(
    dest: Seq<char>,
    to: Option<Seq<char>>,
    compress: Option<Seq<char>>,
) -> Result<(i32, bool, bool), Seq<char>> {
    match target_esd(dest, to) {
        None => Err(unknown_target_text(to->0)),
        Some(esd) => match compress {
            Some(c) => match compression_of(ascii_lowercase(c)) {
                Some(ct) => Ok((ct, ct == WIMLIB_COMPRESSION_TYPE_LZMS, esd)),
                None => Err(unknown_compression_text(c)),
            },
            None => if esd {
                Ok((WIMLIB_COMPRESSION_TYPE_LZMS, true, true))
            } else {
                Ok((WIMLIB_COMPRESSION_TYPE_LZX, false, false))
            },
        },
    }
}

/// How an output's container and compression are chosen: `--to` picks the
/// container when given (`esd` or `wim`, any case), the output's `.esd`
/// extension otherwise; without `--compress` an ESD container gets solid
/// LZMS and a WIM container LZX, not solid; with it, the output is solid
/// exactly when the compression is LZMS.
pub proof fn lemma_target_choice(
    dest: Seq<char>,
    to: Option<Seq<char>>,
    compress: Option<Seq<char>>,
)
    ensures
        (to matches Some(t) && eq_ignore_case(t, "esd"@)) ==> target_choice(dest, to, None) == Ok::<
            (i32, bool, bool),
            Seq<char>,
        >((WIMLIB_COMPRESSION_TYPE_LZMS, true, true)),
        (to matches Some(t) && eq_ignore_case(t, "wim"@) && !eq_ignore_case(t, "esd"@))
            ==> target_choice(dest, to, None) == Ok::<(i32, bool, bool), Seq<char>>(
            (WIMLIB_COMPRESSION_TYPE_LZX, false, false),
        ),
        has_extension(dest, "esd"@) ==> target_choice(dest, None, None) == Ok::<
            (i32, bool, bool),
            Seq<char>,
        >((WIMLIB_COMPRESSION_TYPE_LZMS, true, true)),
        !has_extension(dest, "esd"@) ==> target_choice(dest, None, None) == Ok::<
            (i32, bool, bool),
            Seq<char>,
        >((WIMLIB_COMPRESSION_TYPE_LZX, false, false)),
        target_choice(dest, to, compress) matches Ok((ct, solid, esd)) ==> {
            &&& solid == (ct == WIMLIB_COMPRESSION_TYPE_LZMS)
            &&& (to matches Some(t) ==> esd == eq_ignore_case(t, "esd"@))
            &&& (to is None ==> esd == has_extension(dest, "esd"@))
            &&& (compress is None ==> ct == (if esd {
                WIMLIB_COMPRESSION_TYPE_LZMS
            } else {
                WIMLIB_COMPRESSION_TYPE_LZX
            }))
        },
{
}

/// Whether `r` is the outcome `choice` describes.
pub open spec fn is_choice(r: Result<(i32, bool, bool), WimError>, choice: Result<(i32, bool, bool), Seq<char>>) -> bool {
    match choice {
        Ok(t) => r == Ok::<(i32, bool, bool), WimError>(t),
        Err(msg) => r matches Err(WimError::Other(m)) && m@ == msg,
    }
}

/// Resolves an output's compression type, whether it is solid, and whether
/// it is an ESD container. `--to` (or the output's extension) picks the
/// container; `--compress` picks the compression, solid exactly when LZMS;
/// without it ESD gets solid LZMS and WIM gets LZX.
pub fn resolve_target(dest: &str, to: Option<&str>, compress: Option<&str>) -> (r: Result<
    (i32, bool, bool),
    WimError,
>)
    ensures
        is_choice(r, target_choice(dest@, opt_text(to), opt_text(compress))),
{
    let to_esd = match to {
        Some(t) => {
            if str_eq_ignore_case(t, "esd") {
                true
            } else if str_eq_ignore_case(t, "wim") {
                false
            } else {
                let mut m = String::from_str("未知目标类型: ");
                m.append(t);
                m.append("（可选 wim|esd）");
                return Err(WimError::Other(m));
            }
        },
        None => path_has_extension(dest, "esd"),
    };
    match compress {
        Some(c) => {
            let ct = parse_compression(c)?;
            Ok((ct, ct == WIMLIB_COMPRESSION_TYPE_LZMS, to_esd))
        },
        None => {
            if to_esd {
                Ok((WIMLIB_COMPRESSION_TYPE_LZMS, true, true))
            } else {
                Ok((WIMLIB_COMPRESSION_TYPE_LZX, false, false))
            }
        },
    }
}

/// Message for an image index that is neither a number nor `all`.
pub open spec fn bad_index_text(index: Seq<char>) -> Seq<char> {
    "无效的卷号: "@ + index + "（应为正整数或 all）"@
}

/// The image index that an `--index` argument selects, or the message of
/// the error: `all` (any case) means every image, otherwise a positive
/// (1-based) `i32` as `str::parse` reads it.
pub open spec fn index_choice(index: Seq<char>) -> Result<i32, Seq<char>> {
    if eq_ignore_case(index, "all"@) {
        Ok(WIMLIB_ALL_IMAGES)
    } else {
        match parsed_in_range(index, true, i32::MIN as int, i32::MAX as int) {
            Some(v) => if v > 0 {
                Ok(v as i32)
            } else {
                Err(bad_index_text(index))
            },
            None => Err(bad_index_text(index)),
        }
    }
}

/// Reads the `--index` argument: `all` (any case) means every image,
/// otherwise a positive (1-based) image number; zero, negative numbers and
/// anything else are refused.
pub fn parse_image_index(index: &str) -> (r: Result<i32, WimError>)
    ensures
        match index_choice(index@) {
            Ok(v) => r == Ok::<i32, WimError>(v),
            Err(msg) => r matches Err(WimError::Other(m)) && m@ == msg,
        },
{
    if str_eq_ignore_case(index, "all") {
        return Ok(WIMLIB_ALL_IMAGES);
    }
    match parse_i32(index) {
        Some(v) if v > 0 => Ok(v),
        _ => {
            let mut m = String::from_str("无效的卷号: ");
            m.append(index);
            m.append("（应为正整数或 all）");
            Err(WimError::Other(m))
        },
    }
}

} // verus!
