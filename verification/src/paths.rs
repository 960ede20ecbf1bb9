//! Path text: file names, stems and extensions, and the names of the parts
//! of a split (SWM) image.

use vstd::prelude::*;
use crate::error::WimError;
use crate::order::{sort_texts, text_order, texts};
use crate::util::push_char;
use crate::text::{
    ascii_lowercase, chars_end_with, chars_of, chars_start_with, ends_with, eq_ignore_case,
    is_digit, lowercase_chars, push_chars, starts_with,
};

verus! {

broadcast use vstd::string::group_string_axioms;

/// Whether `c` separates path components (`/` or `\`).
pub open spec fn is_sep(c: char) -> bool {
    c == '/' || c == '\\'
}

/// Whether `c` separates components in a path that is verbatim (`v`), where
/// only `\` does, or not.
pub open spec fn sep_of(v: bool, c: char) -> bool {
    c == '\\' || (!v && c == '/')
}

/// Index of the last separator in `s`, or -1.
pub open spec fn last_sep(s: Seq<char>, v: bool) -> int
    decreases s.len(),
{
    if s.len() == 0 {
        -1
    } else if sep_of(v, s.last()) {
        s.len() - 1
    } else {
        last_sep(s.drop_last(), v)
    }
}

/// Index of the last `.` in `s`, or -1.
pub open spec fn last_dot(s: Seq<char>) -> int
    decreases s.len(),
{
    if s.len() == 0 {
        -1
    } else if s.last() == '.' {
        s.len() - 1
    } else {
        last_dot(s.drop_last())
    }
}

/// Whether `c` is an ASCII letter.
pub open spec fn is_ascii_letter(c: char) -> bool {
    ('a' <= c && c <= 'z') || ('A' <= c && c <= 'Z')
}

/// Length of the drive prefix (`C:`) a Windows path starts with, or 0.
pub open spec fn drive_len(p: Seq<char>) -> int {
    if p.len() >= 2 && is_ascii_letter(p[0]) && p[1] == ':' {
        2
    } else {
        0
    }
}

/// End of the component of `p` that starts at `i`: the first separator at
/// or after `i`, or the end of `p`.
pub open spec fn comp_end(p: Seq<char>, v: bool, i: int) -> int
    decreases p.len() - i,
{
    if i >= p.len() {
        p.len() as int
    } else if sep_of(v, p[i]) {
        i
    } else {
        comp_end(p, v, i + 1)
    }
}

/// Whether `p` starts with two separators (`\\server\share`, `\\.\dev`).
pub open spec fn starts_unc(p: Seq<char>) -> bool {
    p.len() >= 2 && is_sep(p[0]) && is_sep(p[1])
}

/// Whether `p` starts with the verbatim marker `\\?\`, written with
/// backslashes only.
pub open spec fn verbatim(p: Seq<char>) -> bool {
    p.len() >= 4 && p[0] == '\\' && p[1] == '\\' && p[2] == '?' && p[3] == '\\'
}

/// Whether `p` is a verbatim UNC path, `\\?\UNC\server\share`.
pub open spec fn verbatim_unc(p: Seq<char>) -> bool {
    verbatim(p) && p.len() >= 8 && p[4] == 'U' && p[5] == 'N' && p[6] == 'C' && is_sep(p[7])
}

/// Whether `p` is a verbatim drive path, `\\?\C:` alone or followed by `\`.
pub open spec fn verbatim_disk(p: Seq<char>) -> bool {
    &&& verbatim(p)
    &&& p.len() >= 6
    &&& is_ascii_letter(p[4])
    &&& p[5] == ':'
    &&& (p.len() == 6 || p[6] == '\\')
}

/// Whether `p` names a device, `\\.\COM42`.
pub open spec fn device_ns(p: Seq<char>) -> bool {
    starts_unc(p) && !verbatim(p) && p.len() >= 4 && p[2] == '.' && is_sep(p[3])
}

/// End of `server\share` read from index `i`: the end of the share when it
/// is not empty, else the end of the server.
pub open spec fn share_end(p: Seq<char>, v: bool, i: int) -> int {
    let s = comp_end(p, v, i);
    if s < p.len() && comp_end(p, v, s + 1) > s + 1 {
        comp_end(p, v, s + 1)
    } else {
        s
    }
}

/// Length of the prefix of a Windows path, as `std::path::Prefix` reads it:
/// `\\?\UNC\server\share`, `\\?\C:`, `\\?\name`, `\\.\device`,
/// `\\server\share` (server and share both non-empty) or `C:`; 0 when the
/// path has none.
pub open spec fn prefix_len(p: Seq<char>) -> int {
    if verbatim(p) {
        if verbatim_unc(p) {
            share_end(p, true, 8)
        } else if verbatim_disk(p) {
            6
        } else {
            comp_end(p, true, 4)
        }
    } else if device_ns(p) {
        comp_end(p, false, 4)
    } else if starts_unc(p) {
        let s = comp_end(p, false, 2);
        if s > 2 && s < p.len() && comp_end(p, false, s + 1) > s + 1 {
            comp_end(p, false, s + 1)
        } else {
            0
        }
    } else {
        drive_len(p)
    }
}

/// Whether the path has a separator right after its prefix.
pub open spec fn has_root(p: Seq<char>) -> bool {
    p.len() > prefix_len(p) && is_sep(p[prefix_len(p)])
}

/// Whether the path's prefix carries a root of its own: every prefix but a
/// drive (`C:`) does.
pub open spec fn implicit_root(p: Seq<char>) -> bool {
    starts_unc(p) && prefix_len(p) > 0
}

/// Whether a path without root starts with a `.` component, which is kept
/// as the current directory.
pub open spec fn has_cur_dir(p: Seq<char>) -> bool {
    &&& !has_root(p)
    &&& !implicit_root(p)
    &&& p.len() > prefix_len(p)
    &&& p[prefix_len(p)] == '.'
    &&& (p.len() == prefix_len(p) + 1 || is_sep(p[prefix_len(p) + 1]))
}

/// Where the ordinary components of a path begin: after its prefix, its
/// root and a leading `.` component.
pub open spec fn body_start(p: Seq<char>) -> int {
    prefix_len(p) + (if has_root(p) { 1int } else { 0int }) + (if has_cur_dir(p) {
        1int
    } else {
        0int
    })
}

/// Start of the last component of `p[..k]`, not before `lo`.
pub open spec fn comp_start(p: Seq<char>, k: int, lo: int) -> int {
    if last_sep(p.take(k), verbatim(p)) + 1 > lo {
        last_sep(p.take(k), verbatim(p)) + 1
    } else {
        lo
    }
}

/// Length of `p[..k]` once its last component and the separator before it
/// are taken off.
pub open spec fn comp_rest(p: Seq<char>, k: int, lo: int) -> int {
    if last_sep(p.take(k), verbatim(p)) + 1 > lo {
        last_sep(p.take(k), verbatim(p))
    } else {
        lo
    }
}

/// Components that `Path` passes over: empty ones (from repeated or trailing
/// separators), and `.` unless the path is verbatim (`v`).
pub open spec fn is_skipped(c: Seq<char>, v: bool) -> bool {
    c.len() == 0 || (!v && c == seq!['.'])
}

/// The last component of `p[..k]` that `Path::components` yields from the
/// back, looking no further back than `lo`: its start, its end, and the
/// length of what precedes it. Skipped components are passed over.
pub open spec fn last_component(p: Seq<char>, k: int, lo: int) -> Option<(int, int, int)>
    decreases k,
{
    if lo < 0 || k <= lo || k > p.len() {
        None
    } else {
        proof {
            lemma_last_sep_bounds(p.take(k), verbatim(p));
        }
        if is_skipped(p.subrange(comp_start(p, k, lo), k), verbatim(p)) {
            last_component(p, comp_rest(p, k, lo), lo)
        } else {
            Some((comp_start(p, k, lo), k, comp_rest(p, k, lo)))
        }
    }
}

/// Length of `p[..k]` once trailing skipped components are taken off, no
/// further back than `lo`.
pub open spec fn trim_back(p: Seq<char>, k: int, lo: int) -> int
    decreases k,
{
    if lo < 0 || k <= lo || k > p.len() {
        k
    } else {
        proof {
            lemma_last_sep_bounds(p.take(k), verbatim(p));
        }
        if is_skipped(p.subrange(comp_start(p, k, lo), k), verbatim(p)) {
            trim_back(p, comp_rest(p, k, lo), lo)
        } else {
            k
        }
    }
}

/// The file name of a Windows path, as `Path::file_name` gives it: its last
/// component, if that is an ordinary name (not `.`, `..`, a root or a
/// prefix).
pub open spec fn file_name_of(p: Seq<char>) -> Option<Seq<char>> {
    match last_component(p, p.len() as int, body_start(p)) {
        Some((s, e, _)) => if p.subrange(s, e) == seq!['.', '.'] || p.subrange(s, e) == seq![
            '.',
        ] {
            None
        } else {
            Some(p.subrange(s, e))
        },
        None => None,
    }
}

/// The parent of a Windows path, as `Path::parent` gives it.
pub open spec fn parent_of(p: Seq<char>) -> Option<Seq<char>> {
    match last_component(p, p.len() as int, body_start(p)) {
        Some((_, _, b)) => Some(p.take(trim_back(p, b, body_start(p)))),
        None => if has_cur_dir(p) {
            Some(p.take(prefix_len(p)))
        } else {
            None
        },
    }
}

/// The parent of a path when it is not empty.
pub open spec fn glob_dir(p: Seq<char>) -> Option<Seq<char>> {
    match parent_of(p) {
        Some(d) => if d.len() > 0 {
            Some(d)
        } else {
            None
        },
        None => None,
    }
}

/// The text of the root component.
pub open spec fn root_text() -> Seq<char> {
    seq!['\\']
}

/// Whether a component text (`\` for the root) is an ordinary name.
pub open spec fn is_normal(c: Seq<char>) -> bool {
    c != root_text() && c != seq!['.'] && c != seq!['.', '.']
}

/// Whether `Path::components` yields the piece `c` (a verbatim path, `v`,
/// keeps `.`).
pub open spec fn keeps(c: Seq<char>, v: bool) -> bool {
    !is_skipped(c, v)
}

/// `c` as a list of the components it yields: itself or nothing.
pub open spec fn emit(c: Seq<char>, v: bool) -> Seq<Seq<char>> {
    if keeps(c, v) {
        seq![c]
    } else {
        seq![]
    }
}

/// The components of `p[start..]`, read from index `i` onwards, the piece
/// in progress starting at `start`.
pub open spec fn scan(p: Seq<char>, v: bool, i: int, start: int) -> Seq<Seq<char>>
    decreases p.len() - i,
{
    if i >= p.len() {
        emit(p.subrange(start, p.len() as int), v)
    } else if sep_of(v, p[i]) {
        emit(p.subrange(start, i), v) + scan(p, v, i + 1, i + 1)
    } else {
        scan(p, v, i + 1, start)
    }
}

/// The components of `p` after its prefix: the root (as `\`), then those
/// of its body.
pub open spec fn tail_components(p: Seq<char>) -> Seq<Seq<char>> {
    (if has_root(p) { seq![root_text()] } else { seq![] }) + scan(
        p,
        verbatim(p),
        body_start(p),
        body_start(p),
    )
}

/// One step of appending a component to a verbatim path: `..` takes off a
/// trailing ordinary name (and is dropped otherwise); any other is added.
pub open spec fn push_comp(buf: Seq<Seq<char>>, c: Seq<char>) -> Seq<Seq<char>> {
    if c == seq!['.', '.'] {
        if buf.len() > 0 && is_normal(buf.last()) {
            buf.drop_last()
        } else {
            buf
        }
    } else {
        buf.push(c)
    }
}

/// `push_comp` over every component of `cs`, in order.
pub open spec fn push_comps(buf: Seq<Seq<char>>, cs: Seq<Seq<char>>) -> Seq<Seq<char>>
    decreases cs.len(),
{
    if cs.len() == 0 {
        buf
    } else {
        push_comps(push_comp(buf, cs[0]), cs.drop_first())
    }
}

/// The components written after a verbatim prefix: a `\` before each one
/// but the root and the one right after it.
pub open spec fn render(cs: Seq<Seq<char>>, after_root: bool) -> Seq<char>
    decreases cs.len(),
{
    if cs.len() == 0 {
        seq![]
    } else {
        (if cs[0] != root_text() && !after_root {
            root_text()
        } else {
            seq![]
        }) + cs[0] + render(cs.drop_first(), cs[0] == root_text())
    }
}

/// `name` joined to the verbatim path `d`: the result is rebuilt from the
/// components of both, with `.` dropped from `name` and its `..` applied.
pub open spec fn verbatim_join(d: Seq<char>, name: Seq<char>) -> Seq<char> {
    let start = if has_root(name) {
        seq![root_text()]
    } else {
        tail_components(d)
    };
    d.take(prefix_len(d)) + render(push_comps(start, scan(name, false, 0, 0)), false)
}

/// `d` joined with `name` as `Path::join` does on Windows: a `name` with a
/// prefix replaces `d`; a verbatim `d` is rebuilt from the components of
/// both; a `name` with a root keeps only `d`'s prefix; otherwise a `\` goes
/// between them unless `d` is empty, ends in a separator or is a bare drive
/// (`C:`).
pub open spec fn join_path(d: Seq<char>, name: Seq<char>) -> Seq<char> {
    if prefix_len(name) > 0 {
        name
    } else if verbatim(d) && name.len() > 0 {
        verbatim_join(d, name)
    } else if has_root(name) {
        d.take(prefix_len(d)) + name
    } else if d.len() > 0 && !is_sep(d.last()) && !(d.len() == 2 && drive_len(d) == 2) {
        d + seq!['\\'] + name
    } else {
        d + name
    }
}

/// Whether a file name is `.` or `..`, which have no stem or extension.
pub open spec fn is_dot_name(name: Seq<char>) -> bool {
    name == seq!['.'] || name == seq!['.', '.']
}

/// The stem of a file name, as `Path::file_stem` takes it: the part before
/// the last `.`, or the whole name when it has no `.` or only a leading one.
pub open spec fn file_stem(name: Seq<char>) -> Seq<char> {
    if is_dot_name(name) {
        seq![]
    } else if last_dot(name) <= 0 {
        name
    } else {
        name.take(last_dot(name))
    }
}

/// The extension of a file name, as `Path::extension` takes it.
pub open spec fn extension(name: Seq<char>) -> Option<Seq<char>> {
    if is_dot_name(name) || last_dot(name) <= 0 {
        None
    } else {
        Some(name.skip(last_dot(name) + 1))
    }
}

/// `s` without its trailing ASCII digits.
pub open spec fn trim_trailing_digits(s: Seq<char>) -> Seq<char>
    decreases s.len(),
{
    if s.len() > 0 && is_digit(s.last()) {
        trim_trailing_digits(s.drop_last())
    } else {
        s
    }
}

/// Whether the path's extension equals `ext` up to ASCII case.
pub open spec fn has_extension(path: Seq<char>, ext: Seq<char>) -> bool {
    match file_name_of(path) {
        Some(n) => match extension(n) {
            Some(e) => eq_ignore_case(e, ext),
            None => false,
        },
        None => false,
    }
}

/// The last `.` of `s + "." + e`, when `e` holds none, is the one after `s`.
proof fn lemma_last_dot_split(s: Seq<char>, e: Seq<char>)
    requires
        forall|i: int| 0 <= i < e.len() ==> e[i] != '.',
    ensures
        last_dot(s + seq!['.'] + e) == s.len(),
    decreases e.len(),
{
    let n = s + seq!['.'] + e;
    if e.len() > 0 {
        assert(n.last() == e.last());
        assert(n.drop_last() =~= s + seq!['.'] + e.drop_last());
        lemma_last_dot_split(s, e.drop_last());
    } else {
        assert(n.last() == '.');
    }
}

/// The extension of a file name is what follows its last `.`: a path whose
/// file name is `s.e`, `e` without a `.` and `s` not empty, has extension
/// `x` exactly when `e` equals `x` up to ASCII case (`a.b.swm` is a `.swm`).
pub proof fn lemma_extension_after_last_dot(path: Seq<char>, s: Seq<char>, e: Seq<char>, x: Seq<char>)
    requires
        file_name_of(path) == Some(s + seq!['.'] + e),
        s.len() > 0,
        !is_dot_name(s + seq!['.'] + e),
        forall|i: int| 0 <= i < e.len() ==> e[i] != '.',
    ensures
        extension(s + seq!['.'] + e) == Some(e),
        has_extension(path, x) == eq_ignore_case(e, x),
{
    lemma_last_dot_split(s, e);
    assert((s + seq!['.'] + e).skip(s.len() as int + 1) =~= e);
}

/// The stem of a path's file name (empty when it has no file name).
pub open spec fn stem_of(path: Seq<char>) -> Seq<char> {
    match file_name_of(path) {
        Some(n) => file_stem(n),
        None => seq![],
    }
}

/// The common prefix of the parts of a split image: the stem of the given
/// part without its trailing digits (`test3.swm` gives `test`), or the whole
/// stem if it is made of digits only.
pub open spec fn swm_base(path: Seq<char>) -> Seq<char> {
    let trimmed = trim_trailing_digits(stem_of(path));
    if trimmed.len() == 0 {
        stem_of(path)
    } else {
        trimmed
    }
}

/// The glob that matches every part of the split image that `path` belongs
/// to: the common prefix followed by `*.swm`, joined to the path's parent
/// when it has a non-empty one.
pub open spec fn swm_glob(path: Seq<char>) -> Seq<char> {
    match glob_dir(path) {
        Some(d) => join_path(d, swm_base(path) + "*.swm"@),
        None => swm_base(path) + "*.swm"@,
    }
}

/// The directory in which the parts are looked for: the path's non-empty
/// parent, `.` otherwise.
pub open spec fn search_dir(path: Seq<char>) -> Seq<char> {
    match glob_dir(path) {
        Some(d) => d,
        None => "."@,
    }
}

/// Position of the last `.` in `cs`, counted from 1 (0 if it has none).
fn dot_end(cs: &[char]) -> (r: usize)
    ensures
        r == last_dot(cs@) + 1,
{
    let mut i = cs.len();
    assert(cs@.take(i as int) =~= cs@);
    while i > 0 && cs[i - 1] != '.'
        invariant
            i <= cs@.len(),
            last_dot(cs@) == last_dot(cs@.take(i as int)),
        decreases i,
    {
        assert(cs@.take(i as int).drop_last() =~= cs@.take(i - 1));
        i = i - 1;
    }
    i
}

/// The last separator of `s`, if any, lies inside `s`.
pub proof fn lemma_last_sep_bounds(s: Seq<char>, v: bool)
    ensures
        -1 <= last_sep(s, v) < s.len(),
    decreases s.len(),
{
    if s.len() > 0 {
        lemma_last_sep_bounds(s.drop_last(), v);
    }
}

proof fn lemma_last_dot_bounds(s: Seq<char>)
    ensures
        -1 <= last_dot(s) < s.len(),
        last_dot(s) >= 0 ==> s[last_dot(s)] == '.',
    decreases s.len(),
{
    if s.len() > 0 {
        lemma_last_dot_bounds(s.drop_last());
    }
}

fn is_dot_name_exec(name: &[char]) -> (r: bool)
    ensures
        r == is_dot_name(name@),
{
    if name.len() == 1 {
        assert(name@ == seq!['.'] <==> name@[0] == '.') by {
            if name@[0] == '.' {
                assert(name@ =~= seq!['.']);
            }
        }
        name[0] == '.'
    } else if name.len() == 2 {
        assert(name@ == seq!['.', '.'] <==> (name@[0] == '.' && name@[1] == '.')) by {
            if name@[0] == '.' && name@[1] == '.' {
                assert(name@ =~= seq!['.', '.']);
            }
        }
        name[0] == '.' && name[1] == '.'
    } else {
        assert(name@.len() != 1 && name@.len() != 2);
        assert(seq!['.'].len() == 1);
        assert(seq!['.', '.'].len() == 2);
        false
    }
}

/// Position just after the last separator of `cs[..k]` (0 if it has none).
fn sep_end(cs: &[char], k: usize, v: bool) -> (r: usize)
    requires
        k <= cs@.len(),
    ensures
        r == last_sep(cs@.take(k as int), v) + 1,
        r <= k,
{
    let mut i = k;
    assert(cs@.take(k as int).take(i as int) =~= cs@.take(k as int));
    while i > 0 && !sep_char_of(v, cs[i - 1])
        invariant
            i <= k <= cs@.len(),
            last_sep(cs@.take(k as int), v) == last_sep(cs@.take(i as int), v),
        decreases i,
    {
        assert(cs@.take(i as int).drop_last() =~= cs@.take(i - 1));
        i = i - 1;
    }
    proof {
        if i > 0 {
            assert(cs@.take(i as int).last() == cs@[i - 1]);
        }
    }
    i
}

fn is_letter(c: char) -> (r: bool)
    ensures
        r == is_ascii_letter(c),
{
    ('a' <= c && c <= 'z') || ('A' <= c && c <= 'Z')
}

fn is_sep_char(c: char) -> (r: bool)
    ensures
        r == is_sep(c),
{
    c == '/' || c == '\\'
}

/// `drive_len` of `cs`.
fn drive_prefix_len(cs: &[char]) -> (r: usize)
    ensures
        r == drive_len(cs@),
{
    if cs.len() >= 2 && is_letter(cs[0]) && cs[1] == ':' {
        2
    } else {
        0
    }
}

fn sep_char_of(v: bool, c: char) -> (r: bool)
    ensures
        r == sep_of(v, c),
{
    c == '\\' || (!v && c == '/')
}

/// `comp_end(cs, v, i)`.
fn comp_end_of(cs: &[char], v: bool, i: usize) -> (r: usize)
    requires
        i <= cs@.len(),
    ensures
        r == comp_end(cs@, v, i as int),
        i <= r <= cs@.len(),
{
    let mut j = i;
    while j < cs.len() && !sep_char_of(v, cs[j])
        invariant
            i <= j <= cs@.len(),
            comp_end(cs@, v, j as int) == comp_end(cs@, v, i as int),
        decreases cs@.len() - j,
    {
        j = j + 1;
    }
    j
}

/// Whether `cs` starts with `\\?\`.
fn is_verbatim(cs: &[char]) -> (r: bool)
    ensures
        r == verbatim(cs@),
{
    cs.len() >= 4 && cs[0] == '\\' && cs[1] == '\\' && cs[2] == '?' && cs[3] == '\\'
}

/// Whether `cs` starts with two separators.
fn is_starts_unc(cs: &[char]) -> (r: bool)
    ensures
        r == starts_unc(cs@),
{
    cs.len() >= 2 && is_sep_char(cs[0]) && is_sep_char(cs[1])
}

/// `prefix_len` of `cs`.
fn prefix_len_of(cs: &[char]) -> (r: usize)
    ensures
        r == prefix_len(cs@),
        r <= cs@.len(),
{
    let n = cs.len();
    if is_verbatim(cs) {
        if n >= 8 && cs[4] == 'U' && cs[5] == 'N' && cs[6] == 'C' && is_sep_char(cs[7]) {
            let s = comp_end_of(cs, true, 8);
            if s < n {
                let e = comp_end_of(cs, true, s + 1);
                if e > s + 1 {
                    return e;
                }
            }
            s
        } else if n >= 6 && is_letter(cs[4]) && cs[5] == ':' && (n == 6 || cs[6] == '\\') {
            6
        } else {
            comp_end_of(cs, true, 4)
        }
    } else if is_starts_unc(cs) && n >= 4 && cs[2] == '.' && is_sep_char(cs[3]) {
        comp_end_of(cs, false, 4)
    } else if is_starts_unc(cs) {
        let s = comp_end_of(cs, false, 2);
        if s > 2 && s < n {
            let e = comp_end_of(cs, false, s + 1);
            if e > s + 1 {
                return e;
            }
        }
        0
    } else {
        drive_prefix_len(cs)
    }
}

/// `has_root` of `cs`.
fn root_of(cs: &[char]) -> (r: bool)
    ensures
        r == has_root(cs@),
{
    let pl = prefix_len_of(cs);
    cs.len() > pl && is_sep_char(cs[pl])
}

/// Whether `cs` has no root and starts (after its prefix) with a `.` component.
fn cur_dir_of(cs: &[char]) -> (r: bool)
    ensures
        r == has_cur_dir(cs@),
        r ==> prefix_len(cs@) < cs@.len(),
{
    let d = prefix_len_of(cs);
    let n = cs.len();
    let root = root_of(cs);
    let implicit = is_starts_unc(cs) && d > 0;
    !root && !implicit && n > d && cs[d] == '.' && (n == d + 1 || is_sep_char(cs[d + 1]))
}

/// `body_start` of `cs`.
fn body_start_of(cs: &[char]) -> (r: usize)
    ensures
        r == body_start(cs@),
        r <= cs@.len(),
{
    let d = prefix_len_of(cs);
    let root = root_of(cs);
    let cur = cur_dir_of(cs);
    let n = cs.len();
    if (root || cur) && d < n {
        d + 1
    } else {
        d
    }
}

/// Whether `cs[s..e]` is a component that `Path` passes over.
fn skipped(cs: &[char], s: usize, e: usize, v: bool) -> (r: bool)
    requires
        s <= e <= cs@.len(),
    ensures
        r == is_skipped(cs@.subrange(s as int, e as int), v),
{
    if s == e {
        return true;
    }
    if !v && e - s == 1 && cs[s] == '.' {
        assert(cs@.subrange(s as int, e as int) =~= seq!['.']);
        return true;
    }
    proof {
        if cs@.subrange(s as int, e as int) == seq!['.'] {
            assert(seq!['.'].len() == 1);
            assert(seq!['.'][0] == '.');
            assert(cs@.subrange(s as int, e as int)[0] == cs@[s as int]);
        }
    }
    false
}

/// `last_component(cs, cs.len(), lo)`.
fn last_component_of(cs: &[char], lo: usize) -> (r: Option<(usize, usize, usize)>)
    requires
        lo <= cs@.len(),
    ensures
        r matches Some((s, e, b)) ==> last_component(cs@, cs@.len() as int, lo as int) == Some(
            (s as int, e as int, b as int),
        ) && lo <= b <= s <= e <= cs@.len(),
        r is None ==> last_component(cs@, cs@.len() as int, lo as int) is None,
{
    let v = is_verbatim(cs);
    let mut k = cs.len();
    loop
        invariant
            v == verbatim(cs@),
            lo <= cs@.len(),
            k <= cs@.len(),
            last_component(cs@, k as int, lo as int) == last_component(
                cs@,
                cs@.len() as int,
                lo as int,
            ),
        decreases k,
    {
        if k <= lo {
            return None;
        }
        let st = sep_end(cs, k, v);
        let (s, b) = if st > lo {
            (st, st - 1)
        } else {
            (lo, lo)
        };
        if skipped(cs, s, k, v) {
            k = b;
        } else {
            return Some((s, k, b));
        }
    }
}

/// `trim_back(cs, k, lo)`.
fn trim_back_of(cs: &[char], k: usize, lo: usize) -> (r: usize)
    requires
        lo <= k <= cs@.len(),
    ensures
        r == trim_back(cs@, k as int, lo as int),
        r <= k,
{
    let v = is_verbatim(cs);
    let mut m = k;
    loop
        invariant
            v == verbatim(cs@),
            lo <= m <= k <= cs@.len(),
            trim_back(cs@, m as int, lo as int) == trim_back(cs@, k as int, lo as int),
        decreases m,
    {
        if m <= lo {
            return m;
        }
        let st = sep_end(cs, m, v);
        let (s, b) = if st > lo {
            (st, st - 1)
        } else {
            (lo, lo)
        };
        if skipped(cs, s, m, v) {
            m = b;
        } else {
            return m;
        }
    }
}

/// Where the file name of `cs` lies, if it has one.
fn file_name_range(cs: &[char]) -> (r: Option<(usize, usize)>)
    ensures
        r matches Some((s, e)) ==> s <= e <= cs@.len() && file_name_of(cs@) == Some(
            cs@.subrange(s as int, e as int),
        ),
        r is None ==> file_name_of(cs@) is None,
{
    let lo = body_start_of(cs);
    match last_component_of(cs, lo) {
        Some((s, e, _)) => {
            if e - s == 2 && cs[s] == '.' && cs[s + 1] == '.' {
                assert(cs@.subrange(s as int, e as int) =~= seq!['.', '.']);
                None
            } else if e - s == 1 && cs[s] == '.' {
                assert(cs@.subrange(s as int, e as int) =~= seq!['.']);
                None
            } else {
                proof {
                    if cs@.subrange(s as int, e as int) == seq!['.', '.'] {
                        assert(cs@.subrange(s as int, e as int)[0] == '.');
                        assert(cs@.subrange(s as int, e as int)[1] == '.');
                    }
                    if cs@.subrange(s as int, e as int) == seq!['.'] {
                        assert(cs@.subrange(s as int, e as int)[0] == '.');
                    }
                }
                Some((s, e))
            }
        },
        None => None,
    }
}

/// The length of the parent of `cs`, if it has one (the parent is `cs[..len]`).
fn parent_len(cs: &[char]) -> (r: Option<usize>)
    ensures
        r matches Some(l) ==> l <= cs@.len() && parent_of(cs@) == Some(cs@.take(l as int)),
        r is None ==> parent_of(cs@) is None,
{
    let lo = body_start_of(cs);
    match last_component_of(cs, lo) {
        Some((_, _, b)) => Some(trim_back_of(cs, b, lo)),
        None => {
            if cur_dir_of(cs) {
                Some(prefix_len_of(cs))
            } else {
                None
            }
        },
    }
}

/// Start and end (exclusive) of the stem of `path`'s file name, in `cs`.
fn stem_range(cs: &[char]) -> (r: (usize, usize))
    ensures
        r.0 <= r.1 <= cs@.len(),
        cs@.subrange(r.0 as int, r.1 as int) == stem_of(cs@),
{
    let (start, end) = match file_name_range(cs) {
        Some(se) => se,
        None => {
            assert(cs@.subrange(0, 0) =~= Seq::<char>::empty());
            return (0, 0);
        },
    };
    let name: Vec<char> = slice_range(cs, start, end);
    if is_dot_name_exec(name.as_slice()) {
        assert(cs@.subrange(start as int, start as int) =~= Seq::<char>::empty());
        return (start, start);
    }
    let d = dot_end(name.as_slice());
    proof {
        lemma_last_dot_bounds(name@);
    }
    if d <= 1 {
        (start, end)
    } else {
        assert(cs@.subrange(start as int, start + d - 1) =~= name@.take(d - 1));
        (start, start + d - 1)
    }
}

/// `cs[from..]` as a vector.
fn slice_tail(cs: &[char], from: usize) -> (r: Vec<char>)
    requires
        from <= cs@.len(),
    ensures
        r@ == cs@.skip(from as int),
{
    let mut r: Vec<char> = Vec::new();
    let mut i = from;
    while i < cs.len()
        invariant
            from <= i <= cs@.len(),
            r@ == cs@.subrange(from as int, i as int),
        decreases cs@.len() - i,
    {
        r.push(cs[i]);
        i = i + 1;
        assert(r@ =~= cs@.subrange(from as int, i as int));
    }
    assert(cs@.subrange(from as int, cs@.len() as int) =~= cs@.skip(from as int));
    r
}

/// Start and end (exclusive) of `swm_base(path)` in `cs`.
fn base_range(cs: &[char]) -> (r: (usize, usize))
    ensures
        r.0 <= r.1 <= cs@.len(),
        cs@.subrange(r.0 as int, r.1 as int) == swm_base(cs@),
{
    let (start, end) = stem_range(cs);
    let ghost stem = cs@.subrange(start as int, end as int);
    let mut j = end;
    assert(cs@.subrange(start as int, j as int) =~= stem);
    while j > start && '0' <= cs[j - 1] && cs[j - 1] <= '9'
        invariant
            start <= j <= end <= cs@.len(),
            stem == cs@.subrange(start as int, end as int),
            trim_trailing_digits(stem) == trim_trailing_digits(
                cs@.subrange(start as int, j as int),
            ),
        decreases j,
    {
        assert(cs@.subrange(start as int, j as int).drop_last() =~= cs@.subrange(
            start as int,
            j - 1,
        ));
        j = j - 1;
    }
    assert(trim_trailing_digits(cs@.subrange(start as int, j as int)) == cs@.subrange(
        start as int,
        j as int,
    ));
    if j == start {
        (start, end)
    } else {
        (start, j)
    }
}

/// Builds the glob that references every part of a split image from the
/// path of one part, as `Path::parent`, `Path::file_stem` and `Path::join`
/// do on Windows: `dir\test.swm` and `dir/test3.swm` both give
/// `dir\test*.swm`; a stem made only of digits is kept (`123.swm` gives
/// `123*.swm`).
pub fn make_swm_glob(path: &str) -> (r: String)
    ensures
        r@ == swm_glob(path@),
{
    let cs = chars_of(path);
    let (b0, b1) = base_range(cs.as_slice());
    let mut pattern = String::new();
    push_chars(&mut pattern, cs.as_slice(), b0, b1);
    pattern.append("*.swm");
    let dir = match parent_len(cs.as_slice()) {
        Some(l) => l,
        None => 0,
    };
    if dir == 0 {
        return pattern;
    }
    let mut d = String::new();
    push_chars(&mut d, cs.as_slice(), 0, dir);
    assert(cs@.subrange(0, dir as int) =~= cs@.take(dir as int));
    join_text(d.as_str(), pattern.as_str())
}

/// Whether the path's extension is `ext`, ignoring ASCII case.
pub fn path_has_extension(path: &str, ext: &str) -> (r: bool)
    ensures
        r == has_extension(path@, ext@),
{
    let cs = chars_of(path);
    let (s, e) = match file_name_range(cs.as_slice()) {
        Some(se) => se,
        None => return false,
    };
    let name = slice_range(cs.as_slice(), s, e);
    if is_dot_name_exec(name.as_slice()) {
        return false;
    }
    let d = dot_end(name.as_slice());
    proof {
        lemma_last_dot_bounds(name@);
    }
    if d <= 1 {
        return false;
    }
    let ext_chars = slice_tail(name.as_slice(), d);
    let le = lowercase_chars(ext_chars.as_slice());
    let lx = lowercase_chars(chars_of(ext).as_slice());
    crate::text::chars_equal(le.as_slice(), lx.as_slice())
}

/// The directory in which to look for the other parts of the split image
/// that `first` belongs to.
pub fn swm_search_dir(first: &str) -> (r: String)
    ensures
        r@ == search_dir(first@),
{
    let cs = chars_of(first);
    let mut r = String::new();
    let l = match parent_len(cs.as_slice()) {
        Some(l) => l,
        None => 0,
    };
    if l > 0 {
        push_chars(&mut r, cs.as_slice(), 0, l);
        assert(cs@.subrange(0, l as int) =~= cs@.take(l as int));
    } else {
        r.append(".");
    }
    r
}

/// The texts of a list of component vectors.
pub open spec fn char_seqs(v: Seq<Vec<char>>) -> Seq<Seq<char>> {
    v.map_values(|x: Vec<char>| x@)
}

/// The root component, `\`, as a vector.
fn root_comp() -> (r: Vec<char>)
    ensures
        r@ == root_text(),
{
    let mut r: Vec<char> = Vec::new();
    r.push('\\');
    assert(r@ =~= root_text());
    r
}

/// `acc` followed by `scan(cs, v, from, from)`.
fn scan_into(acc: Vec<Vec<char>>, cs: &[char], v: bool, from: usize) -> (r: Vec<Vec<char>>)
    requires
        from <= cs@.len(),
    ensures
        char_seqs(r@) == char_seqs(acc@) + scan(cs@, v, from as int, from as int),
{
    let ghost first = char_seqs(acc@);
    let mut acc = acc;
    let mut i = from;
    let mut start = from;
    while i < cs.len()
        invariant
            from <= start <= i <= cs@.len(),
            char_seqs(acc@) + scan(cs@, v, i as int, start as int) == first + scan(
                cs@,
                v,
                from as int,
                from as int,
            ),
        decreases cs@.len() - i,
    {
        if sep_char_of(v, cs[i]) {
            let ghost before = char_seqs(acc@);
            let ghost piece = emit(cs@.subrange(start as int, i as int), v);
            let ghost rest = scan(cs@, v, i + 1, i + 1);
            if !skipped(cs, start, i, v) {
                acc.push(slice_range(cs, start, i));
            }
            assert(char_seqs(acc@) =~= before + piece);
            assert(before + (piece + rest) =~= (before + piece) + rest);
            start = i + 1;
        }
        i = i + 1;
    }
    let ghost before = char_seqs(acc@);
    if !skipped(cs, start, cs.len(), v) {
        acc.push(slice_range(cs, start, cs.len()));
    }
    assert(char_seqs(acc@) =~= before + emit(cs@.subrange(start as int, cs@.len() as int), v));
    acc
}

/// Whether `c` is the component `..`.
fn is_dot_dot(c: &[char]) -> (r: bool)
    ensures
        r == (c@ == seq!['.', '.']),
{
    if c.len() == 2 && c[0] == '.' && c[1] == '.' {
        assert(c@ =~= seq!['.', '.']);
        true
    } else {
        proof {
            if c@ == seq!['.', '.'] {
                assert(c@[0] == '.' && c@[1] == '.');
            }
        }
        false
    }
}

/// Whether `c` is the root component.
fn is_root_comp(c: &[char]) -> (r: bool)
    ensures
        r == (c@ == root_text()),
{
    if c.len() == 1 && c[0] == '\\' {
        assert(c@ =~= root_text());
        true
    } else {
        proof {
            if c@ == root_text() {
                assert(c@[0] == '\\');
            }
        }
        false
    }
}

/// `is_normal` of `c`.
fn is_normal_comp(c: &[char]) -> (r: bool)
    ensures
        r == is_normal(c@),
{
    let dot = c.len() == 1 && c[0] == '.';
    proof {
        if dot {
            assert(c@ =~= seq!['.']);
        }
        if c@ == seq!['.'] {
            assert(c@[0] == '.');
        }
    }
    !is_root_comp(c) && !dot && !is_dot_dot(c)
}

/// `push_comps(start, cs)`.
fn push_comps_of(start: Vec<Vec<char>>, cs: &Vec<Vec<char>>) -> (r: Vec<Vec<char>>)
    ensures
        char_seqs(r@) == push_comps(char_seqs(start@), char_seqs(cs@)),
{
    let ghost all = char_seqs(cs@);
    let ghost target = push_comps(char_seqs(start@), all);
    let mut buf = start;
    let mut i: usize = 0;
    assert(all.skip(0) =~= all);
    while i < cs.len()
        invariant
            i <= cs@.len(),
            all == char_seqs(cs@),
            push_comps(char_seqs(buf@), all.skip(i as int)) == target,
        decreases cs@.len() - i,
    {
        let ghost b0 = char_seqs(buf@);
        let c = cs[i].as_slice();
        assert(all.skip(i as int)[0] == c@);
        assert(all.skip(i as int).drop_first() =~= all.skip(i + 1));
        if is_dot_dot(c) {
            if buf.len() > 0 && is_normal_comp(buf[buf.len() - 1].as_slice()) {
                assert(b0.last() == buf@[buf.len() - 1]@);
                buf.pop();
                assert(char_seqs(buf@) =~= b0.drop_last());
            }
        } else {
            buf.push(slice_range(c, 0, c.len()));
            assert(c@.subrange(0, c@.len() as int) =~= c@);
            assert(char_seqs(buf@) =~= b0.push(c@));
        }
        i = i + 1;
    }
    buf
}

/// `render(cs, false)` appended to `out`.
fn render_into(out: &mut String, cs: &Vec<Vec<char>>)
    ensures
        final(out)@ == old(out)@ + render(char_seqs(cs@), false),
{
    let ghost all = char_seqs(cs@);
    let ghost target = old(out)@ + render(all, false);
    let mut after_root = false;
    let mut i: usize = 0;
    assert(all.skip(0) =~= all);
    assert(out@ + render(all.skip(0), false) == target);
    while i < cs.len()
        invariant
            i <= cs@.len(),
            all == char_seqs(cs@),
            out@ + render(all.skip(i as int), after_root) == target,
        decreases cs@.len() - i,
    {
        let ghost o0 = out@;
        let ghost rest = all.skip(i as int);
        let c = cs[i].as_slice();
        assert(rest[0] == c@);
        assert(rest.drop_first() =~= all.skip(i + 1));
        let root = is_root_comp(c);
        let ghost sep: Seq<char> = if !root && !after_root {
            root_text()
        } else {
            seq![]
        };
        if !root && !after_root {
            push_char(out, '\\');
        }
        assert(out@ =~= o0 + sep);
        push_chars(out, c, 0, c.len());
        assert(c@.subrange(0, c@.len() as int) =~= c@);
        let ghost tail = render(all.skip(i + 1), root);
        assert(o0 + (sep + c@ + tail) =~= (o0 + sep + c@) + tail);
        after_root = root;
        i = i + 1;
    }
    assert(render(all.skip(i as int), after_root) =~= Seq::<char>::empty());
    assert(out@ =~= target);
}

/// `d` joined with `name`, as `Path::join` does on Windows.
pub fn join_text(d: &str, name: &str) -> (r: String)
    ensures
        r@ == join_path(d@, name@),
{
    let dc = chars_of(d);
    let nc = chars_of(name);
    let mut r = String::new();
    if prefix_len_of(nc.as_slice()) > 0 {
        push_chars(&mut r, nc.as_slice(), 0, nc.len());
        assert(nc@.subrange(0, nc@.len() as int) =~= nc@);
        return r;
    }
    let dpl = prefix_len_of(dc.as_slice());
    if is_verbatim(dc.as_slice()) && nc.len() > 0 {
        let start = if root_of(nc.as_slice()) {
            let mut st: Vec<Vec<char>> = Vec::new();
            st.push(root_comp());
            assert(char_seqs(st@) =~= seq![root_text()]);
            st
        } else {
            let mut st: Vec<Vec<char>> = Vec::new();
            let droot = root_of(dc.as_slice());
            if droot {
                st.push(root_comp());
            }
            assert(char_seqs(st@) =~= (if has_root(dc@) {
                seq![root_text()]
            } else {
                seq![]
            }));
            let bs = body_start_of(dc.as_slice());
            scan_into(st, dc.as_slice(), true, bs)
        };
        let empty: Vec<Vec<char>> = Vec::new();
        assert(char_seqs(empty@) + scan(nc@, false, 0, 0) =~= scan(nc@, false, 0, 0));
        let ncomps = scan_into(empty, nc.as_slice(), false, 0);
        let all = push_comps_of(start, &ncomps);
        push_chars(&mut r, dc.as_slice(), 0, dpl);
        assert(dc@.subrange(0, dpl as int) =~= dc@.take(dpl as int));
        render_into(&mut r, &all);
        return r;
    }
    if root_of(nc.as_slice()) {
        push_chars(&mut r, dc.as_slice(), 0, dpl);
        assert(dc@.subrange(0, dpl as int) =~= dc@.take(dpl as int));
        push_chars(&mut r, nc.as_slice(), 0, nc.len());
        assert(nc@.subrange(0, nc@.len() as int) =~= nc@);
        return r;
    }
    push_chars(&mut r, dc.as_slice(), 0, dc.len());
    assert(dc@.subrange(0, dc@.len() as int) =~= dc@);
    let n = dc.len();
    if n > 0 && !is_sep_char(dc[n - 1]) && !(n == 2 && drive_prefix_len(dc.as_slice()) == 2) {
        push_char(&mut r, '\\');
    }
    push_chars(&mut r, nc.as_slice(), 0, nc.len());
    assert(nc@.subrange(0, nc@.len() as int) =~= nc@);
    r
}

/// The places where the wimlib library is looked for, in order: beside the
/// program (`exe` is the program's path), in the current directory `cwd`,
/// and then the bare name, which the system's own search resolves.
pub open spec fn library_candidates(
    exe: Option<Seq<char>>,
    cwd: Option<Seq<char>>,
    name: Seq<char>,
) -> Seq<Seq<char>> {
    let beside = match exe {
        Some(e) => match parent_of(e) {
            Some(d) => seq![join_path(d, name)],
            None => seq![],
        },
        None => seq![],
    };
    let here = match cwd {
        Some(c) => seq![join_path(c, name)],
        None => seq![],
    };
    beside + here + seq![name]
}

/// The paths to try, in order, when loading the library file `name`; `exe`
/// and `cwd` are the program's path and the current directory where known.
pub fn library_paths(exe: Option<&str>, cwd: Option<&str>, name: &str) -> (r: Vec<String>)
    ensures
        texts(r@) == library_candidates(
            match exe { Some(e) => Some(e@), None => None },
            match cwd { Some(c) => Some(c@), None => None },
            name@,
        ),
{
    let mut r: Vec<String> = Vec::new();
    let ghost e_v: Option<Seq<char>> = match exe { Some(e) => Some(e@), None => None };
    let ghost c_v: Option<Seq<char>> = match cwd { Some(c) => Some(c@), None => None };
    if let Some(e) = exe {
        let cs = chars_of(e);
        if let Some(l) = parent_len(cs.as_slice()) {
            let mut d = String::new();
            push_chars(&mut d, cs.as_slice(), 0, l);
            assert(cs@.subrange(0, l as int) =~= cs@.take(l as int));
            r.push(join_text(d.as_str(), name));
        }
    }
    if let Some(c) = cwd {
        r.push(join_text(c, name));
    }
    r.push(name.to_string());
    assert(texts(r@) =~= library_candidates(e_v, c_v, name@));
    r
}

/// One entry of a directory listing: its file name and its full path.
pub struct DirEntry {
    pub name: String,
    pub path: String,
}

/// Whether a file named `name` is a part of the split image with common
/// prefix `base`: the name starts with `base` and ends in `.swm` in any case.
pub open spec fn is_swm_part(name: Seq<char>, base: Seq<char>) -> bool {
    starts_with(name, base) && ends_with(ascii_lowercase(name), ".swm"@)
}

/// Paths of the entries that are parts of the split image with prefix `base`,
/// in listing order.
pub open spec fn swm_candidates(base: Seq<char>, entries: Seq<DirEntry>) -> Seq<Seq<char>>
    decreases entries.len(),
{
    if entries.len() == 0 {
        seq![]
    } else {
        let prev = swm_candidates(base, entries.drop_last());
        if is_swm_part(entries.last().name@, base) {
            prev.push(entries.last().path@)
        } else {
            prev
        }
    }
}

/// Message given when no part is found.
pub open spec fn no_parts_text(first: Seq<char>) -> Seq<char> {
    "未找到任何 SWM 分卷（目录 "@ + search_dir(first) + "，前缀 "@ + swm_base(first) + "）"@
}

/// From a listing of the directory of `first`, picks the parts of the split
/// image that `first` belongs to and returns their paths in ascending order;
/// an error when there is none.
pub fn select_swm_parts(first: &str, entries: &Vec<DirEntry>) -> (r: Result<Vec<String>, WimError>)
    ensures
        swm_candidates(swm_base(first@), entries@).len() == 0 ==> (r matches Err(
            WimError::Other(m),
        ) && m@ == no_parts_text(first@)),
        swm_candidates(swm_base(first@), entries@).len() > 0 ==> (r matches Ok(parts) && texts(
            parts@,
        ) == swm_candidates(swm_base(first@), entries@).sort_by(text_order())),
{
    let cs = chars_of(first);
    let (b0, b1) = base_range(cs.as_slice());
    let base = slice_range(cs.as_slice(), b0, b1);
    let suffix = chars_of(".swm");
    let mut found: Vec<String> = Vec::new();
    let mut i: usize = 0;
    while i < entries.len()
        invariant
            i <= entries@.len(),
            base@ == swm_base(first@),
            suffix@ == ".swm"@,
            texts(found@) == swm_candidates(base@, entries@.take(i as int)),
        decreases entries@.len() - i,
    {
        let name = chars_of(entries[i].name.as_str());
        let lower = lowercase_chars(name.as_slice());
        let keep = chars_start_with(name.as_slice(), base.as_slice()) && chars_end_with(
            lower.as_slice(),
            suffix.as_slice(),
        );
        assert(entries@.take(i + 1).drop_last() =~= entries@.take(i as int));
        if keep {
            found.push(entries[i].path.clone());
        }
        i = i + 1;
        assert(texts(found@) =~= swm_candidates(base@, entries@.take(i as int)));
    }
    assert(entries@.take(entries@.len() as int) =~= entries@);
    if found.len() == 0 {
        let mut m = String::from_str("未找到任何 SWM 分卷（目录 ");
        let dir = swm_search_dir(first);
        m.append(dir.as_str());
        m.append("，前缀 ");
        push_chars(&mut m, base.as_slice(), 0, base.len());
        assert(base@.subrange(0, base@.len() as int) =~= base@);
        m.append("）");
        return Err(WimError::Other(m));
    }
    Ok(sort_texts(found))
}

/// `cs[from..to]` as a vector.
fn slice_range(cs: &[char], from: usize, to: usize) -> (r: Vec<char>)
    requires
        from <= to <= cs@.len(),
    ensures
        r@ == cs@.subrange(from as int, to as int),
{
    let mut r: Vec<char> = Vec::new();
    let mut i = from;
    while i < to
        invariant
            from <= i <= to <= cs@.len(),
            r@ == cs@.subrange(from as int, i as int),
        decreases to - i,
    {
        r.push(cs[i]);
        i = i + 1;
        assert(r@ =~= cs@.subrange(from as int, i as int));
    }
    r
}


proof fn lemma_trim_digits_append(base: Seq<char>, d: Seq<char>)
    requires
        base.len() > 0,
        !is_digit(base.last()),
        forall|i: int| 0 <= i < d.len() ==> is_digit(#[trigger] d[i]),
    ensures
        trim_trailing_digits(base + d) == base,
    decreases d.len(),
{
    if d.len() == 0 {
        assert(base + d =~= base);
    } else {
        assert((base + d).drop_last() =~= base + d.drop_last());
        assert((base + d).last() == d[d.len() - 1]);
        lemma_trim_digits_append(base, d.drop_last());
    }
}

/// All parts of a split image name the same glob: two paths with the same
/// parent whose file names are `base`, some digits, then `.swm` (`test.swm`,
/// `test2.swm`, `test3.swm`) give the same glob, the parent joined with
/// `base*.swm`, when `base` is not empty and does not end in a digit. The
/// base may hold dots (`a.b2.swm` belongs with `a.b.swm`).
pub proof fn lemma_parts_share_glob(
    p: Seq<char>,
    q: Seq<char>,
    base: Seq<char>,
    d1: Seq<char>,
    d2: Seq<char>,
)
    requires
        base.len() > 0,
        !is_digit(base.last()),
        forall|i: int| 0 <= i < d1.len() ==> is_digit(#[trigger] d1[i]),
        forall|i: int| 0 <= i < d2.len() ==> is_digit(#[trigger] d2[i]),
        file_name_of(p) == Some(base + d1 + ".swm"@),
        file_name_of(q) == Some(base + d2 + ".swm"@),
        parent_of(p) == parent_of(q),
    ensures
        swm_glob(p) == swm_glob(q),
        swm_glob(p) == match glob_dir(p) {
            Some(dir) => join_path(dir, base + "*.swm"@),
            None => base + "*.swm"@,
        },
{
    lemma_part_base(base, d1);
    lemma_part_base(base, d2);
}

proof fn lemma_part_base(base: Seq<char>, d: Seq<char>)
    requires
        base.len() > 0,
        !is_digit(base.last()),
        forall|i: int| 0 <= i < d.len() ==> is_digit(#[trigger] d[i]),
    ensures
        file_stem(base + d + ".swm"@) == base + d,
        trim_trailing_digits(base + d) == base,
{
    reveal_strlit(".swm");
    let ext = ".swm"@;
    let stem = base + d;
    let name = stem + ext;
    let tail = ext.drop_first();
    assert(name =~= stem.push('.') + tail);
    assert forall|i: int| 0 <= i < tail.len() implies #[trigger] tail[i] != '.' by {
        assert(tail[i] == ext[i + 1]);
    }
    lemma_last_dot_append(stem.push('.'), tail);
    assert(stem.push('.').drop_last() =~= stem);
    assert(last_dot(name) == stem.len());
    assert(!is_dot_name(name)) by {
        assert(name.len() >= 5);
        assert(seq!['.'].len() == 1);
        assert(seq!['.', '.'].len() == 2);
    }
    assert(name.take(stem.len() as int) =~= stem);
    assert(base + d + ext =~= name);
    lemma_trim_digits_append(base, d);
}

proof fn lemma_last_dot_append(a: Seq<char>, b: Seq<char>)
    requires
        forall|i: int| 0 <= i < b.len() ==> #[trigger] b[i] != '.',
    ensures
        last_dot(a + b) == last_dot(a),
    decreases b.len(),
{
    if b.len() == 0 {
        assert(a + b =~= a);
    } else {
        assert((a + b).drop_last() =~= a + b.drop_last());
        assert((a + b).last() == b[b.len() - 1]);
        lemma_last_dot_append(a, b.drop_last());
    }
}

proof fn lemma_trim_all_digits(s: Seq<char>)
    requires
        forall|i: int| 0 <= i < s.len() ==> is_digit(#[trigger] s[i]),
    ensures
        trim_trailing_digits(s).len() == 0,
    decreases s.len(),
{
    if s.len() > 0 {
        lemma_trim_all_digits(s.drop_last());
    }
}

/// A stem made of digits only is kept whole as the common prefix, so the
/// glob never loses its name (`123.swm` gives `123*.swm`).
pub proof fn lemma_digit_stem_kept(path: Seq<char>)
    requires
        forall|i: int| 0 <= i < stem_of(path).len() ==> is_digit(#[trigger] stem_of(path)[i]),
    ensures
        swm_base(path) == stem_of(path),
{
    lemma_trim_all_digits(stem_of(path));
}

} // verus!
