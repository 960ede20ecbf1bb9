//! UTF-16 ("wide") strings as wimlib's Windows build takes and returns them.

use vstd::prelude::*;
use crate::util::push_char;

verus! {

broadcast use vstd::string::group_string_axioms;

/// The UTF-16 code units of one character.
pub open spec fn utf16_units(c: char) -> Seq<u16> {
    let v = c as u32;
    if v < 0x10000 {
        seq![v as u16]
    } else {
        let w = v - 0x10000;
        seq![(0xD800 + w / 1024) as u16, (0xDC00 + w % 1024) as u16]
    }
}

/// UTF-16 encoding of a character sequence.
pub open spec fn utf16_encode(s: Seq<char>) -> Seq<u16>
    decreases s.len(),
{
    if s.len() == 0 {
        seq![]
    } else {
        utf16_units(s[0]) + utf16_encode(s.drop_first())
    }
}

/// Appends the UTF-16 units of `c` to `out`.
fn push_units(out: &mut Vec<u16>, c: char)
    ensures
        final(out)@ == old(out)@ + utf16_units(c),
{
    let v: u32 = c as u32;
    if v < 0x10000 {
        out.push(v as u16);
    } else {
        let w: u32 = v - 0x10000;
        assert(w < 0x100000);
        out.push((0xD800 + w / 1024) as u16);
        out.push((0xDC00 + w % 1024) as u16);
    }
}

/// Converts `s` to a NUL-terminated UTF-16 buffer, the form in which wimlib
/// takes paths and names.
pub fn to_wide(s: &str) -> (out: Vec<u16>)
    ensures
        out@ == utf16_encode(s@).push(0u16),
{
    let mut out: Vec<u16> = Vec::new();
    assert(s@.skip(0) =~= s@);
    assert(out@ + utf16_encode(s@) =~= utf16_encode(s@));
    for c in it: s.chars()
        invariant
            it.seq() == s@,
            out@ + utf16_encode(s@.skip(it.index())) == utf16_encode(s@),
    {
        let ghost before = out@;
        let ghost rest = s@.skip(it.index());
        assert(rest.drop_first() =~= s@.skip(it.index() + 1));
        push_units(&mut out, c);
        assert(out@ + utf16_encode(s@.skip(it.index() + 1)) =~= before + utf16_encode(rest));
    }
    assert(s@.skip(s@.len() as int) =~= Seq::<char>::empty());
    out.push(0u16);
    out
}


/// Whether `u` is a UTF-16 surrogate unit.
pub open spec fn is_surrogate(u: u16) -> bool {
    0xD800 <= u <= 0xDFFF
}

/// Whether `u` is a leading (high) surrogate.
pub open spec fn is_high_surrogate(u: u16) -> bool {
    0xD800 <= u <= 0xDBFF
}

/// Whether `u` is a trailing (low) surrogate.
pub open spec fn is_low_surrogate(u: u16) -> bool {
    0xDC00 <= u <= 0xDFFF
}

/// Whether `v` is a Unicode scalar value, the range of `char`.
pub open spec fn is_scalar_value(v: int) -> bool {
    (0 <= v < 0xD800) || (0xE000 <= v <= 0x10FFFF)
}

/// The character that a surrogate pair encodes.
pub open spec fn surrogate_pair_char(high: u16, low: u16) -> char {
    ((0x10000 + (high - 0xD800) * 1024 + (low - 0xDC00)) as u32) as char
}

/// Lossy UTF-16 decoding, as `String::from_utf16_lossy` does it: a well-formed
/// surrogate pair gives one character, any unpaired surrogate gives U+FFFD.
pub open spec fn utf16_decode_lossy(u: Seq<u16>) -> Seq<char>
    decreases u.len(),
{
    if u.len() == 0 {
        seq![]
    } else if !is_surrogate(u[0]) {
        seq![(u[0] as u32) as char] + utf16_decode_lossy(u.drop_first())
    } else if is_high_surrogate(u[0]) && u.len() >= 2 && is_low_surrogate(u[1]) {
        seq![surrogate_pair_char(u[0], u[1])] + utf16_decode_lossy(u.skip(2))
    } else {
        seq!['\u{FFFD}'] + utf16_decode_lossy(u.drop_first())
    }
}

/// The units of `u` before its first NUL (all of `u` if it has none).
pub open spec fn before_nul(u: Seq<u16>) -> Seq<u16>
    decreases u.len(),
{
    if u.len() == 0 || u[0] == 0 {
        seq![]
    } else {
        seq![u[0]] + before_nul(u.drop_first())
    }
}

/// `char::from_u32`: the character whose scalar value is `v`, or `None` when
/// `v` is a surrogate or above `0x10FFFF`.
#[verifier::external_body]
fn char_from_u32(v: u32) -> (r: Option<char>)
    ensures
        is_scalar_value(v as int) ==> r == Some(v as char),
        !is_scalar_value(v as int) ==> r is None,
{
    char::from_u32(v)
}

/// Reads a NUL-terminated UTF-16 string as wimlib returns it: `None` stands
/// for a null pointer, otherwise the units up to the first NUL (or the whole
/// buffer if it holds none) are decoded, unpaired surrogates becoming U+FFFD.
pub fn from_wide(buf: Option<&[u16]>) -> (r: Option<String>)
    ensures
        buf is None ==> r is None,
        buf matches Some(b) ==> r matches Some(t) && t@ == utf16_decode_lossy(before_nul(b@)),
{
    let b = match buf {
        None => return None,
        Some(b) => b,
    };
    let n = b.len();
    let mut end: usize = 0;
    assert(b@.skip(0) =~= b@);
    assert(b@.take(0) + before_nul(b@.skip(0)) =~= before_nul(b@));
    while end < n && b[end] != 0
        invariant
            end <= n,
            n == b@.len(),
            before_nul(b@) == b@.take(end as int) + before_nul(b@.skip(end as int)),
        decreases n - end,
    {
        assert(b@.skip(end as int).drop_first() =~= b@.skip(end + 1));
        assert(b@.take(end + 1) =~= b@.take(end as int).push(b@[end as int]));
        assert(b@.take(end as int) + before_nul(b@.skip(end as int)) =~= b@.take(end + 1)
            + before_nul(b@.skip(end + 1)));
        end = end + 1;
    }
    assert(before_nul(b@.skip(end as int)) =~= Seq::<u16>::empty());
    assert(before_nul(b@) =~= b@.take(end as int));
    let ghost t = b@.take(end as int);
    let mut out = String::new();
    let mut i: usize = 0;
    assert(t.skip(0) =~= t);
    while i < end
        invariant
            i <= end <= n,
            n == b@.len(),
            t == b@.take(end as int),
            out@ + utf16_decode_lossy(t.skip(i as int)) == utf16_decode_lossy(t),
        decreases end - i,
    {
        let ghost rest = t.skip(i as int);
        let ghost before = out@;
        let u = b[i];
        assert(rest[0] == u);
        if u < 0xD800 || u > 0xDFFF {
            match char_from_u32(u as u32) {
                Some(c) => push_char(&mut out, c),
                None => {},
            }
            assert(rest.drop_first() =~= t.skip(i + 1));
            i = i + 1;
        } else if u <= 0xDBFF && i + 1 < end && 0xDC00 <= b[i + 1] && b[i + 1] <= 0xDFFF {
            let low = b[i + 1];
            assert(rest[1] == low);
            let v: u32 = 0x10000 + (u as u32 - 0xD800) * 1024 + (low as u32 - 0xDC00);
            match char_from_u32(v) {
                Some(c) => push_char(&mut out, c),
                None => {},
            }
            assert(rest.skip(2) =~= t.skip(i + 2));
            i = i + 2;
        } else {
            push_char(&mut out, '\u{FFFD}');
            assert(rest.drop_first() =~= t.skip(i + 1));
            i = i + 1;
        }
    }
    assert(t.skip(end as int) =~= Seq::<u16>::empty());
    Some(out)
}


proof fn lemma_decode_units_prefix(c: char, rest: Seq<u16>)
    ensures
        utf16_decode_lossy(utf16_units(c) + rest) == seq![c] + utf16_decode_lossy(rest),
{
    let u = utf16_units(c) + rest;
    let v = c as u32;
    if v < 0x10000 {
        assert(u.drop_first() =~= rest);
        assert(!is_surrogate(u[0]));
        assert(((u[0] as u32) as char) == c);
    } else {
        assert(u.skip(2) =~= rest);
        assert(is_high_surrogate(u[0]));
        assert(is_low_surrogate(u[1]));
        assert(surrogate_pair_char(u[0], u[1]) == c);
    }
}

proof fn lemma_decode_encode(s: Seq<char>)
    ensures
        utf16_decode_lossy(utf16_encode(s)) == s,
    decreases s.len(),
{
    if s.len() > 0 {
        lemma_decode_encode(s.drop_first());
        lemma_decode_units_prefix(s[0], utf16_encode(s.drop_first()));
        assert(seq![s[0]] + s.drop_first() =~= s);
    }
}

proof fn lemma_before_nul_concat(a: Seq<u16>, b: Seq<u16>)
    requires
        !a.contains(0u16),
    ensures
        before_nul(a + b) == a + before_nul(b),
    decreases a.len(),
{
    if a.len() == 0 {
        assert(a + b =~= b);
    } else {
        assert(a[0] != 0);
        assert((a + b).drop_first() =~= a.drop_first() + b);
        assert(!a.drop_first().contains(0u16)) by {
            if a.drop_first().contains(0u16) {
                let k = choose|k: int| 0 <= k < a.drop_first().len() && a.drop_first()[k] == 0u16;
                assert(a[k + 1] == 0u16);
            }
        }
        lemma_before_nul_concat(a.drop_first(), b);
        assert(seq![a[0]] + (a.drop_first() + before_nul(b)) =~= a + before_nul(b));
    }
}

proof fn lemma_units_no_nul(c: char)
    requires
        c != '\0',
    ensures
        !utf16_units(c).contains(0u16),
{
    let a = utf16_units(c);
    let v = c as u32;
    if a.contains(0u16) {
        let k = choose|k: int| 0 <= k < a.len() && a[k] == 0u16;
        if v < 0x10000 {
            assert(a[0] == v as u16);
        } else {
            let w = v - 0x10000;
            assert(a[0] == (0xD800 + w / 1024) as u16);
            assert(a[1] == (0xDC00 + w % 1024) as u16);
        }
    }
}

proof fn lemma_encode_no_nul(s: Seq<char>)
    requires
        !s.contains('\0'),
    ensures
        !utf16_encode(s).contains(0u16),
    decreases s.len(),
{
    if s.len() > 0 {
        assert(!s.drop_first().contains('\0')) by {
            if s.drop_first().contains('\0') {
                let k = choose|k: int| 0 <= k < s.drop_first().len() && s.drop_first()[k] == '\0';
                assert(s[k + 1] == '\0');
            }
        }
        lemma_encode_no_nul(s.drop_first());
        let a = utf16_units(s[0]);
        let b = utf16_encode(s.drop_first());
        assert(s[0] != '\0');
        lemma_units_no_nul(s[0]);
        if (a + b).contains(0u16) {
            let k = choose|k: int| 0 <= k < (a + b).len() && (a + b)[k] == 0u16;
            if k < a.len() {
                assert(a[k] == 0u16);
            } else {
                assert(b[k - a.len()] == 0u16);
            }
        }
    }
}

/// A string without NUL characters survives the trip through a wide buffer:
/// reading back the buffer that `to_wide` builds gives the string again.
pub proof fn lemma_wide_roundtrip(s: Seq<char>)
    requires
        !s.contains('\0'),
    ensures
        utf16_decode_lossy(before_nul(utf16_encode(s).push(0u16))) == s,
{
    lemma_encode_no_nul(s);
    lemma_before_nul_concat(utf16_encode(s), seq![0u16]);
    assert(utf16_encode(s).push(0u16) =~= utf16_encode(s) + seq![0u16]);
    assert(before_nul(seq![0u16]) =~= Seq::<u16>::empty());
    assert(utf16_encode(s) + Seq::<u16>::empty() =~= utf16_encode(s));
    lemma_decode_encode(s);
}

} // verus!
