//! Code-point order on text, the order in which Rust compares `String`s
//! (UTF-8 byte order and code-point order agree), and sorting by it.

use vstd::prelude::*;
use vstd::multiset::Multiset;
use vstd::relations::{sorted_by, total_ordering};
use crate::text::chars_of;

verus! {

broadcast use vstd::seq_lib::group_to_multiset_ensures;

/// `a <= b` in lexicographic code-point order.
pub open spec fn text_le(a: Seq<char>, b: Seq<char>) -> bool
    decreases a.len(),
{
    if a.len() == 0 {
        true
    } else if b.len() == 0 {
        false
    } else if a[0] != b[0] {
        (a[0] as u32) < (b[0] as u32)
    } else {
        text_le(a.drop_first(), b.drop_first())
    }
}

/// Code-point order as a relation.
pub open spec fn text_order() -> spec_fn(Seq<char>, Seq<char>) -> bool {
    |a: Seq<char>, b: Seq<char>| text_le(a, b)
}

/// The texts of a sequence of strings.
pub open spec fn texts(v: Seq<String>) -> Seq<Seq<char>> {
    v.map_values(|s: String| s@)
}

proof fn lemma_char_code_injective(x: char, y: char)
    ensures
        (x as u32) == (y as u32) ==> x == y,
{
}

proof fn lemma_text_le_reflexive(a: Seq<char>)
    ensures
        text_le(a, a),
    decreases a.len(),
{
    if a.len() > 0 {
        lemma_text_le_reflexive(a.drop_first());
    }
}

proof fn lemma_text_le_antisymmetric(a: Seq<char>, b: Seq<char>)
    requires
        text_le(a, b),
        text_le(b, a),
    ensures
        a == b,
    decreases a.len(),
{
    if a.len() == 0 {
        assert(b.len() == 0);
        assert(a =~= b);
    } else {
        lemma_char_code_injective(a[0], b[0]);
        lemma_text_le_antisymmetric(a.drop_first(), b.drop_first());
        assert(a =~= seq![a[0]] + a.drop_first());
        assert(b =~= seq![b[0]] + b.drop_first());
    }
}

proof fn lemma_text_le_transitive(a: Seq<char>, b: Seq<char>, c: Seq<char>)
    requires
        text_le(a, b),
        text_le(b, c),
    ensures
        text_le(a, c),
    decreases a.len(),
{
    if a.len() > 0 && b.len() > 0 && c.len() > 0 {
        lemma_char_code_injective(a[0], b[0]);
        lemma_char_code_injective(b[0], c[0]);
        lemma_char_code_injective(a[0], c[0]);
        if a[0] == b[0] && b[0] == c[0] {
            lemma_text_le_transitive(a.drop_first(), b.drop_first(), c.drop_first());
        }
    }
}

proof fn lemma_text_le_total(a: Seq<char>, b: Seq<char>)
    ensures
        text_le(a, b) || text_le(b, a),
    decreases a.len(),
{
    if a.len() > 0 && b.len() > 0 {
        lemma_char_code_injective(a[0], b[0]);
        lemma_text_le_total(a.drop_first(), b.drop_first());
    }
}

/// Code-point order on text is a total order, so a sorted arrangement of a
/// collection of texts is unique.
pub proof fn lemma_text_order_total()
    ensures
        total_ordering(text_order()),
{
    assert forall|a: Seq<char>| #[trigger] text_le(a, a) by {
        lemma_text_le_reflexive(a);
    }
    assert forall|a: Seq<char>, b: Seq<char>|
        #[trigger] text_le(a, b) && #[trigger] text_le(b, a) implies a == b by {
        lemma_text_le_antisymmetric(a, b);
    }
    assert forall|a: Seq<char>, b: Seq<char>, c: Seq<char>|
        #[trigger] text_le(a, b) && #[trigger] text_le(b, c) implies text_le(a, c) by {
        lemma_text_le_transitive(a, b, c);
    }
    assert forall|a: Seq<char>, b: Seq<char>|
        #[trigger] text_le(a, b) || #[trigger] text_le(b, a) by {
        lemma_text_le_total(a, b);
    }
}

/// Texts compare from the front, and the first character where they differ
/// decides: with a common start `p`, the text that goes on with the smaller
/// code point comes first, and the other does not.
pub proof fn lemma_text_le_first_difference(
    p: Seq<char>,
    x: char,
    a: Seq<char>,
    y: char,
    b: Seq<char>,
)
    requires
        (x as u32) < (y as u32),
    ensures
        text_le(p + seq![x] + a, p + seq![y] + b),
        !text_le(p + seq![y] + b, p + seq![x] + a),
    decreases p.len(),
{
    let l = p + seq![x] + a;
    let r = p + seq![y] + b;
    if p.len() == 0 {
        assert(l[0] == x);
        assert(r[0] == y);
    } else {
        assert(l[0] == p[0]);
        assert(r[0] == p[0]);
        assert(l.drop_first() =~= p.drop_first() + seq![x] + a);
        assert(r.drop_first() =~= p.drop_first() + seq![y] + b);
        lemma_text_le_first_difference(p.drop_first(), x, a, y, b);
    }
}

/// A text comes before every longer text that starts with it, and no such
/// text comes before it.
pub proof fn lemma_text_le_proper_prefix(a: Seq<char>, b: Seq<char>)
    requires
        b.len() > 0,
    ensures
        text_le(a, a + b),
        !text_le(a + b, a),
    decreases a.len(),
{
    if a.len() > 0 {
        assert((a + b)[0] == a[0]);
        assert((a + b).drop_first() =~= a.drop_first() + b);
        lemma_text_le_proper_prefix(a.drop_first(), b);
    }
}

/// Whether `a <= b` in code-point order.
pub fn chars_le(a: &[char], b: &[char]) -> (r: bool)
    ensures
        r == text_le(a@, b@),
{
    let mut i: usize = 0;
    assert(a@.skip(0) =~= a@);
    assert(b@.skip(0) =~= b@);
    loop
        invariant
            i <= a@.len(),
            i <= b@.len(),
            text_le(a@, b@) == text_le(a@.skip(i as int), b@.skip(i as int)),
        decreases a@.len() - i,
    {
        if i == a.len() {
            return true;
        }
        if i == b.len() {
            return false;
        }
        assert(a@.skip(i as int)[0] == a@[i as int]);
        assert(b@.skip(i as int)[0] == b@[i as int]);
        if a[i] != b[i] {
            return (a[i] as u32) < (b[i] as u32);
        }
        assert(a@.skip(i as int).drop_first() =~= a@.skip(i + 1));
        assert(b@.skip(i as int).drop_first() =~= b@.skip(i + 1));
        i = i + 1;
    }
}

proof fn lemma_insert_multiset(s: Seq<Seq<char>>, p: int, x: Seq<char>)
    requires
        0 <= p <= s.len(),
    ensures
        s.insert(p, x).to_multiset() =~= s.to_multiset().insert(x),
{
    let ins = s.insert(p, x);
    assert(ins.remove(p) =~= s);
    assert(ins[p] == x);
    assert(ins.contains(x));
}

/// Sorts strings into ascending code-point order, the order of Rust's `sort`
/// on `String`s.
pub fn sort_texts(items: Vec<String>) -> (r: Vec<String>)
    ensures
        sorted_by(texts(r@), text_order()),
        texts(r@).to_multiset() == texts(items@).to_multiset(),
        texts(r@) == texts(items@).sort_by(text_order()),
{
    let ghost orig = texts(items@);
    let mut items = items;
    let mut r: Vec<String> = Vec::new();
    assert(texts(r@) =~= Seq::<Seq<char>>::empty());
    assert(texts(r@).to_multiset().add(texts(items@).to_multiset()) =~= orig.to_multiset());
    while items.len() > 0
        invariant
            sorted_by(texts(r@), text_order()),
            texts(r@).to_multiset().add(texts(items@).to_multiset()) == orig.to_multiset(),
        decreases items@.len(),
    {
        let ghost before_items = texts(items@);
        let x = items.pop().unwrap();
        assert(texts(items@).push(x@) =~= before_items);
        let xc = chars_of(x.as_str());
        let mut j: usize = 0;
        loop
            invariant
                j <= r@.len(),
                xc@ == x@,
                forall|k: int| 0 <= k < j ==> text_le(#[trigger] texts(r@)[k], x@),
            ensures
                j <= r@.len(),
                forall|k: int| 0 <= k < j ==> text_le(#[trigger] texts(r@)[k], x@),
                j < r@.len() ==> !text_le(texts(r@)[j as int], x@),
            decreases r@.len() - j,
        {
            if j == r.len() {
                break;
            }
            let rc = chars_of(r[j].as_str());
            if !chars_le(rc.as_slice(), xc.as_slice()) {
                break;
            }
            j = j + 1;
        }
        let ghost old_r = texts(r@);
        let ghost le = text_order();
        assert forall|p: int, q: int| 0 <= p < q < old_r.len() implies #[trigger] text_le(
            old_r[p],
            old_r[q],
        ) by {
            assert(le(old_r[p], old_r[q]));
        }
        proof {
            lemma_text_order_total();
            if j < old_r.len() {
                lemma_text_le_total(old_r[j as int], x@);
                assert(!text_le(old_r[j as int], x@));
                assert(text_le(x@, old_r[j as int]));
            }
        }
        r.insert(j, x);
        assert(texts(r@) =~= old_r.insert(j as int, x@));
        proof {
            let nr = texts(r@);
            assert forall|a: int, b: int| 0 <= a < b < nr.len() implies #[trigger] text_le(
                nr[a],
                nr[b],
            ) by {
                if b < j {
                    assert(nr[a] == old_r[a] && nr[b] == old_r[b]);
                } else if b == j {
                    assert(nr[a] == old_r[a]);
                } else if a == j {
                    assert(nr[b] == old_r[b - 1]);
                    if b - 1 > j {
                        assert(text_le(old_r[j as int], old_r[b - 1]));
                        lemma_text_le_transitive(x@, old_r[j as int], old_r[b - 1]);
                    }
                } else if a < j {
                    assert(nr[a] == old_r[a] && nr[b] == old_r[b - 1]);
                    assert(text_le(old_r[a], x@));
                    assert(text_le(x@, old_r[j as int]));
                    lemma_text_le_transitive(old_r[a], x@, old_r[j as int]);
                    if b - 1 > j {
                        assert(text_le(old_r[j as int], old_r[b - 1]));
                        lemma_text_le_transitive(old_r[a], old_r[j as int], old_r[b - 1]);
                    }
                } else {
                    assert(nr[a] == old_r[a - 1] && nr[b] == old_r[b - 1]);
                }
            }
            lemma_insert_multiset(old_r, j as int, x@);
            assert(before_items.to_multiset() =~= texts(items@).to_multiset().insert(x@));
            assert(nr.to_multiset().add(texts(items@).to_multiset()) =~= orig.to_multiset());
        }
    }
    assert(texts(items@) =~= Seq::<Seq<char>>::empty());
    assert(texts(items@).to_multiset() =~= Multiset::empty());
    assert(texts(r@).to_multiset().add(Multiset::empty()) =~= texts(r@).to_multiset());
    proof {
        lemma_text_order_total();
        orig.lemma_sort_by_ensures(text_order());
        vstd::seq_lib::lemma_sorted_unique(texts(r@), orig.sort_by(text_order()), text_order());
    }
    r
}

} // verus!
