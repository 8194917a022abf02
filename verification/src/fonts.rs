//! The list of font families offered in the settings: sorted, each family once.
use vstd::prelude::*;
use vstd::utf8::{
    char_is_scalar, encode_scalar, encode_utf8, has_width_1_encoding, has_width_2_encoding,
    has_width_3_encoding, is_scalar,
};

use crate::launch::texts;
use crate::text::{chars_of, same_text, string_from_chars, views};

verus! {

/// The order of strings: lexicographic by Unicode scalar value, which is the order of
/// their UTF-8 bytes and so the order of `String`.
pub open spec fn text_lt(a: Seq<char>, b: Seq<char>) -> bool
    decreases a.len(),
{
    if a.len() == 0 {
        b.len() > 0
    } else if b.len() == 0 {
        false
    } else if a[0] != b[0] {
        a[0] < b[0]
    } else {
        text_lt(a.drop_first(), b.drop_first())
    }
}

/// Each element comes before the next: sorted, without repeats.
pub open spec fn strictly_sorted(s: Seq<Seq<char>>) -> bool {
    forall|i: int, j: int| 0 <= i < j < s.len() ==> text_lt(#[trigger] s[i], #[trigger] s[j])
}

pub proof fn lemma_text_lt_irreflexive(a: Seq<char>)
    ensures
        !text_lt(a, a),
    decreases a.len(),
{
    if a.len() > 0 {
        lemma_text_lt_irreflexive(a.drop_first());
    }
}

pub proof fn lemma_text_lt_transitive(a: Seq<char>, b: Seq<char>, c: Seq<char>)
    requires
        text_lt(a, b),
        text_lt(b, c),
    ensures
        text_lt(a, c),
    decreases a.len(),
{
    if a.len() > 0 && b.len() > 0 && c.len() > 0 && a[0] == b[0] && b[0] == c[0] {
        lemma_text_lt_transitive(a.drop_first(), b.drop_first(), c.drop_first());
    }
}

pub proof fn lemma_text_lt_total(a: Seq<char>, b: Seq<char>)
    requires
        a != b,
    ensures
        text_lt(a, b) || text_lt(b, a),
    decreases a.len(),
{
    if a.len() > 0 && b.len() > 0 && a[0] == b[0] {
        if a.drop_first() == b.drop_first() {
            assert(a =~= seq![a[0]] + a.drop_first());
            assert(b =~= seq![b[0]] + b.drop_first());
        }
        lemma_text_lt_total(a.drop_first(), b.drop_first());
    } else if a.len() == 0 && b.len() == 0 {
        assert(a =~= b);
    }
}

pub proof fn lemma_text_lt_asymmetric(a: Seq<char>, b: Seq<char>)
    requires
        text_lt(a, b),
    ensures
        !text_lt(b, a),
{
    if text_lt(b, a) {
        lemma_text_lt_transitive(a, b, a);
        lemma_text_lt_irreflexive(a);
    }
}

/// Two lists, each sorted without repeats, that hold the same strings are the same list:
/// the family list is fixed by the strings it holds.
pub proof fn law_sorted_list_is_unique(a: Seq<Seq<char>>, b: Seq<Seq<char>>)
    requires
        strictly_sorted(a),
        strictly_sorted(b),
        forall|x: Seq<char>| a.contains(x) <==> b.contains(x),
    ensures
        a == b,
    decreases a.len(),
{
    if a.len() == 0 {
        if b.len() > 0 {
            assert(b.contains(b[0]));
        }
        assert(a =~= b);
    } else {
        assert(a.contains(a[0]));
        assert(b.len() > 0);
        assert(b.contains(b[0]));
        let ia = choose|i: int| 0 <= i < a.len() && a[i] == b[0];
        let ib = choose|i: int| 0 <= i < b.len() && b[i] == a[0];
        if a[0] != b[0] {
            if ia > 0 {
                assert(text_lt(a[0], a[ia]));
            }
            if ib > 0 {
                assert(text_lt(b[0], b[ib]));
            }
            lemma_text_lt_asymmetric(a[0], b[0]);
        }
        let ta = a.drop_first();
        let tb = b.drop_first();
        assert forall|x: Seq<char>| ta.contains(x) <==> tb.contains(x) by {
            if ta.contains(x) {
                let i = choose|i: int| 0 <= i < ta.len() && ta[i] == x;
                assert(a[i + 1] == x);
                assert(text_lt(a[0], a[i + 1]));
                lemma_text_lt_irreflexive(x);
                assert(a.contains(x));
                let j = choose|j: int| 0 <= j < b.len() && b[j] == x;
                assert(j != 0);
                assert(tb[j - 1] == x);
            }
            if tb.contains(x) {
                let i = choose|i: int| 0 <= i < tb.len() && tb[i] == x;
                assert(b[i + 1] == x);
                assert(text_lt(b[0], b[i + 1]));
                lemma_text_lt_irreflexive(x);
                assert(b.contains(x));
                let j = choose|j: int| 0 <= j < a.len() && a[j] == x;
                assert(j != 0);
                assert(ta[j - 1] == x);
            }
        }
        law_sorted_list_is_unique(ta, tb);
        assert(a =~= seq![a[0]] + ta);
        assert(b =~= seq![b[0]] + tb);
    }
}

/// The order of the font list is the lexicographic order of characters: `a` comes before
/// `b` exactly when `a` is a proper prefix of `b`, or at the first position where they
/// differ `a` has the smaller character.
pub proof fn law_text_order_is_lexicographic(a: Seq<char>, b: Seq<char>)
    ensures
        text_lt(a, b) <==> ((a.len() < b.len() && b.take(a.len() as int) == a) || exists|i: int|
            0 <= i < a.len() && i < b.len() && a.take(i) == b.take(i) && a[i] < b[i]),
    decreases a.len(),
{
    let prefix = a.len() < b.len() && b.take(a.len() as int) == a;
    let differs = exists|i: int|
        0 <= i < a.len() && i < b.len() && a.take(i) == b.take(i) && a[i] < b[i];
    if a.len() == 0 {
        assert(b.take(0) =~= a);
        if differs {
            let i = choose|i: int| 0 <= i < a.len() && i < b.len() && a.take(i) == b.take(i) && a[i] < b[i];
        }
    } else if b.len() == 0 {
        if differs {
            let i = choose|i: int| 0 <= i < a.len() && i < b.len() && a.take(i) == b.take(i) && a[i] < b[i];
        }
    } else if a[0] != b[0] {
        if a[0] < b[0] {
            assert(a.take(0) =~= b.take(0));
        } else {
            if differs {
                let i = choose|i: int|
                    0 <= i < a.len() && i < b.len() && a.take(i) == b.take(i) && a[i] < b[i];
                if i > 0 {
                    assert(a.take(i)[0] == b.take(i)[0]);
                }
            }
            if prefix {
                assert(b.take(a.len() as int)[0] == b[0]);
            }
        }
    } else {
        let a1 = a.drop_first();
        let b1 = b.drop_first();
        law_text_order_is_lexicographic(a1, b1);
        if a1.len() < b1.len() && b1.take(a1.len() as int) == a1 {
            assert(b.take(a.len() as int) =~= a) by {
                assert forall|k: int| 0 <= k < a.len() implies #[trigger] b.take(a.len() as int)[k] == a[k] by {
                    if k > 0 {
                        assert(b1.take(a1.len() as int)[k - 1] == a1[k - 1]);
                    }
                }
            }
        }
        if prefix {
            assert(b1.take(a1.len() as int) =~= a1) by {
                assert forall|k: int| 0 <= k < a1.len() implies #[trigger] b1.take(a1.len() as int)[k]
                    == a1[k] by {
                    assert(b.take(a.len() as int)[k + 1] == a[k + 1]);
                }
            }
        }
        if exists|i: int|
            0 <= i < a1.len() && i < b1.len() && a1.take(i) == b1.take(i) && a1[i] < b1[i] {
            let i = choose|i: int|
                0 <= i < a1.len() && i < b1.len() && a1.take(i) == b1.take(i) && a1[i] < b1[i];
            assert(a.take(i + 1) =~= b.take(i + 1)) by {
                assert forall|k: int| 0 <= k < i + 1 implies #[trigger] a.take(i + 1)[k] == b.take(i + 1)[k] by {
                    if k > 0 {
                        assert(a1.take(i)[k - 1] == b1.take(i)[k - 1]);
                    }
                }
            }
            assert(a[i + 1] < b[i + 1]);
        }
        if differs {
            let i = choose|i: int|
                0 <= i < a.len() && i < b.len() && a.take(i) == b.take(i) && a[i] < b[i];
            assert(i > 0);
            assert(a1.take(i - 1) =~= b1.take(i - 1)) by {
                assert forall|k: int| 0 <= k < i - 1 implies #[trigger] a1.take(i - 1)[k] == b1.take(i - 1)[k] by {
                    assert(a.take(i)[k + 1] == b.take(i)[k + 1]);
                }
            }
            assert(a1[i - 1] < b1[i - 1]);
        }
    }
}

/// A name comes before every longer name it begins: "Arial" before "Arial Black".
pub proof fn law_prefix_comes_first(a: Seq<char>, x: Seq<char>)
    requires
        x.len() > 0,
    ensures
        text_lt(a, a + x),
{
    law_text_order_is_lexicographic(a, a + x);
    assert((a + x).take(a.len() as int) =~= a);
}

/// The order of byte strings, which is how `str` and `String` compare: lexicographic by
/// byte value.
pub open spec fn bytes_lt(a: Seq<u8>, b: Seq<u8>) -> bool
    decreases a.len(),
{
    if a.len() == 0 {
        b.len() > 0
    } else if b.len() == 0 {
        false
    } else if a[0] != b[0] {
        a[0] < b[0]
    } else {
        bytes_lt(a.drop_first(), b.drop_first())
    }
}

proof fn lemma_bytes_lt_at(a: Seq<u8>, b: Seq<u8>, k: int)
    requires
        0 <= k < a.len(),
        k < b.len(),
        forall|j: int| 0 <= j < k ==> a[j] == b[j],
        a[k] < b[k],
    ensures
        bytes_lt(a, b),
    decreases k,
{
    if k > 0 {
        assert(a[0] == b[0]);
        lemma_bytes_lt_at(a.drop_first(), b.drop_first(), k - 1);
    }
}

proof fn lemma_bytes_lt_common_prefix(p: Seq<u8>, x: Seq<u8>, y: Seq<u8>)
    ensures
        bytes_lt(p + x, p + y) == bytes_lt(x, y),
    decreases p.len(),
{
    if p.len() > 0 {
        assert((p + x).drop_first() =~= p.drop_first() + x);
        assert((p + y).drop_first() =~= p.drop_first() + y);
        lemma_bytes_lt_common_prefix(p.drop_first(), x, y);
    } else {
        assert(p + x =~= x);
        assert(p + y =~= y);
    }
}

proof fn lemma_bytes_lt_asymmetric(a: Seq<u8>, b: Seq<u8>)
    requires
        bytes_lt(a, b),
    ensures
        !bytes_lt(b, a),
    decreases a.len(),
{
    if a.len() > 0 && b.len() > 0 && a[0] == b[0] {
        lemma_bytes_lt_asymmetric(a.drop_first(), b.drop_first());
    }
}

proof fn lemma_char_order(c: char, d: char)
    requires
        c < d,
    ensures
        (c as u32) < (d as u32),
{
}

/// The UTF-8 encodings of two scalars are ordered as the scalars are, whatever follows
/// each of them.
proof fn lemma_scalar_bytes_ordered(u: u32, v: u32, x: Seq<u8>, y: Seq<u8>)
    requires
        is_scalar(u),
        is_scalar(v),
        u < v,
    ensures
        bytes_lt(encode_scalar(u) + x, encode_scalar(v) + y),
{
    let a = encode_scalar(u) + x;
    let b = encode_scalar(v) + y;
    assert(u <= 0x7F ==> ((u & 0x7F) as u8) <= 0x7F) by (bit_vector);
    assert(0x80 <= v <= 0x7FF ==> 0xC0 <= (0xC0u8 | ((v >> 6) & 0x1F) as u8) <= 0xDF)
        by (bit_vector);
    assert(0x800 <= v <= 0xFFFF ==> 0xE0 <= (0xE0u8 | ((v >> 12) & 0x0F) as u8) <= 0xEF)
        by (bit_vector);
    assert(0x10000 <= v <= 0x10FFFF ==> 0xF0 <= (0xF0u8 | ((v >> 18) & 0x7) as u8) <= 0xF7)
        by (bit_vector);
    assert(0x80 <= u <= 0x7FF ==> 0xC0 <= (0xC0u8 | ((u >> 6) & 0x1F) as u8) <= 0xDF)
        by (bit_vector);
    assert(0x800 <= u <= 0xFFFF ==> 0xE0 <= (0xE0u8 | ((u >> 12) & 0x0F) as u8) <= 0xEF)
        by (bit_vector);
    if has_width_1_encoding(u) && has_width_1_encoding(v) {
        assert(u < v && v <= 0x7F ==> ((u & 0x7F) as u8) < ((v & 0x7F) as u8)) by (bit_vector);
        lemma_bytes_lt_at(a, b, 0);
    } else if has_width_1_encoding(u) || (has_width_2_encoding(u) && !has_width_2_encoding(v)) || (
    has_width_3_encoding(u) && !has_width_3_encoding(v)) {
        lemma_bytes_lt_at(a, b, 0);
    } else if has_width_2_encoding(u) {
        assert(0x80 <= u < v <= 0x7FF ==> (0xC0u8 | ((u >> 6) & 0x1F) as u8) < (0xC0u8 | ((v >> 6)
            & 0x1F) as u8) || ((0xC0u8 | ((u >> 6) & 0x1F) as u8) == (0xC0u8 | ((v >> 6) & 0x1F) as u8)
            && (0x80u8 | (u & 0x3F) as u8) < (0x80u8 | (v & 0x3F) as u8))) by (bit_vector);
        if a[0] < b[0] {
            lemma_bytes_lt_at(a, b, 0);
        } else {
            lemma_bytes_lt_at(a, b, 1);
        }
    } else if has_width_3_encoding(u) {
        assert(0x800 <= u < v <= 0xFFFF ==> (0xE0u8 | ((u >> 12) & 0x0F) as u8) < (0xE0u8 | ((v
            >> 12) & 0x0F) as u8) || ((0xE0u8 | ((u >> 12) & 0x0F) as u8) == (0xE0u8 | ((v >> 12)
            & 0x0F) as u8) && (0x80u8 | ((u >> 6) & 0x3F) as u8) < (0x80u8 | ((v >> 6) & 0x3F) as u8))
            || ((0xE0u8 | ((u >> 12) & 0x0F) as u8) == (0xE0u8 | ((v >> 12) & 0x0F) as u8) && (0x80u8
            | ((u >> 6) & 0x3F) as u8) == (0x80u8 | ((v >> 6) & 0x3F) as u8) && (0x80u8 | (u & 0x3F) as u8)
            < (0x80u8 | (v & 0x3F) as u8))) by (bit_vector);
        if a[0] < b[0] {
            lemma_bytes_lt_at(a, b, 0);
        } else if a[1] < b[1] {
            lemma_bytes_lt_at(a, b, 1);
        } else {
            lemma_bytes_lt_at(a, b, 2);
        }
    } else {
        assert(0x10000 <= u < v <= 0x10FFFF ==> (0xF0u8 | ((u >> 18) & 0x7) as u8) < (0xF0u8 | ((v
            >> 18) & 0x7) as u8) || ((0xF0u8 | ((u >> 18) & 0x7) as u8) == (0xF0u8 | ((v >> 18) & 0x7)
            as u8) && (0x80u8 | ((u >> 12) & 0x3F) as u8) < (0x80u8 | ((v >> 12) & 0x3F) as u8)) || ((
            0xF0u8 | ((u >> 18) & 0x7) as u8) == (0xF0u8 | ((v >> 18) & 0x7) as u8) && (0x80u8 | ((u
            >> 12) & 0x3F) as u8) == (0x80u8 | ((v >> 12) & 0x3F) as u8) && (0x80u8 | ((u >> 6) & 0x3F)
            as u8) < (0x80u8 | ((v >> 6) & 0x3F) as u8)) || ((0xF0u8 | ((u >> 18) & 0x7) as u8) == (
            0xF0u8 | ((v >> 18) & 0x7) as u8) && (0x80u8 | ((u >> 12) & 0x3F) as u8) == (0x80u8 | ((v
            >> 12) & 0x3F) as u8) && (0x80u8 | ((u >> 6) & 0x3F) as u8) == (0x80u8 | ((v >> 6) & 0x3F)
            as u8) && (0x80u8 | (u & 0x3F) as u8) < (0x80u8 | (v & 0x3F) as u8))) by (bit_vector);
        if a[0] < b[0] {
            lemma_bytes_lt_at(a, b, 0);
        } else if a[1] < b[1] {
            lemma_bytes_lt_at(a, b, 1);
        } else if a[2] < b[2] {
            lemma_bytes_lt_at(a, b, 2);
        } else {
            lemma_bytes_lt_at(a, b, 3);
        }
    }
}

/// The order of the font list is the order of `String`: one name comes before another
/// exactly when its UTF-8 bytes come first.
pub proof fn law_text_order_is_byte_order(a: Seq<char>, b: Seq<char>)
    ensures
        text_lt(a, b) <==> bytes_lt(encode_utf8(a), encode_utf8(b)),
    decreases a.len(),
{
    if a.len() == 0 {
        if b.len() > 0 {
            assert(encode_utf8(b).len() > 0);
        }
    } else if b.len() == 0 {
    } else {
        let (c, d) = (a[0], b[0]);
        char_is_scalar(c);
        char_is_scalar(d);
        if c == d {
            lemma_bytes_lt_common_prefix(
                encode_scalar(c as u32),
                encode_utf8(a.drop_first()),
                encode_utf8(b.drop_first()),
            );
            law_text_order_is_byte_order(a.drop_first(), b.drop_first());
        } else if c < d {
            lemma_char_order(c, d);
            lemma_scalar_bytes_ordered(
                c as u32,
                d as u32,
                encode_utf8(a.drop_first()),
                encode_utf8(b.drop_first()),
            );
        } else {
            lemma_char_order(d, c);
            lemma_scalar_bytes_ordered(
                d as u32,
                c as u32,
                encode_utf8(b.drop_first()),
                encode_utf8(a.drop_first()),
            );
            lemma_bytes_lt_asymmetric(encode_utf8(b), encode_utf8(a));
        }
    }
}

/// A strictly sorted list, such as the font list, is in the order of `String`: the UTF-8
/// bytes of each name come before those of every later name.
pub proof fn law_sorted_names_in_byte_order(s: Seq<Seq<char>>)
    requires
        strictly_sorted(s),
    ensures
        forall|i: int, j: int|
            0 <= i < j < s.len() ==> bytes_lt(encode_utf8(#[trigger] s[i]), encode_utf8(#[trigger] s[j])),
{
    assert forall|i: int, j: int| 0 <= i < j < s.len() implies bytes_lt(
        encode_utf8(#[trigger] s[i]),
        encode_utf8(#[trigger] s[j]),
    ) by {
        law_text_order_is_byte_order(s[i], s[j]);
    }
}

/// Whether `a` comes before `b`.
fn text_less(a: &Vec<char>, b: &Vec<char>) -> (r: bool)
    ensures
        r == text_lt(a@, b@),
{
    let mut i: usize = 0;
    proof {
        assert(a@.skip(0) =~= a@);
        assert(b@.skip(0) =~= b@);
    }
    while i < a.len() && i < b.len() && a[i] == b[i]
        invariant
            i <= a.len(),
            i <= b.len(),
            text_lt(a@, b@) == text_lt(a@.skip(i as int), b@.skip(i as int)),
        decreases a.len() - i,
    {
        proof {
            assert(a@.skip(i as int).drop_first() =~= a@.skip(i + 1));
            assert(b@.skip(i as int).drop_first() =~= b@.skip(i + 1));
        }
        i += 1;
    }
    if i == a.len() {
        i < b.len()
    } else if i == b.len() {
        false
    } else {
        a[i] < b[i]
    }
}

proof fn lemma_insert_sorted(s: Seq<Seq<char>>, p: int, x: Seq<char>)
    requires
        strictly_sorted(s),
        0 <= p <= s.len(),
        forall|q: int| 0 <= q < p ==> text_lt(#[trigger] s[q], x),
        forall|q: int| p <= q < s.len() ==> text_lt(x, #[trigger] s[q]),
    ensures
        strictly_sorted(s.insert(p, x)),
{
    let t = s.insert(p, x);
    assert forall|i: int, j: int| 0 <= i < j < t.len() implies text_lt(
        #[trigger] t[i],
        #[trigger] t[j],
    ) by {
        if j < p {
            assert(t[i] == s[i] && t[j] == s[j]);
        } else if j == p {
            assert(t[i] == s[i]);
        } else if i < p {
            assert(t[i] == s[i] && t[j] == s[j - 1]);
        } else if i == p {
            assert(t[j] == s[j - 1]);
        } else {
            assert(t[i] == s[i - 1] && t[j] == s[j - 1]);
        }
    }
}

/// The font families, sorted, each once.
pub fn sorted_families(families: &Vec<String>) -> (r: Vec<String>)
    ensures
        strictly_sorted(texts(r@)),
        forall|x: Seq<char>| texts(r@).contains(x) <==> texts(families@).contains(x),
{
    let mut keys: Vec<Vec<char>> = Vec::new();
    let mut i: usize = 0;
    while i < families.len()
        invariant
            i <= families.len(),
            strictly_sorted(views(keys@)),
            forall|x: Seq<char>| #[trigger]
                views(keys@).contains(x) <==> texts(families@).take(i as int).contains(x),
        decreases families.len() - i,
    {
        let key = chars_of(families[i].as_str());
        let ghost ks = views(keys@);
        let ghost done = texts(families@).take(i as int);
        let mut p: usize = 0;
        while p < keys.len() && text_less(&keys[p], &key)
            invariant
                p <= keys.len(),
                ks == views(keys@),
                forall|q: int| 0 <= q < p ==> text_lt(#[trigger] ks[q], key@),
            decreases keys.len() - p,
        {
            p += 1;
        }
        proof {
            assert(texts(families@).take(i + 1) =~= done.push(key@));
        }
        if p < keys.len() && same_text(&keys[p], &key) {
            proof {
                assert forall|x: Seq<char>| #[trigger]
                    views(keys@).contains(x) <==> texts(families@).take(i + 1).contains(x) by {
                    if x == key@ {
                        assert(ks[p as int] == x);
                        assert(done.push(key@)[i as int] == x);
                    }
                    if done.push(key@).contains(x) && x != key@ {
                        let j = choose|j: int| 0 <= j < i + 1 && done.push(key@)[j] == x;
                        assert(done[j] == x);
                    }
                    if done.contains(x) {
                        let j = choose|j: int| 0 <= j < i && done[j] == x;
                        assert(done.push(key@)[j] == x);
                    }
                }
            }
        } else {
            proof {
                if p < keys.len() {
                    lemma_text_lt_total(ks[p as int], key@);
                }
                assert forall|q: int| p <= q < ks.len() implies text_lt(key@, #[trigger] ks[q]) by {
                    lemma_text_lt_total(ks[p as int], key@);
                    if q > p {
                        assert(text_lt(ks[p as int], ks[q]));
                        lemma_text_lt_transitive(key@, ks[p as int], ks[q]);
                    }
                }
                lemma_insert_sorted(ks, p as int, key@);
            }
            keys.insert(p, key);
            proof {
                let nk = views(keys@);
                assert(nk =~= ks.insert(p as int, key@));
                assert forall|x: Seq<char>| #[trigger]
                    nk.contains(x) <==> texts(families@).take(i + 1).contains(x) by {
                    if nk.contains(x) {
                        let k = choose|k: int| 0 <= k < nk.len() && nk[k] == x;
                        if k < p {
                            assert(ks[k] == x);
                        } else if k > p {
                            assert(ks[k - 1] == x);
                        }
                        if x != key@ {
                            assert(ks.contains(x));
                            assert(done.contains(x));
                            let j = choose|j: int| 0 <= j < i && done[j] == x;
                            assert(done.push(key@)[j] == x);
                        } else {
                            assert(done.push(key@)[i as int] == x);
                        }
                    }
                    if done.push(key@).contains(x) {
                        let j = choose|j: int| 0 <= j < i + 1 && done.push(key@)[j] == x;
                        if j == i {
                            assert(nk[p as int] == x);
                        } else {
                            assert(done[j] == x);
                            assert(done.contains(x));
                            assert(ks.contains(x));
                            let k = choose|k: int| 0 <= k < ks.len() && ks[k] == x;
                            if k < p {
                                assert(nk[k] == x);
                            } else {
                                assert(nk[k + 1] == x);
                            }
                        }
                    }
                }
            }
        }
        i += 1;
    }
    proof {
        assert(texts(families@).take(families.len() as int) =~= texts(families@));
    }
    let mut r: Vec<String> = Vec::new();
    let mut k: usize = 0;
    while k < keys.len()
        invariant
            k <= keys.len(),
            texts(r@) == views(keys@).take(k as int),
        decreases keys.len() - k,
    {
        let name = string_from_chars(keys[k].as_slice());
        proof {
            assert(name@ == views(keys@)[k as int]);
        }
        let ghost before = r@;
        r.push(name);
        proof {
            assert(r@ == before.push(name));
            assert(texts(r@) =~= texts(before).push(name@));
            assert(texts(r@) =~= views(keys@).take(k + 1));
        }
        k += 1;
    }
    proof {
        assert(views(keys@).take(keys.len() as int) =~= views(keys@));
    }
    r
}

} // verus!
