//! What holds of the rewriting passes as a whole.
use vstd::prelude::*;

use crate::markdown::{
    apply, block_id_at, code_end, embed_at, fence, footnote_at, heading_link_at, highlight_at,
    block_anchor, lemma_code_end, lemma_rule_at, preprocessed, rule_at, scan, wikilinks_text,
    Pass,
};
use crate::text::{find_char, find_from, has_at, run_end, CharClass};

verus! {

/// None of the characters that can start a code span or one of the dialect's constructs.
pub open spec fn is_plain_char(c: char) -> bool {
    c != '`' && c != '!' && c != '[' && c != '=' && c != '^'
}

pub open spec fn is_plain(s: Seq<char>) -> bool {
    forall|i: int| 0 <= i < s.len() ==> is_plain_char(#[trigger] s[i])
}

/// An inline code span `` `x` `` or a fenced block ```` ```x``` ````, `x` without backticks
/// (and, for the inline form, not empty).
pub open spec fn is_code(c: Seq<char>) -> bool {
    exists|x: Seq<char>|
        {
            &&& forall|i: int| 0 <= i < x.len() ==> #[trigger] x[i] != '`'
            &&& ((x.len() > 0 && c == seq!['`'] + x + seq!['`']) || c == fence() + x + fence())
        }
}

proof fn lemma_plain_no_rule(pass: Pass, s: Seq<char>, i: int, k: nat)
    requires
        is_plain(s),
        0 <= i < s.len(),
    ensures
        code_end(s, i) is None,
        rule_at(pass, s, i, k) is None,
{
    assert(is_plain_char(s[i]));
    if is_white_space_at(s, i) {
        let q = run_end(s, i, CharClass::WhiteSpace);
        crate::text::lemma_run_end(s, i, CharClass::WhiteSpace);
        if q < s.len() {
            assert(is_plain_char(s[q]));
        }
    }
    if has_at(s, i, fence()) {
        assert(s[i + 0] == '`');
    }
    if has_at(s, i, seq!['!', '[', '[']) {
        assert(s[i + 0] == '!');
    }
    if has_at(s, i, seq!['[', '[', '#']) {
        assert(s[i + 0] == '[');
    }
    if has_at(s, i, seq!['=', '=']) {
        assert(s[i + 0] == '=');
    }
    if has_at(s, i, seq!['^', '[']) {
        assert(s[i + 0] == '^');
    }
}

spec fn is_white_space_at(s: Seq<char>, i: int) -> bool {
    crate::text::is_white_space(s[i])
}

proof fn lemma_plain_scan(pass: Pass, s: Seq<char>, i: int, k: nat)
    requires
        is_plain(s),
        0 <= i <= s.len(),
    ensures
        scan(pass, s, i, k) == (s.skip(i), Seq::<char>::empty()),
    decreases s.len() - i,
{
    if i < s.len() {
        lemma_plain_no_rule(pass, s, i, k);
        lemma_plain_scan(pass, s, i + 1, k);
        assert(seq![s[i]] + s.skip(i + 1) =~= s.skip(i));
    } else {
        assert(s.skip(i) =~= Seq::<char>::empty());
    }
}

/// A pass leaves a text in which no construct can start as it is.
pub proof fn lemma_plain_pass_unchanged(pass: Pass, s: Seq<char>)
    requires
        is_plain(s),
    ensures
        apply(pass, s) == s,
{
    lemma_plain_scan(pass, s, 0, 0);
    assert(s.skip(0) + Seq::<char>::empty() =~= s);
}

/// Text that holds none of `` ` ``, `!`, `[`, `=` and `^` comes out of the rewriting
/// passes as it went in.
pub proof fn law_plain_text_unchanged(s: Seq<char>)
    requires
        is_plain(s),
    ensures
        preprocessed(s) == s,
{
    lemma_plain_pass_unchanged(Pass::Embeds, s);
    lemma_plain_pass_unchanged(Pass::HeadingLinks, s);
    lemma_plain_pass_unchanged(Pass::BlockIds, s);
    lemma_plain_pass_unchanged(Pass::Highlights, s);
    lemma_plain_pass_unchanged(Pass::InlineFootnotes, s);
}

// ---------------------------------------------------------------------------
// Every rule looks only at the text from its position on.
// ---------------------------------------------------------------------------

proof fn lemma_shift_has_at(a: Seq<char>, t: Seq<char>, p: Seq<char>, j: int)
    requires
        0 <= j,
    ensures
        has_at(a + t, a.len() + j, p) == has_at(t, j, p),
{
    let s = a + t;
    if has_at(t, j, p) {
        assert forall|k: int| 0 <= k < p.len() implies #[trigger] s[a.len() + j + k] == p[k] by {
            assert(s[a.len() + j + k] == t[j + k]);
        }
    }
    if has_at(s, a.len() + j, p) {
        assert forall|k: int| 0 <= k < p.len() implies #[trigger] t[j + k] == p[k] by {
            assert(s[a.len() + j + k] == t[j + k]);
        }
    }
}

proof fn lemma_shift_find_from(a: Seq<char>, t: Seq<char>, p: Seq<char>, j: int)
    requires
        0 <= j,
    ensures
        find_from(a + t, p, a.len() + j) == (match find_from(t, p, j) {
            Some(x) => Some(x + a.len()),
            None => None,
        }),
    decreases t.len() - j,
{
    if j < t.len() {
        lemma_shift_has_at(a, t, p, j);
        lemma_shift_find_from(a, t, p, j + 1);
    }
}

proof fn lemma_shift_find_char(a: Seq<char>, t: Seq<char>, c: char, j: int)
    requires
        0 <= j,
    ensures
        find_char(a + t, c, a.len() + j) == find_char(t, c, j) + a.len(),
    decreases t.len() - j,
{
    if j < t.len() {
        assert((a + t)[a.len() + j] == t[j]);
        lemma_shift_find_char(a, t, c, j + 1);
    }
}

proof fn lemma_shift_run_end(a: Seq<char>, t: Seq<char>, cls: CharClass, j: int)
    requires
        0 <= j,
    ensures
        run_end(a + t, a.len() + j, cls) == run_end(t, j, cls) + a.len(),
    decreases t.len() - j,
{
    if j < t.len() {
        assert((a + t)[a.len() + j] == t[j]);
        lemma_shift_run_end(a, t, cls, j + 1);
    }
}

proof fn lemma_shift_code_end(a: Seq<char>, t: Seq<char>, j: int)
    requires
        0 <= j < t.len(),
    ensures
        code_end(a + t, a.len() + j) == (match code_end(t, j) {
            Some(x) => Some(x + a.len()),
            None => None,
        }),
{
    lemma_shift_has_at(a, t, fence(), j);
    lemma_shift_find_from(a, t, fence(), j + 3);
    lemma_shift_find_char(a, t, '`', j + 1);
    assert((a + t)[a.len() + j] == t[j]);
}

proof fn lemma_shift_subrange(a: Seq<char>, t: Seq<char>, x: int, y: int)
    requires
        0 <= x <= y <= t.len(),
    ensures
        (a + t).subrange(a.len() + x, a.len() + y) == t.subrange(x, y),
{
    assert((a + t).subrange(a.len() + x, a.len() + y) =~= t.subrange(x, y));
}

proof fn lemma_shift_rule_at(pass: Pass, a: Seq<char>, t: Seq<char>, j: int, k: nat)
    requires
        0 <= j < t.len(),
    ensures
        rule_at(pass, a + t, a.len() + j, k) == (match rule_at(pass, t, j, k) {
            Some((e, r, n)) => Some((e + a.len(), r, n)),
            None => None,
        }),
{
    let s = a + t;
    let i = a.len() + j;
    lemma_rule_at(pass, t, j, k);
    assert(s[i] == t[j]);
    // embeds
    lemma_shift_has_at(a, t, seq!['!', '[', '['], j);
    lemma_shift_find_from(a, t, seq![']', ']'], j + 3);
    crate::markdown_laws::lemma_find_from_bounds(t, seq![']', ']'], j + 3);
    if let Some(x) = find_from(t, seq![']', ']'], j + 3) {
        lemma_shift_subrange(a, t, j + 3, x);
    }
    assert(embed_at(s, i) == (match embed_at(t, j) {
        Some((e, r)) => Some((e + a.len(), r)),
        None => None,
    }));
    // heading links
    lemma_shift_has_at(a, t, seq!['[', '[', '#'], j);
    lemma_shift_run_end(a, t, CharClass::NotPipeOrBracket, j + 3);
    let tt = run_end(t, j + 3, CharClass::NotPipeOrBracket);
    lemma_run_end_ge(t, j + 3, CharClass::NotPipeOrBracket);
    lemma_shift_run_end(a, t, CharClass::NotBracket, tt + 1);
    let uu = run_end(t, tt + 1, CharClass::NotBracket);
    lemma_run_end_ge(t, tt + 1, CharClass::NotBracket);
    lemma_shift_has_at(a, t, seq![']', ']'], uu);
    lemma_shift_has_at(a, t, seq![']', ']'], tt);
    if has_at(t, j, seq!['[', '[', '#']) {
        crate::text::lemma_run_end(t, j + 3, CharClass::NotPipeOrBracket);
        if tt < t.len() {
            assert(s[a.len() + tt] == t[tt]);
            crate::text::lemma_run_end(t, tt + 1, CharClass::NotBracket);
            if uu > tt + 1 {
                lemma_shift_subrange(a, t, tt + 1, uu);
            }
        }
        if tt > j + 3 {
            lemma_shift_subrange(a, t, j + 3, tt);
        }
    }
    assert(heading_link_at(s, i) == (match heading_link_at(t, j) {
        Some((e, r)) => Some((e + a.len(), r)),
        None => None,
    }));
    // block ids
    lemma_shift_run_end(a, t, CharClass::WhiteSpace, j);
    let q = run_end(t, j, CharClass::WhiteSpace);
    lemma_run_end_ge(t, j, CharClass::WhiteSpace);
    lemma_shift_run_end(a, t, CharClass::IdChar, q + 1);
    let r = run_end(t, q + 1, CharClass::IdChar);
    crate::text::lemma_run_end(t, j, CharClass::WhiteSpace);
    if q < t.len() {
        assert(s[a.len() + q] == t[q]);
        crate::text::lemma_run_end(t, q + 1, CharClass::IdChar);
        if r < t.len() {
            assert(s[a.len() + r] == t[r]);
        }
        if r > q + 1 {
            lemma_shift_subrange(a, t, q + 1, r);
        }
    }
    assert(block_id_at(s, i) == (match block_id_at(t, j) {
        Some((e, r)) => Some((e + a.len(), r)),
        None => None,
    }));
    // highlights
    lemma_shift_has_at(a, t, seq!['=', '='], j);
    lemma_shift_run_end(a, t, CharClass::NotEqualsOrNewline, j + 2);
    let h = run_end(t, j + 2, CharClass::NotEqualsOrNewline);
    lemma_run_end_ge(t, j + 2, CharClass::NotEqualsOrNewline);
    lemma_shift_has_at(a, t, seq!['=', '='], h);
    if has_at(t, j, seq!['=', '=']) {
        crate::text::lemma_run_end(t, j + 2, CharClass::NotEqualsOrNewline);
        if h > j + 2 {
            lemma_shift_subrange(a, t, j + 2, h);
        }
    }
    assert(highlight_at(s, i) == (match highlight_at(t, j) {
        Some((e, r)) => Some((e + a.len(), r)),
        None => None,
    }));
    // inline footnotes
    lemma_shift_has_at(a, t, seq!['^', '['], j);
    lemma_shift_run_end(a, t, CharClass::NotBracket, j + 2);
    let f = run_end(t, j + 2, CharClass::NotBracket);
    if has_at(t, j, seq!['^', '[']) {
        crate::text::lemma_run_end(t, j + 2, CharClass::NotBracket);
        if f > j + 2 {
            lemma_shift_subrange(a, t, j + 2, f);
        }
    }
    assert(footnote_at(s, i) == (match footnote_at(t, j) {
        Some((e, r)) => Some((e + a.len(), r)),
        None => None,
    }));
}

proof fn lemma_run_end_ge(s: Seq<char>, from: int, cls: CharClass)
    requires
        0 <= from,
    ensures
        from <= run_end(s, from, cls),
    decreases s.len() - from,
{
    if from < s.len() && crate::text::in_class(cls, s[from]) {
        lemma_run_end_ge(s, from + 1, cls);
    }
}

proof fn lemma_find_from_bounds(s: Seq<char>, p: Seq<char>, from: int)
    requires
        0 <= from,
    ensures
        find_from(s, p, from) matches Some(j) ==> from <= j && j + p.len() <= s.len(),
{
    crate::text::lemma_find_from(s, p, from);
}

proof fn lemma_shift_scan(pass: Pass, a: Seq<char>, t: Seq<char>, j: int, k: nat)
    requires
        0 <= j <= t.len(),
    ensures
        scan(pass, a + t, a.len() + j, k) == scan(pass, t, j, k),
    decreases t.len() - j,
{
    let s = a + t;
    if j < t.len() {
        lemma_shift_code_end(a, t, j);
        lemma_shift_rule_at(pass, a, t, j, k);
        lemma_code_end(t, j);
        lemma_rule_at(pass, t, j, k);
        assert(s[a.len() + j] == t[j]);
        match code_end(t, j) {
            Some(e) => {
                lemma_shift_scan(pass, a, t, e, k);
                lemma_shift_subrange(a, t, j, e);
            },
            None => match rule_at(pass, t, j, k) {
                Some((e, rep, note)) => {
                    lemma_shift_scan(pass, a, t, e, k + 1);
                },
                None => {
                    lemma_shift_scan(pass, a, t, j + 1, k);
                },
            },
        }
    }
}

proof fn lemma_code_end_at_start(c: Seq<char>, t: Seq<char>)
    requires
        is_code(c),
    ensures
        code_end(c + t, 0) == Some(c.len() as int),
{
    let s = c + t;
    let x = choose|x: Seq<char>|
        {
            &&& forall|i: int| 0 <= i < x.len() ==> #[trigger] x[i] != '`'
            &&& ((x.len() > 0 && c == seq!['`'] + x + seq!['`']) || c == fence() + x + fence())
        };
    let xl = x.len() as int;
    if c == fence() + x + fence() {
        assert(has_at(s, 0, fence())) by {
            assert forall|k: int| 0 <= k < 3 implies #[trigger] s[k] == fence()[k] by {
                assert(s[k] == c[k]);
            }
        }
        assert forall|m: int| 3 <= m < 3 + xl implies !has_at(s, m, fence()) by {
            assert(s[m + 0] == x[m - 3]);
        }
        assert(has_at(s, 3 + xl, fence())) by {
            assert forall|k: int| 0 <= k < 3 implies #[trigger] s[3 + xl + k] == fence()[k] by {
                assert(s[3 + xl + k] == c[3 + xl + k]);
            }
        }
        lemma_find_from_first(s, fence(), 3, 3 + xl);
    } else {
        assert(c == seq!['`'] + x + seq!['`']);
        assert(s[0] == '`');
        assert(s[1] == x[0]);
        assert(!has_at(s, 0, fence())) by {
            assert(s[1int] == x[0]);
        }
        assert forall|m: int| 1 <= m < 1 + xl implies s[m] != '`' by {
            assert(s[m] == x[m - 1]);
        }
        assert(s[1 + xl] == '`');
        lemma_find_char_first(s, '`', 1, 1 + xl);
    }
}

proof fn lemma_find_from_first(s: Seq<char>, p: Seq<char>, from: int, j: int)
    requires
        0 <= from <= j < s.len(),
        has_at(s, j, p),
        forall|m: int| from <= m < j ==> !has_at(s, m, p),
    ensures
        find_from(s, p, from) == Some(j),
    decreases j - from,
{
    if from < j {
        lemma_find_from_first(s, p, from + 1, j);
    }
}

proof fn lemma_find_char_first(s: Seq<char>, c: char, from: int, j: int)
    requires
        0 <= from <= j < s.len(),
        s[j] == c,
        forall|m: int| from <= m < j ==> s[m] != c,
    ensures
        find_char(s, c, from) == j,
    decreases j - from,
{
    if from < j {
        lemma_find_char_first(s, c, from + 1, j);
    }
}

/// A pass copies a leading code span or fenced block as it is and goes on with the rest.
pub proof fn lemma_pass_keeps_code(pass: Pass, c: Seq<char>, t: Seq<char>)
    requires
        is_code(c),
    ensures
        apply(pass, c + t) == c + apply(pass, t),
{
    let s = c + t;
    lemma_code_end_at_start(c, t);
    assert(c.len() > 0) by {
        let x = choose|x: Seq<char>|
            {
                &&& forall|i: int| 0 <= i < x.len() ==> #[trigger] x[i] != '`'
                &&& ((x.len() > 0 && c == seq!['`'] + x + seq!['`']) || c == fence() + x
                    + fence())
            };
        if c == fence() + x + fence() {
            assert(c.len() == x.len() + 6);
        }
    }
    lemma_shift_scan(pass, c, t, 0, 0);
    assert(s.subrange(0, c.len() as int) =~= c);
    assert(apply(pass, s) =~= c + apply(pass, t));
}

/// Inline code and fenced code are left as they are: a document that starts with a code
/// span or a fenced block (its code without backticks) renders that code verbatim, and the
/// rest as if it stood alone.
pub proof fn law_code_kept_verbatim(c: Seq<char>, t: Seq<char>)
    requires
        is_code(c),
    ensures
        preprocessed(c + t) == c + preprocessed(t),
{
    lemma_pass_keeps_code(Pass::Embeds, c, t);
    let t1 = apply(Pass::Embeds, t);
    lemma_pass_keeps_code(Pass::HeadingLinks, c, t1);
    let t2 = apply(Pass::HeadingLinks, t1);
    lemma_pass_keeps_code(Pass::BlockIds, c, t2);
    let t3 = apply(Pass::BlockIds, t2);
    lemma_pass_keeps_code(Pass::Highlights, c, t3);
    let t4 = apply(Pass::Highlights, t3);
    lemma_pass_keeps_code(Pass::InlineFootnotes, c, t4);
}

// ---------------------------------------------------------------------------
// Block ids.
// ---------------------------------------------------------------------------

/// The characters of a block id: ASCII letters, digits, `_` and `-`.
pub open spec fn is_block_id_char(c: char) -> bool {
    ('a' <= c && c <= 'z') || ('A' <= c && c <= 'Z') || ('0' <= c && c <= '9') || c == '_'
        || c == '-'
}

/// The characters that a block id may hold are exactly the ASCII letters, the digits,
/// `_` and `-`.
pub proof fn law_block_id_characters(c: char)
    ensures
        crate::text::in_class(CharClass::IdChar, c) <==> (('a' <= c && c <= 'z') || ('A' <= c
            && c <= 'Z') || ('0' <= c && c <= '9') || c == '_' || c == '-'),
{
}

/// No backtick, caret or bracket, and every `=` followed by `"`: text in which the highlight,
/// footnote, heading link and code rules find nothing.
spec fn is_inert(t: Seq<char>) -> bool {
    forall|j: int|
        0 <= j < t.len() ==> {
            &&& #[trigger] t[j] != '`'
            &&& t[j] != '^'
            &&& t[j] != '['
            &&& (t[j] == '=' ==> j + 1 < t.len() && t[j + 1] == '"')
        }
}

proof fn lemma_inert_concat(a: Seq<char>, b: Seq<char>)
    requires
        is_inert(a),
        is_inert(b),
    ensures
        is_inert(a + b),
{
    let s = a + b;
    assert forall|j: int| 0 <= j < s.len() implies {
        &&& #[trigger] s[j] != '`'
        &&& s[j] != '^'
        &&& s[j] != '['
        &&& (s[j] == '=' ==> j + 1 < s.len() && s[j + 1] == '"')
    } by {
        if j < a.len() {
            assert(s[j] == a[j]);
            if a[j] == '=' {
                assert(s[j + 1] == a[j + 1]);
            }
        } else {
            assert(s[j] == b[j - a.len()]);
            if b[j - a.len()] == '=' {
                assert(s[j + 1] == b[j - a.len() + 1]);
            }
        }
    }
}

proof fn lemma_anchor_inert(id: Seq<char>)
    requires
        forall|k: int| 0 <= k < id.len() ==> is_block_id_char(#[trigger] id[k]),
    ensures
        is_inert(block_anchor(id)),
{
    reveal_strlit(" <a id=\"");
    reveal_strlit("\" class=\"block-id-anchor\" data-label=\"");
    reveal_strlit("\"></a>");
    let l1 = " <a id=\""@;
    let l2 = "\" class=\"block-id-anchor\" data-label=\""@;
    let l3 = "\"></a>"@;
    assert(is_inert(l1));
    assert(is_inert(l2));
    assert(is_inert(l3));
    assert(is_inert(id));
    lemma_inert_concat(l1, id);
    lemma_inert_concat(l1 + id, l2);
    lemma_inert_concat(l1 + id + l2, id);
    lemma_inert_concat(l1 + id + l2 + id, l3);
}

proof fn lemma_scan_quiet(pass: Pass, s: Seq<char>, i: int, m: int, k: nat)
    requires
        0 <= i <= m <= s.len(),
        forall|j: int|
            i <= j < m ==> #[trigger] code_end(s, j) is None && rule_at(pass, s, j, k) is None,
    ensures
        scan(pass, s, i, k) == (s.subrange(i, m) + scan(pass, s, m, k).0, scan(pass, s, m, k).1),
    decreases m - i,
{
    if i < m {
        assert(code_end(s, i) is None && rule_at(pass, s, i, k) is None);
        lemma_scan_quiet(pass, s, i + 1, m, k);
        assert(seq![s[i]] + s.subrange(i + 1, m) =~= s.subrange(i, m));
    } else {
        assert(s.subrange(i, m) =~= Seq::<char>::empty());
    }
}

proof fn lemma_apply_quiet(pass: Pass, s: Seq<char>)
    requires
        forall|j: int|
            0 <= j < s.len() ==> #[trigger] code_end(s, j) is None && rule_at(pass, s, j, 0)
                is None,
    ensures
        apply(pass, s) == s,
{
    lemma_scan_quiet(pass, s, 0, s.len() as int, 0);
    assert(s.subrange(0, s.len() as int) =~= s);
    assert(apply(pass, s) =~= s);
}

proof fn lemma_no_tick_no_code(s: Seq<char>, j: int)
    requires
        0 <= j < s.len(),
        s[j] != '`',
    ensures
        code_end(s, j) is None,
{
    if has_at(s, j, fence()) {
        assert(s[j + 0] == fence()[0]);
    }
}

proof fn lemma_run_end_stops(s: Seq<char>, from: int, m: int, cls: CharClass)
    requires
        0 <= from <= m < s.len(),
        !crate::text::in_class(cls, s[m]),
    ensures
        run_end(s, from, cls) <= m,
    decreases m - from,
{
    if from < m && crate::text::in_class(cls, s[from]) {
        lemma_run_end_stops(s, from + 1, m, cls);
    }
}

proof fn lemma_run_end_all(s: Seq<char>, from: int, cls: CharClass)
    requires
        0 <= from <= s.len(),
        forall|k: int| from <= k < s.len() ==> crate::text::in_class(cls, #[trigger] s[k]),
    ensures
        run_end(s, from, cls) == s.len(),
    decreases s.len() - from,
{
    if from < s.len() {
        lemma_run_end_all(s, from + 1, cls);
    }
}

proof fn lemma_inert_quiet(pass: Pass, t: Seq<char>)
    requires
        is_inert(t),
        pass == Pass::Highlights || pass == Pass::InlineFootnotes,
    ensures
        apply(pass, t) == t,
{
    assert forall|j: int| 0 <= j < t.len() implies #[trigger] code_end(t, j) is None && rule_at(
        pass,
        t,
        j,
        0,
    ) is None by {
        assert(t[j] != '`');
        lemma_no_tick_no_code(t, j);
        if has_at(t, j, seq!['=', '=']) {
            assert(t[j + 0] == '=');
            assert(t[j + 1] == '=');
        }
        if has_at(t, j, seq!['^', '[']) {
            assert(t[j + 0] == '^');
        }
    }
    lemma_apply_quiet(pass, t);
}

/// The text `p ^id` of the block id law, and its characters.
spec fn block_id_text_ok(p: Seq<char>, id: Seq<char>, s: Seq<char>) -> bool {
    &&& s == p + seq![' ', '^'] + id
    &&& is_plain(p)
    &&& p.len() == 0 || !crate::text::is_white_space(p.last())
    &&& id.len() > 0
    &&& forall|k: int| 0 <= k < id.len() ==> is_block_id_char(#[trigger] id[k])
}

proof fn lemma_block_id_text_chars(p: Seq<char>, id: Seq<char>, s: Seq<char>)
    requires
        block_id_text_ok(p, id, s),
    ensures
        forall|j: int|
            0 <= j < s.len() ==> {
                &&& #[trigger] s[j] != '`'
                &&& s[j] != '['
                &&& (j < p.len() ==> s[j] == p[j] && is_plain_char(s[j]))
                &&& (j == p.len() ==> s[j] == ' ')
                &&& (j == p.len() + 1 ==> s[j] == '^')
                &&& (j >= p.len() + 2 ==> is_block_id_char(s[j]))
            },
{
    let n = p.len() as int;
    assert forall|j: int| 0 <= j < s.len() implies {
        &&& #[trigger] s[j] != '`'
        &&& s[j] != '['
        &&& (j < p.len() ==> s[j] == p[j] && is_plain_char(s[j]))
        &&& (j == p.len() ==> s[j] == ' ')
        &&& (j == p.len() + 1 ==> s[j] == '^')
        &&& (j >= p.len() + 2 ==> is_block_id_char(s[j]))
    } by {
        if j < n {
            assert(s[j] == p[j]);
            assert(is_plain_char(p[j]));
        } else if j == n {
            assert(s[j] == ' ');
        } else if j == n + 1 {
            assert(s[j] == '^');
        } else {
            assert(s[j] == id[j - n - 2]);
        }
    }
}

proof fn lemma_block_id_heading_links(p: Seq<char>, id: Seq<char>, s: Seq<char>)
    requires
        block_id_text_ok(p, id, s),
    ensures
        apply(Pass::HeadingLinks, s) == s,
{
    lemma_block_id_text_chars(p, id, s);
    assert forall|j: int| 0 <= j < s.len() implies #[trigger] code_end(s, j) is None && rule_at(
        Pass::HeadingLinks,
        s,
        j,
        0,
    ) is None by {
        assert(s[j] != '`' && s[j] != '[');
        lemma_no_tick_no_code(s, j);
        if has_at(s, j, seq!['[', '[', '#']) {
            assert(s[j + 0] == '[');
        }
    }
    lemma_apply_quiet(Pass::HeadingLinks, s);
}

proof fn lemma_block_id_prefix_quiet(p: Seq<char>, id: Seq<char>, s: Seq<char>, j: int)
    requires
        block_id_text_ok(p, id, s),
        0 <= j < p.len(),
    ensures
        code_end(s, j) is None,
        block_id_at(s, j) is None,
{
    let n = p.len() as int;
    lemma_block_id_text_chars(p, id, s);
    assert(s[j] != '`');
    lemma_no_tick_no_code(s, j);
    if crate::text::is_white_space(s[j]) {
        assert(s[n - 1] == p.last());
        lemma_run_end_stops(s, j, n - 1, CharClass::WhiteSpace);
        crate::text::lemma_run_end(s, j, CharClass::WhiteSpace);
        let q = run_end(s, j, CharClass::WhiteSpace);
        assert(is_plain_char(s[q]));
    }
}

proof fn lemma_block_id_anchor_at_end(p: Seq<char>, id: Seq<char>, s: Seq<char>)
    requires
        block_id_text_ok(p, id, s),
    ensures
        code_end(s, p.len() as int) is None,
        block_id_at(s, p.len() as int) == Some((s.len() as int, block_anchor(id))),
{
    let n = p.len() as int;
    lemma_block_id_text_chars(p, id, s);
    assert(s[n] == ' ' && s[n + 1] == '^');
    lemma_no_tick_no_code(s, n);
    assert(run_end(s, n + 1, CharClass::WhiteSpace) == n + 1);
    assert(run_end(s, n, CharClass::WhiteSpace) == n + 1);
    assert forall|k: int| n + 2 <= k < s.len() implies crate::text::in_class(
        CharClass::IdChar,
        #[trigger] s[k],
    ) by {
        assert(is_block_id_char(s[k]));
    }
    lemma_run_end_all(s, n + 2, CharClass::IdChar);
    assert(s.subrange(n + 2, s.len() as int) =~= id);
}

proof fn lemma_block_id_pass(p: Seq<char>, id: Seq<char>, s: Seq<char>)
    requires
        block_id_text_ok(p, id, s),
    ensures
        apply(Pass::BlockIds, s) == p + block_anchor(id),
{
    let n = p.len() as int;
    assert forall|j: int| 0 <= j < n implies #[trigger] code_end(s, j) is None && rule_at(
        Pass::BlockIds,
        s,
        j,
        0,
    ) is None by {
        lemma_block_id_prefix_quiet(p, id, s, j);
    }
    lemma_scan_quiet(Pass::BlockIds, s, 0, n, 0);
    lemma_block_id_anchor_at_end(p, id, s);
    let anchor = block_anchor(id);
    assert(rule_at(Pass::BlockIds, s, n, 0) == Some((s.len() as int, anchor, Seq::<char>::empty())));
    assert(scan(Pass::BlockIds, s, s.len() as int, 1) == (
        Seq::<char>::empty(),
        Seq::<char>::empty(),
    ));
    let e = Seq::<char>::empty();
    assert(scan(Pass::BlockIds, s, n, 0) == (anchor + e, e + e));
    assert(s.subrange(0, n) =~= p);
    assert(apply(Pass::BlockIds, s) =~= p + anchor);
}

/// A block id at the end of a paragraph becomes its anchor: for any text `p` in which no
/// construct or code starts and that does not end in white space, and any non-empty id of
/// ASCII letters, digits, `_` and `-`, the wiki-link passes turn `p ^id` into `p` followed by
/// ` <a id="id" class="block-id-anchor" data-label="id"></a>`.
pub proof fn law_trailing_block_id_becomes_anchor(p: Seq<char>, id: Seq<char>)
    requires
        is_plain(p),
        p.len() == 0 || !crate::text::is_white_space(p.last()),
        id.len() > 0,
        forall|k: int|
            0 <= k < id.len() ==> ('a' <= #[trigger] id[k] && id[k] <= 'z') || ('A' <= id[k]
                && id[k] <= 'Z') || ('0' <= id[k] && id[k] <= '9') || id[k] == '_' || id[k]
                == '-',
    ensures
        wikilinks_text(p + seq![' ', '^'] + id) == p + " <a id=\""@ + id
            + "\" class=\"block-id-anchor\" data-label=\""@ + id + "\"></a>"@,
{
    let s = p + seq![' ', '^'] + id;
    assert forall|k: int| 0 <= k < id.len() implies is_block_id_char(#[trigger] id[k]) by {}
    assert(block_id_text_ok(p, id, s));
    lemma_block_id_heading_links(p, id, s);
    lemma_block_id_pass(p, id, s);
    let anchor = block_anchor(id);
    let t = p + anchor;
    assert(is_inert(p)) by {
        assert forall|j: int| 0 <= j < p.len() implies {
            &&& #[trigger] p[j] != '`'
            &&& p[j] != '^'
            &&& p[j] != '['
            &&& (p[j] == '=' ==> j + 1 < p.len() && p[j + 1] == '"')
        } by {
            assert(is_plain_char(p[j]));
        }
    }
    lemma_anchor_inert(id);
    lemma_inert_concat(p, anchor);
    lemma_inert_quiet(Pass::Highlights, t);
    lemma_inert_quiet(Pass::InlineFootnotes, t);
    assert(t =~= p + " <a id=\""@ + id + "\" class=\"block-id-anchor\" data-label=\""@ + id
        + "\"></a>"@);
}

} // verus!
