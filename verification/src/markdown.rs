//! The Markdown dialect of the editor: the rewriting passes that turn its extensions
//! (embeds, heading links, block ids, highlights, inline footnotes) into plain
//! CommonMark/HTML before the document is rendered.
//!
//! Every pass reads the text left to right. At each position it first looks for a
//! fenced code block (three backticks, up to the next three backticks) or an inline code
//! span (a backtick, up to the next backtick); such code is copied unchanged. Otherwise it
//! tries the pass's own construct; failing that it copies one character and moves on.
use vstd::prelude::*;

use crate::text::{
    after_char, after_char_exec, before_char, before_char_exec, chars_of, copy_range, decimal,
    find_char, find_char_exec, find_from, find_from_exec, flat_map_chars, has_at, has_at_exec,
    has_char, has_char_exec, is_white_space, lemma_find_char, lemma_find_from,
    lemma_run_end, push_decimal, push_range, push_str, run_end, run_end_exec, string_from_chars,
    white_space_exec, CharClass,
};
use crate::unicode::{lowercase, to_lowercase};
use vstd::utf8::{decode_utf8, valid_utf8};

verus! {

/// The rewriting passes, in the order in which they run.
#[derive(Clone, Copy, PartialEq, Eq, Debug)]
pub enum Pass {
    /// `![[path|size]]` becomes an `<img>` element.
    Embeds,
    /// `[[#target|alias]]` becomes a link to the heading `target`.
    HeadingLinks,
    /// A ` ^block-id` at the end of a line becomes an anchor.
    BlockIds,
    /// `==text==` becomes `<mark>text</mark>`.
    Highlights,
    /// `^[note]` becomes a numbered footnote reference; the notes go to the end.
    InlineFootnotes,
}

pub open spec fn fence() -> Seq<char> {
    seq!['`', '`', '`']
}

/// Where the code span or fenced block that starts at `i` ends, if one does.
pub open spec fn code_end(s: Seq<char>, i: int) -> Option<int> {
    if has_at(s, i, fence()) && find_from(s, fence(), i + 3) is Some {
        Some(find_from(s, fence(), i + 3)->0 + 3)
    } else if 0 <= i < s.len() && s[i] == '`' && find_char(s, '`', i + 1) < s.len() {
        Some(find_char(s, '`', i + 1) + 1)
    } else {
        None
    }
}

/// `s` with every space written as `%20`.
pub open spec fn escape_spaces(s: Seq<char>) -> Seq<char> {
    flat_map_chars(s, |c: char| if c == ' ' { seq!['%', '2', '0'] } else { seq![c] })
}

/// `s` with every space written as `-`.
pub open spec fn dash_spaces(s: Seq<char>) -> Seq<char> {
    flat_map_chars(s, |c: char| if c == ' ' { seq!['-'] } else { seq![c] })
}

/// The `<img>` element for the inside of an embed, `path`, `path|width` or
/// `path|widthxheight`.
pub open spec fn embed_html(inner: Seq<char>) -> Seq<char> {
    let path = before_char(inner, '|');
    let src = escape_spaces(path);
    if has_char(inner, '|') {
        let size = before_char(after_char(inner, '|'), '|');
        if has_char(size, 'x') {
            let width = before_char(size, 'x');
            let height = before_char(after_char(size, 'x'), 'x');
            "<img src=\""@ + src + "\" width=\""@ + width + "\" height=\""@ + height
                + "\" alt=\""@ + path + "\" />"@
        } else {
            "<img src=\""@ + src + "\" width=\""@ + size + "\" alt=\""@ + path + "\" />"@
        }
    } else {
        "<img src=\""@ + src + "\" alt=\""@ + path + "\" />"@
    }
}

/// The Markdown link for a heading link: the anchor is the lowercased target with its
/// spaces written as dashes.
pub open spec fn heading_link(target: Seq<char>, alias: Seq<char>) -> Seq<char> {
    "["@ + alias + "](#"@ + dash_spaces(lowercase(target)) + ")"@
}

/// The anchor that stands for a block id.
pub open spec fn block_anchor(id: Seq<char>) -> Seq<char> {
    " <a id=\""@ + id + "\" class=\"block-id-anchor\" data-label=\""@ + id + "\"></a>"@
}

/// The label of the `n`-th inline footnote.
pub open spec fn footnote_label(n: nat) -> Seq<char> {
    "ifn-"@ + decimal(n)
}

/// An embed `![[inner]]` at `i`: its end and replacement.
pub open spec fn embed_at(s: Seq<char>, i: int) -> Option<(int, Seq<char>)> {
    if has_at(s, i, seq!['!', '[', '[']) {
        match find_from(s, seq![']', ']'], i + 3) {
            Some(j) => Some((j + 2, embed_html(s.subrange(i + 3, j)))),
            None => None,
        }
    } else {
        None
    }
}

/// A heading link `[[#target]]` or `[[#target|alias]]` at `i`: its end and replacement.
/// The target holds neither `|` nor `]`; the alias holds no `]`.
pub open spec fn heading_link_at(s: Seq<char>, i: int) -> Option<(int, Seq<char>)> {
    if has_at(s, i, seq!['[', '[', '#']) {
        let t = run_end(s, i + 3, CharClass::NotPipeOrBracket);
        let u = run_end(s, t + 1, CharClass::NotBracket);
        if t > i + 3 && t < s.len() && s[t] == '|' && u > t + 1 && has_at(s, u, seq![']', ']']) {
            Some((u + 2, heading_link(s.subrange(i + 3, t), s.subrange(t + 1, u))))
        } else if t > i + 3 && has_at(s, t, seq![']', ']']) {
            Some((t + 2, heading_link(s.subrange(i + 3, t), s.subrange(i + 3, t))))
        } else {
            None
        }
    } else {
        None
    }
}

/// A block id at `i`: white space, `^`, and an id of letters, digits, `_` and `-` that
/// ends the line. Its end and replacement.
pub open spec fn block_id_at(s: Seq<char>, i: int) -> Option<(int, Seq<char>)> {
    if 0 <= i < s.len() && is_white_space(s[i]) {
        let q = run_end(s, i, CharClass::WhiteSpace);
        let r = run_end(s, q + 1, CharClass::IdChar);
        if q < s.len() && s[q] == '^' && r > q + 1 && (r == s.len() || s[r] == '\n') {
            Some((r, block_anchor(s.subrange(q + 1, r))))
        } else {
            None
        }
    } else {
        None
    }
}

/// A highlight `==text==` at `i`, the text on one line and without `=`: its end and
/// replacement.
pub open spec fn highlight_at(s: Seq<char>, i: int) -> Option<(int, Seq<char>)> {
    if has_at(s, i, seq!['=', '=']) {
        let t = run_end(s, i + 2, CharClass::NotEqualsOrNewline);
        if t > i + 2 && has_at(s, t, seq!['=', '=']) {
            Some((t + 2, "<mark>"@ + s.subrange(i + 2, t) + "</mark>"@))
        } else {
            None
        }
    } else {
        None
    }
}

/// An inline footnote `^[note]` at `i`, the note without `]`: its end and the note.
pub open spec fn footnote_at(s: Seq<char>, i: int) -> Option<(int, Seq<char>)> {
    if has_at(s, i, seq!['^', '[']) {
        let t = run_end(s, i + 2, CharClass::NotBracket);
        if t > i + 2 && t < s.len() {
            Some((t + 1, s.subrange(i + 2, t)))
        } else {
            None
        }
    } else {
        None
    }
}

/// The construct of `pass` at `i`, when `k` of them came before: its end, what replaces
/// it, and what it adds to the end of the document.
pub open spec fn rule_at(pass: Pass, s: Seq<char>, i: int, k: nat) -> Option<
    (int, Seq<char>, Seq<char>),
> {
    match pass {
        Pass::Embeds => match embed_at(s, i) {
            Some((e, r)) => Some((e, r, Seq::empty())),
            None => None,
        },
        Pass::HeadingLinks => match heading_link_at(s, i) {
            Some((e, r)) => Some((e, r, Seq::empty())),
            None => None,
        },
        Pass::BlockIds => match block_id_at(s, i) {
            Some((e, r)) => Some((e, r, Seq::empty())),
            None => None,
        },
        Pass::Highlights => match highlight_at(s, i) {
            Some((e, r)) => Some((e, r, Seq::empty())),
            None => None,
        },
        Pass::InlineFootnotes => match footnote_at(s, i) {
            Some((e, note)) => Some(
                (
                    e,
                    "[^"@ + footnote_label(k + 1) + "]"@,
                    "\n[^"@ + footnote_label(k + 1) + "]: "@ + note + "\n"@,
                ),
            ),
            None => None,
        },
    }
}

pub proof fn lemma_code_end(s: Seq<char>, i: int)
    requires
        0 <= i < s.len(),
    ensures
        code_end(s, i) matches Some(e) ==> i < e <= s.len(),
{
    lemma_find_from(s, fence(), i + 3);
    lemma_find_char(s, '`', i + 1);
}

pub proof fn lemma_rule_at(pass: Pass, s: Seq<char>, i: int, k: nat)
    requires
        0 <= i < s.len(),
    ensures
        rule_at(pass, s, i, k) matches Some((e, _, _)) ==> i < e <= s.len(),
{
    if has_at(s, i, seq!['!', '[', '[']) {
        lemma_find_from(s, seq![']', ']'], i + 3);
    }
    if has_at(s, i, seq!['[', '[', '#']) {
        lemma_run_end(s, i + 3, CharClass::NotPipeOrBracket);
        let t = run_end(s, i + 3, CharClass::NotPipeOrBracket);
        if t < s.len() {
            lemma_run_end(s, t + 1, CharClass::NotBracket);
        }
    }
    if is_white_space(s[i]) {
        lemma_run_end(s, i, CharClass::WhiteSpace);
        let q = run_end(s, i, CharClass::WhiteSpace);
        if q < s.len() {
            lemma_run_end(s, q + 1, CharClass::IdChar);
        }
    }
    if has_at(s, i, seq!['=', '=']) {
        lemma_run_end(s, i + 2, CharClass::NotEqualsOrNewline);
    }
    if has_at(s, i, seq!['^', '[']) {
        lemma_run_end(s, i + 2, CharClass::NotBracket);
    }
}

/// The output of `pass` on `s` from position `i` on, when `k` of its constructs came
/// before: the rewritten text, and what goes to the end of the document.
pub open spec fn scan(pass: Pass, s: Seq<char>, i: int, k: nat) -> (Seq<char>, Seq<char>)
    decreases s.len() - i,
{
    if i < 0 || i >= s.len() {
        (Seq::empty(), Seq::empty())
    } else {
        proof {
            lemma_code_end(s, i);
            lemma_rule_at(pass, s, i, k);
        }
        match code_end(s, i) {
            Some(e) => {
                let rest = scan(pass, s, e, k);
                (s.subrange(i, e) + rest.0, rest.1)
            },
            None => match rule_at(pass, s, i, k) {
                Some((e, rep, note)) => {
                    let rest = scan(pass, s, e, k + 1);
                    (rep + rest.0, note + rest.1)
                },
                None => {
                    let rest = scan(pass, s, i + 1, k);
                    (seq![s[i]] + rest.0, rest.1)
                },
            },
        }
    }
}

/// The document after `pass`.
pub open spec fn apply(pass: Pass, s: Seq<char>) -> Seq<char> {
    scan(pass, s, 0, 0).0 + scan(pass, s, 0, 0).1
}

/// The document after the four wiki-link passes.
pub open spec fn wikilinks_text(s: Seq<char>) -> Seq<char> {
    apply(
        Pass::InlineFootnotes,
        apply(Pass::Highlights, apply(Pass::BlockIds, apply(Pass::HeadingLinks, s))),
    )
}

/// The document after all passes: what is handed to the Markdown renderer.
pub open spec fn preprocessed(s: Seq<char>) -> Seq<char> {
    wikilinks_text(apply(Pass::Embeds, s))
}

// ---------------------------------------------------------------------------
// Executable passes.
// ---------------------------------------------------------------------------

fn fence_chars() -> (r: [char; 3])
    ensures
        r@ == fence(),
{
    let r = ['`', '`', '`'];
    assert(r@ =~= fence());
    r
}

/// Where the code span or fenced block at `i` ends, if one starts there.
fn code_end_exec(s: &Vec<char>, i: usize) -> (r: Option<usize>)
    requires
        i < s.len(),
    ensures
        r matches Some(e) ==> code_end(s@, i as int) == Some(e as int),
        r is None ==> code_end(s@, i as int) is None,
{
    let f = fence_chars();
    if has_at_exec(s, i, &f) {
        if let Some(j) = find_from_exec(s, &f, i + 3) {
            proof {
                lemma_find_from(s@, fence(), i + 3);
            }
            return Some(j + 3);
        }
    }
    if s[i] == '`' {
        let j = find_char_exec(s, '`', i + 1);
        if j < s.len() {
            return Some(j + 1);
        }
    }
    None
}

/// Appends `s` with its spaces written as `%20`.
fn push_escape_spaces(out: &mut Vec<char>, s: &Vec<char>)
    ensures
        final(out)@ == old(out)@ + escape_spaces(s@),
{
    let ghost start = out@;
    let mut i: usize = 0;
    while i < s.len()
        invariant
            i <= s.len(),
            out@ == start + escape_spaces(s@.take(i as int)),
        decreases s.len() - i,
    {
        proof {
            assert(s@.take(i + 1).drop_last() =~= s@.take(i as int));
        }
        if s[i] == ' ' {
            out.push('%');
            out.push('2');
            out.push('0');
        } else {
            out.push(s[i]);
        }
        i += 1;
        proof {
            assert(out@ =~= start + escape_spaces(s@.take(i as int)));
        }
    }
    proof {
        assert(s@.take(s.len() as int) =~= s@);
    }
}

/// Appends `s` with its spaces written as dashes.
fn push_dash_spaces(out: &mut Vec<char>, s: &Vec<char>)
    ensures
        final(out)@ == old(out)@ + dash_spaces(s@),
{
    let ghost start = out@;
    let mut i: usize = 0;
    while i < s.len()
        invariant
            i <= s.len(),
            out@ == start + dash_spaces(s@.take(i as int)),
        decreases s.len() - i,
    {
        proof {
            assert(s@.take(i + 1).drop_last() =~= s@.take(i as int));
        }
        if s[i] == ' ' {
            out.push('-');
        } else {
            out.push(s[i]);
        }
        i += 1;
        proof {
            assert(out@ =~= start + dash_spaces(s@.take(i as int)));
        }
    }
    proof {
        assert(s@.take(s.len() as int) =~= s@);
    }
}

/// Appends all of `v` to `out`.
fn push_all(out: &mut Vec<char>, v: Vec<char>)
    ensures
        final(out)@ == old(out)@ + v@,
{
    let mut v = v;
    out.append(&mut v);
}

fn embed_html_exec(inner: &Vec<char>) -> (r: Vec<char>)
    ensures
        r@ == embed_html(inner@),
{
    let path = before_char_exec(inner, '|');
    let mut out: Vec<char> = Vec::new();
    push_str(&mut out, "<img src=\"");
    push_escape_spaces(&mut out, &path);
    if has_char_exec(inner, '|') {
        let rest = after_char_exec(inner, '|');
        let size = before_char_exec(&rest, '|');
        if has_char_exec(&size, 'x') {
            let width = before_char_exec(&size, 'x');
            let rest2 = after_char_exec(&size, 'x');
            let height = before_char_exec(&rest2, 'x');
            push_str(&mut out, "\" width=\"");
            push_all(&mut out, width);
            push_str(&mut out, "\" height=\"");
            push_all(&mut out, height);
            push_str(&mut out, "\" alt=\"");
            push_all(&mut out, path);
            push_str(&mut out, "\" />");
        } else {
            push_str(&mut out, "\" width=\"");
            push_all(&mut out, size);
            push_str(&mut out, "\" alt=\"");
            push_all(&mut out, path);
            push_str(&mut out, "\" />");
        }
    } else {
        push_str(&mut out, "\" alt=\"");
        push_all(&mut out, path);
        push_str(&mut out, "\" />");
    }
    proof {
        assert(out@ =~= embed_html(inner@));
    }
    out
}

fn embed_exec(s: &Vec<char>, i: usize) -> (r: Option<(usize, Vec<char>)>)
    requires
        i < s.len(),
    ensures
        r matches Some((e, rep)) ==> embed_at(s@, i as int) == Some((e as int, rep@)),
        r is None ==> embed_at(s@, i as int) is None,
{
    let open = ['!', '[', '['];
    let close = [']', ']'];
    assert(open@ =~= seq!['!', '[', '[']);
    assert(close@ =~= seq![']', ']']);
    if has_at_exec(s, i, &open) {
        match find_from_exec(s, &close, i + 3) {
            Some(j) => {
                proof {
                    lemma_find_from(s@, close@, i + 3);
                }
                let inner = copy_range(s, i + 3, j);
                Some((j + 2, embed_html_exec(&inner)))
            },
            None => None,
        }
    } else {
        None
    }
}

/// The link for a heading link with the given target and alias.
fn heading_link_exec(target: Vec<char>, alias: Vec<char>) -> (r: Vec<char>)
    ensures
        r@ == heading_link(target@, alias@),
{
    let target_text = string_from_chars(target.as_slice());
    let lower = to_lowercase(target_text.as_str());
    let lower_chars = chars_of(lower.as_str());
    let mut out: Vec<char> = Vec::new();
    push_str(&mut out, "[");
    push_all(&mut out, alias);
    push_str(&mut out, "](#");
    push_dash_spaces(&mut out, &lower_chars);
    push_str(&mut out, ")");
    proof {
        assert(out@ =~= heading_link(target@, alias@));
    }
    out
}

fn heading_link_at_exec(s: &Vec<char>, i: usize) -> (r: Option<(usize, Vec<char>)>)
    requires
        i < s.len(),
    ensures
        r matches Some((e, rep)) ==> heading_link_at(s@, i as int) == Some((e as int, rep@)),
        r is None ==> heading_link_at(s@, i as int) is None,
{
    let open = ['[', '[', '#'];
    let close = [']', ']'];
    assert(open@ =~= seq!['[', '[', '#']);
    assert(close@ =~= seq![']', ']']);
    if !has_at_exec(s, i, &open) {
        return None;
    }
    let t = run_end_exec(s, i + 3, CharClass::NotPipeOrBracket);
    proof {
        lemma_run_end(s@, i + 3, CharClass::NotPipeOrBracket);
    }
    if t > i + 3 && t < s.len() && s[t] == '|' {
        let u = run_end_exec(s, t + 1, CharClass::NotBracket);
        proof {
            lemma_run_end(s@, t + 1, CharClass::NotBracket);
        }
        if u > t + 1 && has_at_exec(s, u, &close) {
            let target = copy_range(s, i + 3, t);
            let alias = copy_range(s, t + 1, u);
            return Some((u + 2, heading_link_exec(target, alias)));
        }
    }
    if t > i + 3 && has_at_exec(s, t, &close) {
        let target = copy_range(s, i + 3, t);
        let alias = copy_range(s, i + 3, t);
        return Some((t + 2, heading_link_exec(target, alias)));
    }
    None
}

fn block_id_at_exec(s: &Vec<char>, i: usize) -> (r: Option<(usize, Vec<char>)>)
    requires
        i < s.len(),
    ensures
        r matches Some((e, rep)) ==> block_id_at(s@, i as int) == Some((e as int, rep@)),
        r is None ==> block_id_at(s@, i as int) is None,
{
    if !white_space_exec(s[i]) {
        return None;
    }
    let q = run_end_exec(s, i, CharClass::WhiteSpace);
    proof {
        lemma_run_end(s@, i as int, CharClass::WhiteSpace);
    }
    if q < s.len() && s[q] == '^' {
        let r = run_end_exec(s, q + 1, CharClass::IdChar);
        proof {
            lemma_run_end(s@, q + 1, CharClass::IdChar);
        }
        if r > q + 1 && (r == s.len() || s[r] == '\n') {
            let id = copy_range(s, q + 1, r);
            let mut out: Vec<char> = Vec::new();
            push_str(&mut out, " <a id=\"");
            push_range(&mut out, s, q + 1, r);
            push_str(&mut out, "\" class=\"block-id-anchor\" data-label=\"");
            push_all(&mut out, id);
            push_str(&mut out, "\"></a>");
            proof {
                assert(out@ =~= block_anchor(s@.subrange(q + 1, r as int)));
            }
            return Some((r, out));
        }
    }
    None
}

fn highlight_at_exec(s: &Vec<char>, i: usize) -> (r: Option<(usize, Vec<char>)>)
    requires
        i < s.len(),
    ensures
        r matches Some((e, rep)) ==> highlight_at(s@, i as int) == Some((e as int, rep@)),
        r is None ==> highlight_at(s@, i as int) is None,
{
    let eq = ['=', '='];
    assert(eq@ =~= seq!['=', '=']);
    if !has_at_exec(s, i, &eq) {
        return None;
    }
    let t = run_end_exec(s, i + 2, CharClass::NotEqualsOrNewline);
    proof {
        lemma_run_end(s@, i + 2, CharClass::NotEqualsOrNewline);
    }
    if t > i + 2 && has_at_exec(s, t, &eq) {
        let mut out: Vec<char> = Vec::new();
        push_str(&mut out, "<mark>");
        push_range(&mut out, s, i + 2, t);
        push_str(&mut out, "</mark>");
        return Some((t + 2, out));
    }
    None
}

fn footnote_at_exec(s: &Vec<char>, i: usize) -> (r: Option<(usize, Vec<char>)>)
    requires
        i < s.len(),
    ensures
        r matches Some((e, note)) ==> footnote_at(s@, i as int) == Some((e as int, note@)),
        r is None ==> footnote_at(s@, i as int) is None,
{
    let open = ['^', '['];
    assert(open@ =~= seq!['^', '[']);
    if !has_at_exec(s, i, &open) {
        return None;
    }
    let t = run_end_exec(s, i + 2, CharClass::NotBracket);
    proof {
        lemma_run_end(s@, i + 2, CharClass::NotBracket);
    }
    if t > i + 2 && t < s.len() {
        return Some((t + 1, copy_range(s, i + 2, t)));
    }
    None
}

/// Appends the label of the `n`-th inline footnote.
fn push_footnote_label(out: &mut Vec<char>, n: usize)
    ensures
        final(out)@ == old(out)@ + footnote_label(n as nat),
{
    let ghost start = out@;
    push_str(out, "ifn-");
    push_decimal(out, n as u128);
    proof {
        assert(out@ =~= start + footnote_label(n as nat));
    }
}

fn rule_at_exec(pass: Pass, s: &Vec<char>, i: usize, k: usize) -> (r: Option<
    (usize, Vec<char>, Vec<char>),
>)
    requires
        i < s.len(),
        k < usize::MAX,
    ensures
        r matches Some((e, rep, note)) ==> rule_at(pass, s@, i as int, k as nat) == Some(
            (e as int, rep@, note@),
        ),
        r is None ==> rule_at(pass, s@, i as int, k as nat) is None,
{
    match pass {
        Pass::Embeds => match embed_exec(s, i) {
            Some((e, rep)) => Some((e, rep, Vec::new())),
            None => None,
        },
        Pass::HeadingLinks => match heading_link_at_exec(s, i) {
            Some((e, rep)) => Some((e, rep, Vec::new())),
            None => None,
        },
        Pass::BlockIds => match block_id_at_exec(s, i) {
            Some((e, rep)) => Some((e, rep, Vec::new())),
            None => None,
        },
        Pass::Highlights => match highlight_at_exec(s, i) {
            Some((e, rep)) => Some((e, rep, Vec::new())),
            None => None,
        },
        Pass::InlineFootnotes => match footnote_at_exec(s, i) {
            Some((e, note)) => {
                let mut rep: Vec<char> = Vec::new();
                push_str(&mut rep, "[^");
                push_footnote_label(&mut rep, k + 1);
                push_str(&mut rep, "]");
                let mut def: Vec<char> = Vec::new();
                push_str(&mut def, "\n[^");
                push_footnote_label(&mut def, k + 1);
                push_str(&mut def, "]: ");
                push_all(&mut def, note);
                push_str(&mut def, "\n");
                proof {
                    assert(rep@ =~= "[^"@ + footnote_label((k + 1) as nat) + "]"@);
                }
                Some((e, rep, def))
            },
            None => None,
        },
    }
}

/// Runs one pass over a document.
pub fn apply_pass(pass: Pass, s: &Vec<char>) -> (out: Vec<char>)
    ensures
        out@ == apply(pass, s@),
{
    let mut out: Vec<char> = Vec::new();
    let mut notes: Vec<char> = Vec::new();
    let mut i: usize = 0;
    let mut k: usize = 0;
    while i < s.len()
        invariant
            i <= s.len(),
            k <= i,
            scan(pass, s@, 0, 0).0 == out@ + scan(pass, s@, i as int, k as nat).0,
            scan(pass, s@, 0, 0).1 == notes@ + scan(pass, s@, i as int, k as nat).1,
        decreases s.len() - i,
    {
        let ghost i0 = i as int;
        let ghost k0 = k as nat;
        let ghost out0 = out@;
        let ghost notes0 = notes@;
        proof {
            lemma_code_end(s@, i0);
            lemma_rule_at(pass, s@, i0, k0);
        }
        match code_end_exec(s, i) {
            Some(e) => {
                push_range(&mut out, s, i, e);
                i = e;
                proof {
                    assert(out@ + scan(pass, s@, i as int, k as nat).0 =~= out0 + scan(
                        pass,
                        s@,
                        i0,
                        k0,
                    ).0);
                }
            },
            None => match rule_at_exec(pass, s, i, k) {
                Some((e, rep, note)) => {
                    push_all(&mut out, rep);
                    push_all(&mut notes, note);
                    i = e;
                    k = k + 1;
                    proof {
                        assert(out@ + scan(pass, s@, i as int, k as nat).0 =~= out0 + scan(
                            pass,
                            s@,
                            i0,
                            k0,
                        ).0);
                        assert(notes@ + scan(pass, s@, i as int, k as nat).1 =~= notes0 + scan(
                            pass,
                            s@,
                            i0,
                            k0,
                        ).1);
                    }
                },
                None => {
                    out.push(s[i]);
                    i = i + 1;
                    proof {
                        assert(out@ + scan(pass, s@, i as int, k as nat).0 =~= out0 + scan(
                            pass,
                            s@,
                            i0,
                            k0,
                        ).0);
                    }
                },
            },
        }
    }
    push_all(&mut out, notes);
    out
}

/// Runs one pass over a document held as a string.
fn apply_pass_str(pass: Pass, content: &str) -> (r: String)
    ensures
        r@ == apply(pass, content@),
{
    let s = chars_of(content);
    let out = apply_pass(pass, &s);
    string_from_chars(out.as_slice())
}

/// Turns every embed `![[path]]`, `![[path|width]]` or `![[path|widthxheight]]` outside
/// code into an `<img>` element.
pub fn process_internal_embeds(content: &str) -> (r: String)
    ensures
        r@ == apply(Pass::Embeds, content@),
{
    apply_pass_str(Pass::Embeds, content)
}

/// Rewrites heading links, block ids, highlights and inline footnotes, in that order,
/// outside code.
pub fn process_wikilinks(content: &str) -> (r: String)
    ensures
        r@ == wikilinks_text(content@),
{
    let s = chars_of(content);
    let a = apply_pass(Pass::HeadingLinks, &s);
    let b = apply_pass(Pass::BlockIds, &a);
    let c = apply_pass(Pass::Highlights, &b);
    let d = apply_pass(Pass::InlineFootnotes, &c);
    string_from_chars(d.as_slice())
}

/// All rewriting passes: what the renderer is given for a document.
pub fn preprocess_markdown(content: &str) -> (r: String)
    ensures
        r@ == preprocessed(content@),
{
    let embeds = process_internal_embeds(content);
    process_wikilinks(embeds.as_str())
}

/// What `String::from_utf8_lossy` gives for a byte string: its UTF-8 decoding, with
/// U+FFFD in place of each ill-formed sequence.
pub uninterp spec fn lossy_utf8(bytes: Seq<u8>) -> Seq<char>;

/// Calls `String::from_utf8_lossy`. Trusted: the text depends on the bytes alone, and
/// well-formed UTF-8 decodes to the characters it encodes; how ill-formed input is
/// replaced is not stated.
#[verifier::external_body]
fn from_utf8_lossy(bytes: &[u8]) -> (s: String)
    ensures
        s@ == lossy_utf8(bytes@),
        valid_utf8(bytes@) ==> s@ == decode_utf8(bytes@),
{
    String::from_utf8_lossy(bytes).into_owned()
}

/// Whether a file of `file_len` bytes is shown whole under a preview limit of `max_bytes`.
pub fn preview_is_whole(file_len: u64, max_bytes: usize) -> (b: bool)
    ensures
        b == (file_len as int <= max_bytes as int),
{
    file_len as u128 <= max_bytes as u128
}

/// The text of a preview cut to the first bytes of a document: their UTF-8 decoding,
/// with U+FFFD for a character cut in half or any other ill-formed sequence.
pub fn preview_text(prefix: &[u8]) -> (r: String)
    ensures
        r@ == lossy_utf8(prefix@),
        valid_utf8(prefix@) ==> r@ == decode_utf8(prefix@),
{
    from_utf8_lossy(prefix)
}

} // verus!
