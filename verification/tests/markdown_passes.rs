use markpad::markdown::{
    preprocess_markdown, preview_is_whole, preview_text, process_internal_embeds,
    process_wikilinks,
};
use regex::{Captures, Regex};

// Reference rewriting written with the `regex` crate, to compare the scanners against.

struct Patterns {
    embeds: Regex,
    links: Regex,
    ids: Regex,
    highlight: Regex,
    inline_fn: Regex,
}

fn patterns() -> Patterns {
    Patterns {
        embeds: Regex::new(r"(?s)```.*?```|`.*?`|!\[\[(.*?)\]\]").unwrap(),
        links: Regex::new(r"(?s)```.*?```|`.*?`|\[\[#([^\|\]]+)(?:\|([^\]]+))?\]\]").unwrap(),
        ids: Regex::new(r"(?s)```.*?```|`.*?`|(?m)\s+\^([a-zA-Z0-9_-]+)$").unwrap(),
        highlight: Regex::new(r"(?s)```.*?```|`.*?`|==([^=\n]+)==").unwrap(),
        inline_fn: Regex::new(r"(?s)```.*?```|`.*?`|\^\[([^\]]+)\]").unwrap(),
    }
}

fn regex_embeds(p: &Patterns, content: &str) -> String {
    p.embeds.replace_all(content, |caps: &Captures| {
        let full_match = caps.get(0).unwrap().as_str();
        if full_match.starts_with('`') {
            return full_match.to_string();
        }
        let inner = caps.get(1).map(|m| m.as_str()).unwrap_or("");
        let mut parts = inner.split('|');
        let path = parts.next().unwrap_or("");
        let size = parts.next();
        let path_escaped = path.replace(" ", "%20");
        if let Some(size_str) = size {
            if size_str.contains('x') {
                let mut dims = size_str.split('x');
                let width = dims.next().unwrap_or("");
                let height = dims.next().unwrap_or("");
                format!(
                    "<img src=\"{}\" width=\"{}\" height=\"{}\" alt=\"{}\" />",
                    path_escaped, width, height, path
                )
            } else {
                format!("<img src=\"{}\" width=\"{}\" alt=\"{}\" />", path_escaped, size_str, path)
            }
        } else {
            format!("<img src=\"{}\" alt=\"{}\" />", path_escaped, path)
        }
    })
    .into_owned()
}

fn regex_wikilinks(p: &Patterns, content: &str) -> String {
    let processed = p.links
        .replace_all(content, |caps: &Captures| {
            let full_match = caps.get(0).unwrap().as_str();
            if full_match.starts_with('`') {
                return full_match.to_string();
            }
            let target = caps.get(1).map(|m| m.as_str()).unwrap_or("");
            let alias = caps.get(2).map(|m| m.as_str()).unwrap_or(target);
            let target_id = target.to_lowercase().replace(' ', "-");
            format!("[{}](#{})", alias, target_id)
        })
        .into_owned();
    let processed = p.ids
        .replace_all(&processed, |caps: &Captures| {
            let full_match = caps.get(0).unwrap().as_str();
            if full_match.starts_with('`') {
                return full_match.to_string();
            }
            let id = caps.get(1).map(|m| m.as_str()).unwrap_or("");
            format!(" <a id=\"{}\" class=\"block-id-anchor\" data-label=\"{}\"></a>", id, id)
        })
        .into_owned();
    let processed = p.highlight
        .replace_all(&processed, |caps: &Captures| {
            let full_match = caps.get(0).unwrap().as_str();
            if full_match.starts_with('`') {
                return full_match.to_string();
            }
            format!("<mark>{}</mark>", caps.get(1).unwrap().as_str())
        })
        .into_owned();
    let mut footnote_defs = String::new();
    let mut fn_count = 0usize;
    let replaced = p.inline_fn.replace_all(&processed, |caps: &Captures| {
        let full_match = caps.get(0).unwrap().as_str();
        if full_match.starts_with('`') {
            return full_match.to_string();
        }
        fn_count += 1;
        let label = format!("ifn-{}", fn_count);
        footnote_defs.push_str(&format!("\n[^{}]: {}\n", label, caps.get(1).unwrap().as_str()));
        format!("[^{}]", label)
    });
    let mut out = replaced.into_owned();
    out.push_str(&footnote_defs);
    out
}

/// A small deterministic generator of texts made of the characters that matter to the
/// passes.
struct Texts {
    state: u64,
}

impl Texts {
    fn next_u32(&mut self) -> u32 {
        self.state = self.state.wrapping_mul(6364136223846793005).wrapping_add(1442695040888963407);
        (self.state >> 33) as u32
    }

    fn text(&mut self, max_len: u32) -> String {
        const PIECES: &[&str] = &[
            "`", "```", "!", "[", "]", "[[", "]]", "![[", "[[#", "#", "|", "=", "==", "^", "^[",
            "x", " ", "\n", "\t", "\r", "\u{a0}", "\u{2003}", "a", "B", "1", "_", "-", "é",
            "Ä", "Σ", "ab cd", "%", "\\", "/", "?", ".", "*",
        ];
        let len = self.next_u32() % (max_len + 1);
        let mut s = String::new();
        for _ in 0..len {
            let k = (self.next_u32() as usize) % PIECES.len();
            s.push_str(PIECES[k]);
        }
        s
    }
}

#[test]
fn embeds_agree_with_regex_rewriting() {
    let p = patterns();
    let mut g = Texts { state: 7 };
    for _ in 0..3000 {
        let t = g.text(24);
        assert_eq!(process_internal_embeds(&t), regex_embeds(&p, &t), "input {:?}", t);
    }
}

#[test]
fn wikilinks_agree_with_regex_rewriting() {
    let p = patterns();
    let mut g = Texts { state: 11 };
    for _ in 0..3000 {
        let t = g.text(24);
        assert_eq!(process_wikilinks(&t), regex_wikilinks(&p, &t), "input {:?}", t);
    }
}

#[test]
fn preprocessing_agrees_with_regex_rewriting() {
    let p = patterns();
    let mut g = Texts { state: 13 };
    for _ in 0..2000 {
        let t = g.text(32);
        assert_eq!(
            preprocess_markdown(&t),
            regex_wikilinks(&p, &regex_embeds(&p, &t)),
            "input {:?}",
            t
        );
    }
}

#[test]
fn embed_plain() {
    assert_eq!(process_internal_embeds("see ![[cat.png]] here"), "see <img src=\"cat.png\" alt=\"cat.png\" /> here");
}

#[test]
fn embed_with_width() {
    assert_eq!(
        process_internal_embeds("![[my cat.png|300]]"),
        "<img src=\"my%20cat.png\" width=\"300\" alt=\"my cat.png\" />"
    );
}

#[test]
fn embed_with_width_and_height() {
    assert_eq!(
        process_internal_embeds("![[a b.png|100x200]]"),
        "<img src=\"a%20b.png\" width=\"100\" height=\"200\" alt=\"a b.png\" />"
    );
}

#[test]
fn embed_inside_code_is_kept() {
    assert_eq!(process_internal_embeds("`![[a.png]]`"), "`![[a.png]]`");
    assert_eq!(process_internal_embeds("```\n![[a.png]]\n```"), "```\n![[a.png]]\n```");
}

#[test]
fn embed_without_close_is_kept() {
    assert_eq!(process_internal_embeds("![[a.png"), "![[a.png");
}

#[test]
fn heading_link_with_alias() {
    assert_eq!(process_wikilinks("[[#My Heading|see here]]"), "[see here](#my-heading)");
}

#[test]
fn heading_link_without_alias() {
    assert_eq!(process_wikilinks("[[#Intro Part]]"), "[Intro Part](#intro-part)");
}

#[test]
fn block_id_at_end_of_line() {
    assert_eq!(
        process_wikilinks("A paragraph ^para-1\nnext"),
        "A paragraph <a id=\"para-1\" class=\"block-id-anchor\" data-label=\"para-1\"></a>\nnext"
    );
}

#[test]
fn block_id_not_at_end_of_line_is_kept() {
    assert_eq!(process_wikilinks("a ^id more"), "a ^id more");
}

#[test]
fn highlight() {
    assert_eq!(process_wikilinks("a ==b c== d"), "a <mark>b c</mark> d");
}

#[test]
fn highlight_across_lines_is_kept() {
    assert_eq!(process_wikilinks("==a\nb=="), "==a\nb==");
}

#[test]
fn inline_footnotes_are_numbered_and_appended() {
    assert_eq!(
        process_wikilinks("One^[first] two^[second]."),
        "One[^ifn-1] two[^ifn-2].\n[^ifn-1]: first\n\n[^ifn-2]: second\n"
    );
}

#[test]
fn footnote_in_code_is_kept() {
    assert_eq!(process_wikilinks("`x^[y]`"), "`x^[y]`");
}

#[test]
fn plain_text_is_unchanged() {
    let t = "Just some words, with punctuation: (a) and {b}.\nSecond line";
    assert_eq!(preprocess_markdown(t), t);
}

#[test]
fn code_span_then_text() {
    // A leading code span is kept and the rest is rewritten as if alone.
    let rest = "==hi== ^[n]";
    assert_eq!(
        preprocess_markdown(&format!("`code ==x==`{}", rest)),
        format!("`code ==x==`{}", preprocess_markdown(rest))
    );
}

#[test]
fn preview_whole_when_small_enough() {
    assert!(preview_is_whole(10, 10));
    assert!(!preview_is_whole(11, 10));
    assert!(preview_is_whole(0, 0));
}

#[test]
fn preview_text_replaces_cut_character() {
    // "é" is two bytes; cutting after the first leaves an ill-formed sequence.
    assert_eq!(preview_text(&[b'a', 0xC3]), "a\u{FFFD}");
    assert_eq!(preview_text("héllo".as_bytes()), "héllo");
}
