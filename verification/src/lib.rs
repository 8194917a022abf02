//! The logic of the Markpad Markdown editor, verified with Verus: the rewriting of the
//! editor's Markdown dialect (embeds, heading links, block ids, highlights, inline
//! footnotes) before rendering, the reading of VS Code theme packages, the names of the
//! files it writes, the protocol of its atomic saves, and the decisions it takes at start.
pub mod text;
pub mod unicode;
pub mod markdown;
pub mod markdown_laws;
pub mod themes;
pub mod files;
pub mod launch;
pub mod fonts;
pub mod clipboard;
pub mod save;
