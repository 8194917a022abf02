//! Editor color themes taken from VS Code extensions: the theme page address, the
//! extension package to download, the choice of a theme among those the package
//! declares, and the reading of the package's files.
use std::io::Cursor;
use vstd::prelude::*;
use zip::ZipArchive;

use crate::text::{
    before_char, before_char_exec, chars_of, contains_exec, contains_seq, copy_range,
    flat_map_chars, has_at, has_at_exec, push_str, same_text, split_exec, split_on,
    string_from_chars,
    views,
};
use crate::unicode::{alphanumeric, is_alphanumeric, lowercase, to_lowercase};

verus! {

// ---------------------------------------------------------------------------
// The theme page address.
// ---------------------------------------------------------------------------

/// What a theme page address names: the extension's publisher and name, and the theme.
pub struct ThemeSource {
    pub publisher: String,
    pub extension: String,
    pub theme_name: String,
}

/// The publisher, extension and theme name that a theme page address
/// (`https://vscodethemes.com/e/<publisher>.<extension>/<theme>?...`) names, or the error.
pub open spec fn theme_source(url: Seq<char>) -> Result<
    (Seq<char>, Seq<char>, Seq<char>),
    Seq<char>,
> {
    let parts = split_on(url, '/');
    if parts.len() < 5 || parts[3] != seq!['e'] {
        Err("Invalid vscodethemes.com URL"@)
    } else {
        let name_part = if parts.len() > 5 {
            parts[5]
        } else {
            Seq::<char>::empty()
        };
        let pe = split_on(parts[4], '.');
        if pe.len() != 2 {
            Err("Invalid extension format in URL"@)
        } else {
            Ok((pe[0], pe[1], before_char(name_part, '?')))
        }
    }
}

/// Reads a theme page address.
pub fn parse_theme_url(url: &str) -> (r: Result<ThemeSource, String>)
    ensures
        r matches Ok(t) ==> theme_source(url@) == Ok::<_, Seq<char>>(
            (t.publisher@, t.extension@, t.theme_name@),
        ),
        r matches Err(e) ==> theme_source(url@) == Err::<(Seq<char>, Seq<char>, Seq<char>), _>(
            e@,
        ),
{
    let u = chars_of(url);
    let parts = split_exec(&u, '/');
    proof {
        assert(views(parts@).len() == parts@.len());
    }
    if parts.len() < 5 {
        return Err(invalid_url_message());
    }
    let p3 = &parts[3];
    proof {
        assert(views(parts@)[3] == p3@);
    }
    if !(p3.len() == 1 && p3[0] == 'e') {
        proof {
            if p3@ == seq!['e'] {
                assert(p3@[0] == 'e');
            }
        }
        return Err(invalid_url_message());
    }
    proof {
        assert(p3@ =~= seq!['e']);
    }
    let name_part: Vec<char> = if parts.len() > 5 {
        proof {
            assert(views(parts@)[5] == parts@[5]@);
        }
        copy_range(&parts[5], 0, parts[5].len())
    } else {
        Vec::new()
    };
    let pe = split_exec(&parts[4], '.');
    proof {
        assert(views(parts@)[4] == parts@[4]@);
        assert(views(pe@).len() == pe@.len());
    }
    if pe.len() != 2 {
        return Err(invalid_extension_message());
    }
    proof {
        assert(views(pe@)[0] == pe@[0]@);
        assert(views(pe@)[1] == pe@[1]@);
        assert(name_part@ =~= (if parts@.len() > 5 {
            views(parts@)[5]
        } else {
            Seq::<char>::empty()
        }));
    }
    let theme_name = before_char_exec(&name_part, '?');
    Ok(
        ThemeSource {
            publisher: string_from_chars(pe[0].as_slice()),
            extension: string_from_chars(pe[1].as_slice()),
            theme_name: string_from_chars(theme_name.as_slice()),
        },
    )
}

fn invalid_url_message() -> (r: String)
    ensures
        r@ == "Invalid vscodethemes.com URL"@,
{
    let mut v: Vec<char> = Vec::new();
    push_str(&mut v, "Invalid vscodethemes.com URL");
    string_from_chars(v.as_slice())
}

fn invalid_extension_message() -> (r: String)
    ensures
        r@ == "Invalid extension format in URL"@,
{
    let mut v: Vec<char> = Vec::new();
    push_str(&mut v, "Invalid extension format in URL");
    string_from_chars(v.as_slice())
}

/// The address of the latest package of an extension on the VS Code marketplace.
pub open spec fn vsix_address(publisher: Seq<char>, extension: Seq<char>) -> Seq<char> {
    "https://"@ + publisher + ".gallery.vsassets.io/_apis/public/gallery/publisher/"@
        + publisher + "/extension/"@ + extension
        + "/latest/assetbyname/Microsoft.VisualStudio.Services.VSIXPackage"@
}

/// The address from which the package of an extension is downloaded.
pub fn vsix_url(publisher: &str, extension: &str) -> (r: String)
    ensures
        r@ == vsix_address(publisher@, extension@),
{
    let mut v: Vec<char> = Vec::new();
    push_str(&mut v, "https://");
    push_str(&mut v, publisher);
    push_str(&mut v, ".gallery.vsassets.io/_apis/public/gallery/publisher/");
    push_str(&mut v, publisher);
    push_str(&mut v, "/extension/");
    push_str(&mut v, extension);
    push_str(&mut v, "/latest/assetbyname/Microsoft.VisualStudio.Services.VSIXPackage");
    proof {
        assert(v@ =~= vsix_address(publisher@, extension@));
    }
    string_from_chars(v.as_slice())
}

// ---------------------------------------------------------------------------
// Choosing a theme among those an extension declares.
// ---------------------------------------------------------------------------

/// What a key of a JSON object holds, as far as theme selection reads it.
pub enum JsonText {
    /// The key is absent (or the value is not an object).
    Missing,
    /// The key holds a string.
    Text(String),
    /// The key holds something other than a string.
    Other,
}

/// One element of `contributes.themes` in an extension's `package.json`.
pub struct ThemeEntry {
    pub label: JsonText,
    pub id: JsonText,
    pub path: JsonText,
}

/// The chosen theme: the path of its file in the package, and the name under which it is
/// saved.
pub struct ThemeChoice {
    pub archive_path: String,
    pub dest_name: String,
}

pub open spec fn text_or_empty(v: JsonText) -> Seq<char> {
    match v {
        JsonText::Text(s) => s@,
        _ => Seq::empty(),
    }
}

/// The label of a theme: its `label`, or its `id` when it has no `label`.
pub open spec fn entry_label(e: ThemeEntry) -> Seq<char> {
    match e.label {
        JsonText::Missing => text_or_empty(e.id),
        JsonText::Text(s) => s@,
        JsonText::Other => Seq::empty(),
    }
}

/// The label as it appears in theme page addresses: lowercased, with every character that
/// is not alphanumeric written as `-`.
pub open spec fn label_slug(label: Seq<char>) -> Seq<char> {
    flat_map_chars(
        lowercase(label),
        |c: char|
            if alphanumeric(c) {
                seq![c]
            } else {
                seq!['-']
            },
    )
}

/// A theme answers to `name` when the name is empty, when its label's slug is the
/// lowercased name, or when its lowercased path contains the lowercased name.
pub open spec fn entry_matches(e: ThemeEntry, name: Seq<char>) -> bool {
    ||| name.len() == 0
    ||| label_slug(entry_label(e)) == lowercase(name)
    ||| contains_seq(lowercase(text_or_empty(e.path)), lowercase(name))
}

/// The first theme at or after `from` that answers to `name`.
pub open spec fn first_match(es: Seq<ThemeEntry>, name: Seq<char>, from: int) -> Option<int>
    decreases es.len() - from,
{
    if from < 0 || from >= es.len() {
        None
    } else if entry_matches(es[from], name) {
        Some(from)
    } else {
        first_match(es, name, from + 1)
    }
}

/// The path in the package of a theme file that the manifest names as `path`.
pub open spec fn archive_path(path: Seq<char>) -> Seq<char> {
    let rel = if has_at(path, 0, seq!['.', '/']) {
        path.skip(2)
    } else {
        path
    };
    "extension/"@ + flat_map_chars(
        rel,
        |c: char|
            if c == '\\' {
                seq!['/']
            } else {
                seq![c]
            },
    )
}

/// The theme chosen for `name` among the themes of a manifest (`None` when the manifest
/// declares no theme list): its path in the package and the name it is saved under, or
/// the error.
pub open spec fn theme_choice(themes: Option<Seq<ThemeEntry>>, name: Seq<char>) -> Result<
    (Seq<char>, Seq<char>),
    Seq<char>,
> {
    match themes {
        None => Err("No themes found in extension"@),
        Some(es) => match first_match(es, name, 0) {
            None => Err("Theme name not found in extension"@),
            Some(i) => {
                let matched = if name.len() == 0 {
                    label_slug(entry_label(es[i]))
                } else {
                    name
                };
                let dest = if matched.len() == 0 {
                    "downloaded_theme"@
                } else {
                    matched
                };
                Ok((archive_path(text_or_empty(es[i].path)), dest))
            },
        },
    }
}

fn text_or_empty_exec(v: &JsonText) -> (r: &str)
    ensures
        r@ == text_or_empty(*v),
{
    match v {
        JsonText::Text(s) => s.as_str(),
        _ => {
            proof {
                reveal_strlit("");
            }
            ""
        },
    }
}

fn entry_label_exec(e: &ThemeEntry) -> (r: &str)
    ensures
        r@ == entry_label(*e),
{
    match &e.label {
        JsonText::Missing => text_or_empty_exec(&e.id),
        JsonText::Text(s) => s.as_str(),
        JsonText::Other => {
            proof {
                reveal_strlit("");
            }
            ""
        },
    }
}

fn lowercase_chars(s: &str) -> (r: Vec<char>)
    ensures
        r@ == lowercase(s@),
{
    let lower = to_lowercase(s);
    chars_of(lower.as_str())
}

fn label_slug_exec(label: &str) -> (r: Vec<char>)
    ensures
        r@ == label_slug(label@),
{
    let lower = lowercase_chars(label);
    let mut out: Vec<char> = Vec::new();
    let mut i: usize = 0;
    while i < lower.len()
        invariant
            i <= lower.len(),
            lower@ == lowercase(label@),
            out@ == flat_map_chars(
                lower@.take(i as int),
                |c: char|
                    if alphanumeric(c) {
                        seq![c]
                    } else {
                        seq!['-']
                    },
            ),
        decreases lower.len() - i,
    {
        proof {
            assert(lower@.take(i + 1).drop_last() =~= lower@.take(i as int));
        }
        if is_alphanumeric(lower[i]) {
            out.push(lower[i]);
        } else {
            out.push('-');
        }
        i += 1;
    }
    proof {
        assert(lower@.take(lower.len() as int) =~= lower@);
    }
    out
}

fn entry_matches_exec(e: &ThemeEntry, name: &str, lower_name: &Vec<char>) -> (r: bool)
    requires
        lower_name@ == lowercase(name@),
    ensures
        r == entry_matches(*e, name@),
{
    if name.is_empty() {
        return true;
    }
    let slug = label_slug_exec(entry_label_exec(e));
    if same_text(&slug, lower_name) {
        return true;
    }
    let lower_path = lowercase_chars(text_or_empty_exec(&e.path));
    contains_exec(&lower_path, lower_name)
}

fn archive_path_exec(path: &str) -> (r: String)
    ensures
        r@ == archive_path(path@),
{
    let p = chars_of(path);
    let dot_slash = ['.', '/'];
    assert(dot_slash@ =~= seq!['.', '/']);
    let rel = if has_at_exec(&p, 0, &dot_slash) {
        copy_range(&p, 2, p.len())
    } else {
        copy_range(&p, 0, p.len())
    };
    proof {
        if has_at(p@, 0, seq!['.', '/']) {
            assert(rel@ =~= p@.skip(2));
        } else {
            assert(rel@ =~= p@);
        }
    }
    let mut out: Vec<char> = Vec::new();
    push_str(&mut out, "extension/");
    let ghost head = out@;
    let mut i: usize = 0;
    while i < rel.len()
        invariant
            i <= rel.len(),
            out@ == head + flat_map_chars(
                rel@.take(i as int),
                |c: char|
                    if c == '\\' {
                        seq!['/']
                    } else {
                        seq![c]
                    },
            ),
        decreases rel.len() - i,
    {
        proof {
            assert(rel@.take(i + 1).drop_last() =~= rel@.take(i as int));
        }
        if rel[i] == '\\' {
            out.push('/');
        } else {
            out.push(rel[i]);
        }
        i += 1;
        proof {
            assert(out@ =~= head + flat_map_chars(
                rel@.take(i as int),
                |c: char|
                    if c == '\\' {
                        seq!['/']
                    } else {
                        seq![c]
                    },
            ));
        }
    }
    proof {
        assert(rel@.take(rel.len() as int) =~= rel@);
    }
    string_from_chars(out.as_slice())
}

fn message(text: &str) -> (r: String)
    ensures
        r@ == text@,
{
    let mut v: Vec<char> = Vec::new();
    push_str(&mut v, text);
    string_from_chars(v.as_slice())
}

/// The texts of a theme list, if there is one.
pub open spec fn themes_view(themes: Option<Vec<ThemeEntry>>) -> Option<Seq<ThemeEntry>> {
    match themes {
        Some(es) => Some(es@),
        None => None,
    }
}

/// The outcome of a theme choice, as texts.
pub open spec fn choice_view(r: Result<ThemeChoice, String>) -> Result<
    (Seq<char>, Seq<char>),
    Seq<char>,
> {
    match r {
        Ok(c) => Ok((c.archive_path@, c.dest_name@)),
        Err(e) => Err(e@),
    }
}

/// Chooses the theme to install among the themes of an extension's manifest.
pub fn select_theme(themes: &Option<Vec<ThemeEntry>>, theme_name: &str) -> (r: Result<
    ThemeChoice,
    String,
>)
    ensures
        choice_view(r) == theme_choice(themes_view(*themes), theme_name@),
{
    match themes {
        None => Err(message("No themes found in extension")),
        Some(es) => select_among(es, theme_name),
    }
}

fn select_among(es: &Vec<ThemeEntry>, theme_name: &str) -> (r: Result<ThemeChoice, String>)
    ensures
        choice_view(r) == theme_choice(Some(es@), theme_name@),
{
    let lower_name = lowercase_chars(theme_name);
    let mut i: usize = 0;
    while i < es.len()
        invariant
            i <= es.len(),
            lower_name@ == lowercase(theme_name@),
            first_match(es@, theme_name@, 0) == first_match(es@, theme_name@, i as int),
        decreases es.len() - i,
    {
        if entry_matches_exec(&es[i], theme_name, &lower_name) {
            let e = &es[i];
            let matched: Vec<char> = if theme_name.is_empty() {
                label_slug_exec(entry_label_exec(e))
            } else {
                chars_of(theme_name)
            };
            let dest = if matched.len() == 0 {
                message("downloaded_theme")
            } else {
                string_from_chars(matched.as_slice())
            };
            let path = archive_path_exec(text_or_empty_exec(&e.path));
            proof {
                assert(first_match(es@, theme_name@, i as int) == Some(i as int));
            }
            return Ok(ThemeChoice { archive_path: path, dest_name: dest });
        }
        i += 1;
    }
    Err(message("Theme name not found in extension"))
}

/// With an empty theme name the first theme of the list is taken, saved under its label's
/// slug (or as `downloaded_theme` when the slug is empty).
pub proof fn law_empty_name_takes_first(es: Seq<ThemeEntry>)
    requires
        es.len() > 0,
    ensures
        theme_choice(Some(es), Seq::empty()) == Ok::<_, Seq<char>>(
            (
                archive_path(text_or_empty(es[0].path)),
                if label_slug(entry_label(es[0])).len() == 0 {
                    "downloaded_theme"@
                } else {
                    label_slug(entry_label(es[0]))
                },
            ),
        ),
{
    assert(entry_matches(es[0], Seq::empty()));
    assert(first_match(es, Seq::empty(), 0) == Some(0int));
}

proof fn lemma_first_match(es: Seq<ThemeEntry>, name: Seq<char>, from: int)
    requires
        0 <= from,
    ensures
        match first_match(es, name, from) {
            Some(i) => from <= i < es.len() && entry_matches(es[i], name) && forall|k: int|
                from <= k < i ==> !entry_matches(#[trigger] es[k], name),
            None => forall|k: int| from <= k < es.len() ==> !entry_matches(#[trigger] es[k], name),
        },
    decreases es.len() - from,
{
    if from < es.len() && !entry_matches(es[from], name) {
        lemma_first_match(es, name, from + 1);
    }
}

/// With a theme name, the theme chosen is the first of the manifest, in its order, that
/// answers to the name (its label's slug is the lowercased name, or its lowercased path
/// contains the lowercased name); it is saved under the name as given; and there is a
/// choice exactly when some theme answers.
pub proof fn law_named_theme_is_first_match(es: Seq<ThemeEntry>, name: Seq<char>)
    requires
        name.len() > 0,
    ensures
        theme_choice(Some(es), name) is Ok <==> exists|i: int|
            0 <= i < es.len() && (label_slug(entry_label(#[trigger] es[i])) == lowercase(name)
                || contains_seq(lowercase(text_or_empty(es[i].path)), lowercase(name))),
        theme_choice(Some(es), name) matches Ok((p, d)) ==> d == name && exists|i: int|
            0 <= i < es.len() && (label_slug(entry_label(#[trigger] es[i])) == lowercase(name)
                || contains_seq(lowercase(text_or_empty(es[i].path)), lowercase(name))) && (
            forall|k: int|
                0 <= k < i ==> !(label_slug(entry_label(#[trigger] es[k])) == lowercase(name)
                    || contains_seq(lowercase(text_or_empty(es[k].path)), lowercase(name))))
                && p == archive_path(text_or_empty(es[i].path)),
{
    lemma_first_match(es, name, 0);
    if let Some(i) = first_match(es, name, 0) {
        assert(entry_matches(es[i], name));
    } else {
        assert forall|i: int| 0 <= i < es.len() implies !(label_slug(
            entry_label(#[trigger] es[i]),
        ) == lowercase(name) || contains_seq(lowercase(text_or_empty(es[i].path)), lowercase(name))) by {
            assert(!entry_matches(es[i], name));
        }
    }
}

/// The file name under which a theme is saved.
pub fn theme_file_name(name: &str) -> (r: String)
    ensures
        r@ == name@ + ".json"@,
{
    let mut v: Vec<char> = Vec::new();
    push_str(&mut v, name);
    push_str(&mut v, ".json");
    string_from_chars(v.as_slice())
}

/// The index of the last `.` in a file name, or `-1` when there is none.
pub open spec fn last_dot(name: Seq<char>) -> int
    decreases name.len(),
{
    if name.len() == 0 {
        -1
    } else if name.last() == '.' {
        name.len() - 1
    } else {
        last_dot(name.drop_last())
    }
}

/// The name of a saved theme file: its stem, when its extension is `json`. As for
/// `Path::extension` and `Path::file_stem`, the extension follows the last `.`, and a name
/// whose only `.` is its first character has none.
pub open spec fn saved_theme(file_name: Seq<char>) -> Option<Seq<char>> {
    let d = last_dot(file_name);
    if d > 0 && file_name.skip(d + 1) == "json"@ {
        Some(file_name.take(d))
    } else {
        None
    }
}

/// The theme that a file of the themes directory holds, if it is one.
pub fn saved_theme_name(file_name: &str) -> (r: Option<String>)
    ensures
        match r {
            Some(n) => saved_theme(file_name@) == Some(n@),
            None => saved_theme(file_name@) is None,
        },
{
    let s = chars_of(file_name);
    let mut i: usize = s.len();
    proof {
        assert(s@.take(s.len() as int) =~= s@);
    }
    while i > 0 && s[i - 1] != '.'
        invariant
            i <= s.len(),
            last_dot(s@) == last_dot(s@.take(i as int)),
        decreases i,
    {
        proof {
            assert(s@.take(i as int).drop_last() =~= s@.take(i - 1));
        }
        i -= 1;
    }
    proof {
        assert(s@.take(s.len() as int) =~= s@);
    }
    if i <= 1 {
        proof {
            if i == 1 {
                assert(last_dot(s@.take(1)) == 0);
            } else {
                assert(last_dot(s@.take(0)) == -1);
            }
        }
        return None;
    }
    let d = i - 1;
    proof {
        assert(last_dot(s@.take(i as int)) == d);
    }
    let ext = copy_range(&s, d + 1, s.len());
    let mut json: Vec<char> = Vec::new();
    push_str(&mut json, "json");
    proof {
        assert(ext@ =~= s@.skip(d + 1));
    }
    if same_text(&ext, &json) {
        let stem = copy_range(&s, 0, d);
        proof {
            assert(stem@ =~= s@.take(d as int));
        }
        Some(string_from_chars(stem.as_slice()))
    } else {
        None
    }
}

// ---------------------------------------------------------------------------
// Reading an extension package.
// ---------------------------------------------------------------------------

#[verifier::external_type_specification]
#[verifier::external_body]
#[verifier::reject_recursive_types(T)]
pub struct ExCursor<T>(Cursor<T>);

#[verifier::external_type_specification]
#[verifier::external_body]
#[verifier::reject_recursive_types(R)]
pub struct ExZipArchive<R>(ZipArchive<R>);

/// The bytes of the ZIP archive that an open package reads.
pub uninterp spec fn package_bytes(archive: ZipArchive<Cursor<Vec<u8>>>) -> Seq<u8>;

/// What `ZipArchive::new` says of a byte string: `None` when it is a ZIP archive that the
/// crate can open, else the message of the error.
pub uninterp spec fn zip_open_error(bytes: Seq<u8>) -> Option<Seq<char>>;

/// What reading the entry `name` of the archive `bytes` as text gives: its text, or
/// whether the entry was found and the message of the error.
pub uninterp spec fn zip_entry_text(bytes: Seq<u8>, name: Seq<char>) -> Result<
    Seq<char>,
    (bool, Seq<char>),
>;

/// The texts that the outcome of reading an entry holds.
pub open spec fn read_view(r: Result<String, (bool, String)>) -> Result<
    Seq<char>,
    (bool, Seq<char>),
> {
    match r {
        Ok(t) => Ok(t@),
        Err((found, m)) => Err((found, m@)),
    }
}

/// Calls `zip::ZipArchive::new` on the bytes of a package. Trusted: whether it opens, and
/// the error message when it does not, depend on the bytes alone; an opened archive reads
/// those bytes.
#[verifier::external_body]
fn zip_open(bytes: Vec<u8>) -> (r: Result<ZipArchive<Cursor<Vec<u8>>>, String>)
    ensures
        r matches Ok(a) ==> package_bytes(a) == bytes@ && zip_open_error(bytes@) is None,
        r matches Err(m) ==> zip_open_error(bytes@) == Some(m@),
{
    match ZipArchive::new(Cursor::new(bytes)) {
        Ok(a) => Ok(a),
        Err(e) => Err(e.to_string()),
    }
}

/// Calls `ZipArchive::by_name` and reads the entry found to a string with
/// `Read::read_to_string`. Trusted: the outcome depends on the archive's bytes and the
/// name alone (`Err((false, _))` when `by_name` fails, `Err((true, _))` when reading
/// fails, with the error's message), and the archive still reads the same bytes after.
#[verifier::external_body]
fn zip_read_text(
    archive: &mut ZipArchive<Cursor<Vec<u8>>>,
    name: &str,
) -> (r: Result<String, (bool, String)>)
    ensures
        package_bytes(*final(archive)) == package_bytes(*old(archive)),
        zip_entry_text(package_bytes(*old(archive)), name@) == read_view(r),
{
    match archive.by_name(name) {
        Ok(mut file) => {
            let mut text = String::new();
            match std::io::Read::read_to_string(&mut file, &mut text) {
                Ok(_) => Ok(text),
                Err(e) => Err((true, e.to_string())),
            }
        },
        Err(e) => Err((false, e.to_string())),
    }
}

/// Opens a downloaded extension package.
pub fn open_package(bytes: Vec<u8>) -> (r: Result<ZipArchive<Cursor<Vec<u8>>>, String>)
    ensures
        r matches Ok(a) ==> package_bytes(a) == bytes@,
        r matches Err(m) ==> zip_open_error(bytes@) == Some(m@),
        r is Ok <==> zip_open_error(bytes@) is None,
{
    zip_open(bytes)
}

pub open spec fn manifest_path() -> Seq<char> {
    "extension/package.json"@
}

/// The manifest text of a package, or the error: a missing manifest is reported as such,
/// a manifest that cannot be read by the reader's message.
pub open spec fn manifest_text(bytes: Seq<u8>) -> Result<Seq<char>, Seq<char>> {
    match zip_entry_text(bytes, manifest_path()) {
        Ok(t) => Ok(t),
        Err((false, _)) => Err("No package.json found in VSIX"@),
        Err((true, m)) => Err(m),
    }
}

/// Reads the manifest (`extension/package.json`) of a package.
pub fn read_package_manifest(archive: &mut ZipArchive<Cursor<Vec<u8>>>) -> (r: Result<
    String,
    String,
>)
    ensures
        package_bytes(*final(archive)) == package_bytes(*old(archive)),
        r matches Ok(t) ==> manifest_text(package_bytes(*old(archive))) == Ok::<_, Seq<char>>(
            t@,
        ),
        r matches Err(e) ==> manifest_text(package_bytes(*old(archive))) == Err::<Seq<char>, _>(
            e@,
        ),
{
    match zip_read_text(archive, "extension/package.json") {
        Ok(t) => Ok(t),
        Err((found, m)) => {
            if found {
                Err(m)
            } else {
                Err(message("No package.json found in VSIX"))
            }
        },
    }
}

/// Reads the chosen theme file of a package; any failure is reported by its message.
pub fn read_theme_file(archive: &mut ZipArchive<Cursor<Vec<u8>>>, choice: &ThemeChoice) -> (r:
    Result<String, String>)
    ensures
        package_bytes(*final(archive)) == package_bytes(*old(archive)),
        r matches Ok(t) ==> zip_entry_text(package_bytes(*old(archive)), choice.archive_path@)
            == Ok::<_, (bool, Seq<char>)>(t@),
        r matches Err(e) ==> zip_entry_text(package_bytes(*old(archive)), choice.archive_path@)
            is Err && zip_entry_text(package_bytes(*old(archive)), choice.archive_path@)->Err_0.1
            == e@,
{
    match zip_read_text(archive, choice.archive_path.as_str()) {
        Ok(t) => Ok(t),
        Err((found, m)) => {
            proof {
                assert(zip_entry_text(package_bytes(*old(archive)), choice.archive_path@) == Err::<
                    Seq<char>,
                    (bool, Seq<char>),
                >((found, m@)));
            }
            Err(m)
        },
    }
}

} // verus!
