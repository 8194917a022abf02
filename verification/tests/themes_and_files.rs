use base64::Engine;
use markpad::clipboard::png_base64;
use markpad::files::{
    decode_image_data, directory_entry_label, image_relative_path, stored_image_file_name,
    strip_data_url_prefix, temp_file_name,
};
use markpad::themes::{
    open_package, parse_theme_url, read_package_manifest, read_theme_file, select_theme,
    theme_file_name, vsix_url, JsonText, ThemeEntry,
};
use std::io::Write;

fn entry(label: JsonText, id: JsonText, path: JsonText) -> ThemeEntry {
    ThemeEntry { label, id, path }
}

fn text(s: &str) -> JsonText {
    JsonText::Text(s.to_string())
}

#[test]
fn theme_url_is_read() {
    let t = parse_theme_url("https://vscodethemes.com/e/teabyii.ayu/ayu-dark-bordered").ok().unwrap();
    assert_eq!(t.publisher, "teabyii");
    assert_eq!(t.extension, "ayu");
    assert_eq!(t.theme_name, "ayu-dark-bordered");
}

#[test]
fn theme_url_query_is_dropped() {
    let t = parse_theme_url("https://vscodethemes.com/e/a.b/night?language=rust").ok().unwrap();
    assert_eq!(t.theme_name, "night");
}

#[test]
fn theme_url_without_theme() {
    let t = parse_theme_url("https://vscodethemes.com/e/a.b").ok().unwrap();
    assert_eq!(t.theme_name, "");
}

#[test]
fn theme_url_errors() {
    assert_eq!(parse_theme_url("https://vscodethemes.com/x/a.b/c").err().unwrap(), "Invalid vscodethemes.com URL");
    assert_eq!(parse_theme_url("https://vscodethemes.com").err().unwrap(), "Invalid vscodethemes.com URL");
    assert_eq!(parse_theme_url("https://vscodethemes.com/e/ab/c").err().unwrap(), "Invalid extension format in URL");
    assert_eq!(parse_theme_url("https://vscodethemes.com/e/a.b.c/c").err().unwrap(), "Invalid extension format in URL");
}

#[test]
fn vsix_address() {
    assert_eq!(
        vsix_url("teabyii", "ayu"),
        "https://teabyii.gallery.vsassets.io/_apis/public/gallery/publisher/teabyii/extension/ayu/latest/assetbyname/Microsoft.VisualStudio.Services.VSIXPackage"
    );
}

#[test]
fn theme_by_label_slug() {
    let themes = Some(vec![
        entry(text("Ayu Light"), JsonText::Missing, text("./themes/ayu-light.json")),
        entry(text("Ayu Dark Bordered"), JsonText::Missing, text("./themes\\dark.json")),
    ]);
    let c = select_theme(&themes, "ayu-dark-bordered").ok().unwrap();
    assert_eq!(c.archive_path, "extension/themes/dark.json");
    assert_eq!(c.dest_name, "ayu-dark-bordered");
}

#[test]
fn theme_by_path() {
    let themes = Some(vec![
        entry(text("One"), JsonText::Missing, text("themes/Night-Owl.json")),
    ]);
    let c = select_theme(&themes, "night-owl").ok().unwrap();
    assert_eq!(c.archive_path, "extension/themes/Night-Owl.json");
    assert_eq!(c.dest_name, "night-owl");
}

#[test]
fn empty_theme_name_takes_first() {
    let themes = Some(vec![
        entry(JsonText::Missing, text("Solar Flare!"), text("a.json")),
        entry(text("Other"), JsonText::Missing, text("b.json")),
    ]);
    let c = select_theme(&themes, "").ok().unwrap();
    assert_eq!(c.archive_path, "extension/a.json");
    assert_eq!(c.dest_name, "solar-flare-");
}

#[test]
fn empty_slug_is_named_downloaded_theme() {
    let themes = Some(vec![entry(JsonText::Other, text("ignored"), JsonText::Other)]);
    let c = select_theme(&themes, "").ok().unwrap();
    assert_eq!(c.archive_path, "extension/");
    assert_eq!(c.dest_name, "downloaded_theme");
}

#[test]
fn theme_errors() {
    assert_eq!(select_theme(&None, "x").err().unwrap(), "No themes found in extension");
    let themes = Some(vec![entry(text("A"), JsonText::Missing, text("a.json"))]);
    assert_eq!(select_theme(&themes, "zzz").err().unwrap(), "Theme name not found in extension");
}

#[test]
fn theme_file() {
    assert_eq!(theme_file_name("ayu"), "ayu.json");
}

fn zip_with(entries: &[(&str, &str)]) -> Vec<u8> {
    let mut buf = std::io::Cursor::new(Vec::new());
    {
        let mut w = zip::ZipWriter::new(&mut buf);
        for (name, body) in entries {
            w.start_file(*name, zip::write::SimpleFileOptions::default()).unwrap();
            w.write_all(body.as_bytes()).unwrap();
        }
        w.finish().unwrap();
    }
    buf.into_inner()
}

#[test]
fn package_reading() {
    let bytes = zip_with(&[("extension/package.json", "{\"a\":1}"), ("extension/t.json", "{}")]);
    let mut archive = open_package(bytes).ok().unwrap();
    assert_eq!(read_package_manifest(&mut archive).ok().unwrap(), "{\"a\":1}");
    let themes = Some(vec![entry(text("T"), JsonText::Missing, text("./t.json"))]);
    let choice = select_theme(&themes, "").ok().unwrap();
    assert_eq!(read_theme_file(&mut archive, &choice).ok().unwrap(), "{}");
}

#[test]
fn package_without_manifest() {
    let bytes = zip_with(&[("extension/other.json", "{}")]);
    let mut archive = open_package(bytes).ok().unwrap();
    assert_eq!(read_package_manifest(&mut archive).err().unwrap(), "No package.json found in VSIX");
    let themes = Some(vec![entry(text("T"), JsonText::Missing, text("missing.json"))]);
    let choice = select_theme(&themes, "").ok().unwrap();
    assert!(read_theme_file(&mut archive, &choice).is_err());
}

#[test]
fn not_a_package() {
    assert!(open_package(b"not a zip".to_vec()).is_err());
}

#[test]
fn temp_names() {
    assert_eq!(temp_file_name(Some("notes.md"), 42, 1234567890123), ".notes.md.markpad-tmp-42-1234567890123");
    assert_eq!(temp_file_name(None, 0, 0), ".markpad.markpad-tmp-0-0");
    assert_eq!(
        temp_file_name(Some("a"), u32::MAX, u128::MAX),
        format!(".a.markpad-tmp-{}-{}", u32::MAX, u128::MAX)
    );
}

#[test]
fn data_url_prefix() {
    assert_eq!(strip_data_url_prefix("data:image/png;base64,QUJD"), "QUJD");
    assert_eq!(strip_data_url_prefix("QUJD"), "QUJD");
    assert_eq!(strip_data_url_prefix("xbase64,base64,Q"), "base64,Q");
}

#[test]
fn image_data_decoding() {
    assert_eq!(decode_image_data("data:image/png;base64,QUJD").ok().unwrap(), b"ABC".to_vec());
    assert_eq!(decode_image_data("QUI=").ok().unwrap(), b"AB".to_vec());
    assert!(decode_image_data("data:image/png;base64,*").is_err());
}

#[test]
fn image_paths() {
    assert_eq!(image_relative_path("", "a.png"), "a.png");
    assert_eq!(image_relative_path("img", "a.png"), "img/a.png");
}

#[test]
fn stored_image_names() {
    assert_eq!(stored_image_file_name("cat.png", false, Some("cat"), Some("png"), 5), "cat.png");
    assert_eq!(stored_image_file_name("cat.png", true, Some("cat"), Some("png"), 1700000000), "cat_1700000000.png");
    assert_eq!(stored_image_file_name("x", true, None, None, -3), "image_-3.");
    assert_eq!(
        stored_image_file_name("x", true, Some("s"), Some("e"), i64::MIN),
        format!("s_{}.e", i64::MIN)
    );
}

#[test]
fn directory_labels() {
    assert_eq!(directory_entry_label("docs", true), "docs/");
    assert_eq!(directory_entry_label("a.md", false), "a.md");
}

#[test]
fn clipboard_png() {
    let pixels = vec![255u8, 0, 0, 255, 0, 255, 0, 255];
    let s = png_base64(&pixels, 2, 1).ok().unwrap();
    assert!(s.starts_with("iVBORw0KGgo"));
    let png = base64::engine::general_purpose::STANDARD.decode(&s).unwrap();
    assert_eq!(&png[1..4], b"PNG");
}

use markpad::themes::saved_theme_name;
use std::path::Path;

#[test]
fn saved_theme_files() {
    assert_eq!(saved_theme_name("ayu.json"), Some("ayu".to_string()));
    assert_eq!(saved_theme_name("a.b.json"), Some("a.b".to_string()));
    assert_eq!(saved_theme_name(".json"), None);
    assert_eq!(saved_theme_name("json"), None);
    assert_eq!(saved_theme_name("a.JSON"), None);
    assert_eq!(saved_theme_name("a.json.bak"), None);
    assert_eq!(saved_theme_name(".x.json"), Some(".x".to_string()));
    for name in ["ayu.json", ".json", "a.b.json", "noext", "x.", ".hidden", "..", "a..json", ".x.json"] {
        let p = Path::new(name);
        let expected = match p.extension() {
            Some(e) if e == "json" => p.file_stem().and_then(|s| s.to_str()).map(|s| s.to_string()),
            _ => None,
        };
        assert_eq!(saved_theme_name(name), expected, "file {:?}", name);
    }
}
