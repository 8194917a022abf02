# markpad

The logic of the Markpad Markdown editor, written in Verus and proved against its
specifications.

- `src/` is the verified library.
  - `markdown`: the passes that turn the editor's Markdown extensions (`![[embeds]]`,
    `[[#heading links]]`, ` ^block-ids`, `==highlights==`, `^[inline footnotes]`) into
    CommonMark and HTML, leaving code spans and fenced code alone; `markdown_laws` proves
    that plain text and code pass through unchanged.
  - `themes`: reading vscodethemes.com addresses, the package address on the VS Code
    marketplace, choosing a theme among those a package declares, and reading the package.
  - `files`: names of temporary, image and theme files, pasted image data.
  - `save`: the step protocol of an atomic save.
  - `launch`: files to open, run mode, window label and background, Windows 11 builds.
  - `fonts`: the sorted list of font families, each once.
  - `clipboard`: clipboard images as Base64 PNG data.
  - `text`, `unicode`: character-sequence helpers and the Unicode functions of std.
- `app/` holds the editor's commands: file, network, clipboard and system work around the
  library, and rendering with comrak.
- `tests/` runs the library, among others against reference rewriting written with the
  `regex` crate.
