# md_reader

A Markdown reader: `md-reader notes.md` renders the file to a self-contained
HTML page with a GitHub-like style, KaTeX math and lumis syntax highlighting,
writes it to the temp directory and opens it in the browser; `--serve` serves
it over local HTTP instead, with live reload.

## Layout

- `src/` is the library, verified with Verus. Each public function states in
  its `ensures` what it returns, over spec functions in the same module.
  - `math.rs`: rewriting of `\( \)` and `\[ \]` math delimiters, leaving code
    fences and code spans alone.
  - `markdown.rs`: the rendering pipeline around pulldown-cmark, KaTeX and
    lumis; those crates are reached only through small trusted wrappers whose
    doc comments say what is assumed of them.
  - `html.rs`, `base64.rs`, `url.rs`: escaping, file-name sanitizing, Base64,
    percent-encoding and `file://` URLs.
  - `page.rs`: the page template, scripts, style sheet and preview file names.
  - `server.rs`: request routing, path containment, media types and the HTTP
    response bytes.
  - `cli.rs`, `browser.rs`: the command line and the browser command.
- `app/main.rs` is the program: file system, sockets, threads and processes.
  It hands the library plain values and performs what the library decides.
- `tests/` runs the library on concrete inputs.

## KaTeX assets

The page embeds the KaTeX style sheet and its WOFF2 fonts so that previews
work offline. The program reads them at start-up from `assets/katex/`
(`katex.min.css` and `fonts/*.woff2`) beside the executable, or under the
working directory; without them, math is still rendered but unstyled, and a
warning says which file is missing.
