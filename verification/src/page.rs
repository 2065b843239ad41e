//! The HTML page around rendered Markdown: template, scripts and style
//! sheet.

use vstd::prelude::*;
use crate::base64::{base64, base64_encode};
use crate::chars::{chars_of, decimal, push_decimal};
use crate::html::{escape_html, escaped, sanitize_file_stem, sanitized_stem};
use crate::url::{from_utf8_lossy, lossy_text};

verus! {

pub const DOC_HEAD: &'static str = r#"<!doctype html>
<html lang="en">
<head>
  <meta charset="utf-8">
  <meta name="viewport" content="width=device-width, initial-scale=1">
  <title>"#;

pub const DOC_BASE: &'static str = r#"</title>
  <base href=""#;

pub const DOC_STYLE: &'static str = r#"">
  <link rel="icon" href="data:image/svg+xml,<svg xmlns='http://www.w3.org/2000/svg' viewBox='0 0 32 32'><rect width='32' height='32' rx='7' fill='%232563eb'/><text x='16' y='21' font-family='monospace' font-size='15' font-weight='700' fill='white' text-anchor='middle'>md</text></svg>">
  <style>"#;

pub const DOC_HEADER: &'static str = r#"</style>
</head>
<body>
  <main class="reader">
    <header class="reader-header">
      <div class="reader-identity">
        <span class="reader-mark" aria-hidden="true">md</span>
        <span class="reader-label">md-reader</span>
      </div>
      <div class="file-name" title=""#;

pub const DOC_NAME: &'static str = r#"">"#;

pub const DOC_ARTICLE: &'static str = r#"</div>
    </header>
    <article class="markdown-body">
      "#;

pub const DOC_SCRIPT: &'static str = r#"
    </article>
  </main>
  "#;

pub const DOC_END: &'static str = r#"
</body>
</html>"#;

/// Adds a copy button to each code block. Buttons are created lazily on
/// first pointer hover so pages with no code blocks stay untouched.
pub const COPY_SCRIPT: &'static str = r#"<script>
(function () {
  document.addEventListener("pointerover", function (event) {
    var pre = event.target.closest("pre");
    if (!pre || pre.dataset.mdCopy) return;
    var code = pre.querySelector("code");
    if (!code) return;
    pre.dataset.mdCopy = "1";

    var button = document.createElement("button");
    button.type = "button";
    button.className = "code-copy";
    button.textContent = "Copy";
    button.setAttribute("aria-label", "Copy code to clipboard");
    button.addEventListener("click", function () {
      var text = code.innerText;
      function copied() {
        button.textContent = "Copied ✓";
        setTimeout(function () { button.textContent = "Copy"; }, 1500);
      }
      if (navigator.clipboard && navigator.clipboard.writeText) {
        navigator.clipboard.writeText(text).then(copied, function () {});
      } else {
        var textarea = document.createElement("textarea");
        textarea.value = text;
        document.body.appendChild(textarea);
        textarea.select();
        try { document.execCommand("copy"); copied(); } catch (e) {}
        document.body.removeChild(textarea);
      }
    });
    pre.appendChild(button);
  });
})();
</script>"#;

pub const LIVE_RELOAD_HEAD: &'static str = r#"<script>
(function () {
  var current = ""#;

pub const LIVE_RELOAD_TAIL: &'static str = r#"";
  function poll() {
    fetch("/refresh", { cache: "no-store" })
      .then(function (response) { return response.ok ? response.text() : null; })
      .then(function (text) {
        if (text && text !== current) { location.reload(); }
      })
      .catch(function () {});
  }
  setInterval(poll, 750);
})();
</script>"#;

/// The reader's own style sheet.
pub const READER_CSS: &'static str = r#":root {
  color-scheme: light dark;
  --canvas: #f6f7fb;
  --surface: #ffffff;
  --ink: #1d2939;
  --muted: #66758a;
  --border: #e3e8ef;
  --border-strong: #d7dfe9;
  --accent: #2563eb;
  --accent-hover: #1d4ed8;
  --accent-subtle: #eff6ff;
  --code-bg: #f5f7fa;
  --pre-bg: #141c2b;
  --pre-ink: #edf2f9;
  --quote-bg: #f8fafc;
  --table-alt: #fafbfc;
  --selection: #dbeafe;
  --shadow: 0 1px 2px rgb(16 24 40 / 0.02), 0 12px 32px rgb(16 24 40 / 0.05);
}

@media (prefers-color-scheme: dark) {
  :root {
    --canvas: #0b1020;
    --surface: #111827;
    --ink: #edf2f7;
    --muted: #a7b4c7;
    --border: #263248;
    --border-strong: #34425b;
    --accent: #7db3ff;
    --accent-hover: #a7caff;
    --accent-subtle: #14223a;
    --code-bg: #182236;
    --pre-bg: #090e1a;
    --pre-ink: #e6edf8;
    --quote-bg: #121d2f;
    --table-alt: #151f31;
    --selection: #2d4d7b;
    --shadow: 0 1px 2px rgb(0 0 0 / 0.2), 0 18px 42px rgb(0 0 0 / 0.2);
  }
}

* {
  box-sizing: border-box;
}

html {
  background: var(--canvas);
  overflow-x: clip;
  text-size-adjust: 100%;
}

body {
  margin: 0;
  min-height: 100vh;
  background: radial-gradient(64rem 36rem at 50% -10rem, rgb(255 255 255 / 0.92), transparent 72%), var(--canvas);
  color: var(--ink);
  font-family: ui-sans-serif, -apple-system, BlinkMacSystemFont, "Segoe UI", "PingFang SC", "Hiragino Sans GB", "Microsoft YaHei", "Noto Sans", Helvetica, Arial, sans-serif;
  font-size: 17px;
  line-height: 1.72;
  max-width: 100%;
  overflow-x: clip;
  overflow-wrap: break-word;
  -webkit-font-smoothing: antialiased;
  text-rendering: optimizeLegibility;
}

::selection {
  background: var(--selection);
}

:focus-visible {
  outline: 3px solid var(--accent);
  outline-offset: 3px;
}

.reader {
  min-width: 0;
  width: 100%;
  max-width: 960px;
  margin: 0 auto;
  padding: clamp(24px, 5vw, 56px) clamp(16px, 4vw, 40px) 64px;
}

.reader-header {
  align-items: center;
  display: flex;
  gap: 16px;
  justify-content: space-between;
  margin: 0 4px 16px;
  min-height: 28px;
}

.reader-identity {
  align-items: center;
  color: var(--muted);
  display: flex;
  flex: 0 0 auto;
  font-size: 12px;
  font-weight: 650;
  gap: 8px;
  letter-spacing: 0.01em;
}

.reader-mark {
  align-items: center;
  background: var(--accent-subtle);
  border: 1px solid var(--border);
  border-radius: 7px;
  color: var(--accent);
  display: inline-flex;
  font-family: ui-monospace, SFMono-Regular, SF Mono, Menlo, Consolas, monospace;
  font-size: 10px;
  font-weight: 700;
  height: 22px;
  justify-content: center;
  letter-spacing: -0.06em;
  width: 25px;
}

.file-name {
  background: var(--surface);
  border: 1px solid var(--border);
  border-radius: 999px;
  color: var(--muted);
  font-family: ui-monospace, SFMono-Regular, SF Mono, Menlo, Consolas, monospace;
  font-size: 12px;
  line-height: 1.25;
  max-width: min(66%, 440px);
  overflow: hidden;
  padding: 5px 10px;
  text-overflow: ellipsis;
  white-space: nowrap;
}

.markdown-body {
  background: var(--surface);
  border: 1px solid var(--border);
  border-radius: 14px;
  box-shadow: var(--shadow);
  min-width: 0;
  max-width: 100%;
  overflow-x: hidden;
  padding: clamp(26px, 5vw, 52px);
  width: 100%;
}

.markdown-body > :first-child {
  margin-top: 0;
}

.markdown-body > :last-child {
  margin-bottom: 0;
}

h1, h2, h3, h4, h5, h6 {
  color: var(--ink);
  font-weight: 650;
  letter-spacing: -0.025em;
  line-height: 1.22;
  margin: 44px 0 18px;
  scroll-margin-top: 24px;
}

h1 {
  border: 0;
  font-size: clamp(2rem, 4vw, 2.65rem);
  letter-spacing: -0.045em;
  margin-bottom: 26px;
  padding: 0;
  text-wrap: balance;
}

h2 {
  border-bottom: 1px solid var(--border);
  font-size: clamp(1.45rem, 2.6vw, 1.72rem);
  padding-bottom: 0.45em;
  text-wrap: balance;
}

h3 {
  font-size: 1.25rem;
}

h4 {
  font-size: 1.05rem;
}

h5 {
  font-size: 0.95rem;
}

h6 {
  color: var(--muted);
  font-size: 0.85rem;
}

p, ul, ol, blockquote, pre, table, .katex-display {
  margin-bottom: 22px;
  margin-top: 0;
}

p {
  max-width: 74ch;
}

ul, ol {
  padding-left: 1.55em;
}

li + li {
  margin-top: 0.4em;
}

li > p {
  margin-top: 18px;
}

a {
  color: var(--accent);
  text-decoration-color: rgb(37 99 235 / 0.34);
  text-decoration-thickness: 0.08em;
  text-underline-offset: 0.16em;
  transition: color 140ms ease-out, text-decoration-color 140ms ease-out;
}

@media (hover: hover) and (pointer: fine) {
  a:hover {
    color: var(--accent-hover);
    text-decoration-color: currentColor;
  }
}

blockquote {
  background: var(--quote-bg);
  border: 1px solid var(--border);
  border-left: 3px solid var(--accent);
  border-radius: 0 8px 8px 0;
  color: var(--muted);
  margin-left: 0;
  padding: 12px 16px;
}

blockquote > :last-child {
  margin-bottom: 0;
}

code, pre {
  font-family: ui-monospace, SFMono-Regular, SF Mono, Menlo, Consolas, "Liberation Mono", monospace;
}

code {
  background: var(--code-bg);
  border: 1px solid var(--border);
  border-radius: 5px;
  font-size: 0.84em;
  margin: 0;
  padding: 0.15em 0.38em;
}

pre {
  position: relative;
  background: var(--pre-bg);
  border: 1px solid var(--border-strong);
  border-radius: 10px;
  color: var(--pre-ink);
  font-size: 0.86em;
  line-height: 1.62;
  overflow-x: auto;
  padding: 18px 20px;
  tab-size: 2;
}

pre code {
  background: transparent;
  border: 0;
  color: inherit;
  padding: 0;
}

table {
  border: 1px solid var(--border);
  border-collapse: separate;
  border-radius: 10px;
  border-spacing: 0;
  display: block;
  font-size: 0.94em;
  max-width: 100%;
  overflow-x: auto;
  width: fit-content;
  min-width: min(100%, 480px);
}

th, td {
  border-bottom: 1px solid var(--border);
  border-right: 1px solid var(--border);
  padding: 9px 13px;
  text-align: left;
}

th {
  background: var(--code-bg);
  font-weight: 650;
}

th:last-child, td:last-child {
  border-right: 0;
}

tr:last-child td {
  border-bottom: 0;
}

tr:nth-child(2n) {
  background: var(--table-alt);
}

img {
  border: 1px solid var(--border);
  border-radius: 10px;
  box-shadow: 0 1px 2px rgb(16 24 40 / 0.06);
  height: auto;
  max-width: 100%;
}

input[type="checkbox"] {
  accent-color: var(--accent);
  margin: 0 0.2em 0.25em -1.4em;
  vertical-align: middle;
}

hr {
  background: var(--border);
  border: 0;
  height: 1px;
  margin: 40px 0;
  padding: 0;
}

.katex-display {
  display: block;
  max-width: 100%;
  overflow-x: auto;
  padding: 0.35rem 0.2rem;
  scrollbar-color: var(--border-strong) transparent;
  width: 100%;
}

.katex-display > .katex {
  min-width: 0;
}

.katex-error {
  color: #dc2626;
  font-family: ui-monospace, SFMono-Regular, SF Mono, Menlo, Consolas, monospace;
  font-size: 0.9em;
}

@media (prefers-color-scheme: dark) {
  .lumis-themes.dark,
  .lumis-themes.dark span {
    color: var(--lumis-dark) !important;
    font-style: var(--lumis-dark-font-style) !important;
    font-weight: var(--lumis-dark-font-weight) !important;
    text-decoration: var(--lumis-dark-text-decoration) !important;
  }

  .lumis-themes.dark {
    background-color: var(--lumis-dark-bg) !important;
  }
}

.code-copy {
  position: absolute;
  top: 8px;
  right: 8px;
  align-items: center;
  background: var(--surface);
  border: 1px solid var(--border-strong);
  border-radius: 6px;
  color: var(--muted);
  cursor: pointer;
  font: 600 11px/1 ui-sans-serif, -apple-system, BlinkMacSystemFont, "Segoe UI", sans-serif;
  opacity: 0;
  padding: 4px 9px;
  transition: opacity 140ms ease-out, color 140ms ease-out, border-color 140ms ease-out;
}

pre:hover .code-copy,
pre:focus-within .code-copy {
  opacity: 1;
}

.code-copy:hover {
  border-color: var(--accent);
  color: var(--accent);
}

.code-copy:focus-visible {
  outline: 3px solid var(--accent);
  outline-offset: 2px;
}

@media (prefers-color-scheme: dark) {
  body {
    background: radial-gradient(64rem 36rem at 50% -10rem, rgb(37 57 92 / 0.38), transparent 72%), var(--canvas);
  }
}

@media (prefers-reduced-motion: reduce) {
  *, *::before, *::after {
    scroll-behavior: auto !important;
    transition-duration: 0.01ms !important;
  }
}

@media (max-width: 650px) {
  body {
    font-size: 16px;
    line-height: 1.68;
  }

  .reader {
    padding: 24px 16px 40px;
  }

  .reader-header {
    margin-bottom: 14px;
  }

  .reader-label {
    display: none;
  }

  .file-name {
    max-width: calc(100% - 42px);
  }

  .markdown-body {
    border-radius: 11px;
    padding: 26px 20px;
  }

  h1 {
    font-size: 2rem;
  }

  h1, h2, h3, h4, h5, h6 {
    margin-top: 36px;
  }

  p, ul, ol, blockquote, pre, table, .katex-display {
    margin-bottom: 19px;
  }

  pre {
    border-radius: 8px;
    margin-left: -4px;
    margin-right: -4px;
    padding: 16px;
  }

  .katex-display {
    margin-left: -4px;
    margin-right: -4px;
    text-align: left;
  }

  .katex-display > .katex {
    text-align: left;
  }
}

@media print {
  :root {
    color-scheme: light;
  }

  body {
    background: #ffffff;
    color: #111827;
  }

  .reader {
    max-width: none;
    padding: 0;
  }

  .reader-header {
    display: none;
  }

  .markdown-body {
    border: 0;
    box-shadow: none;
    padding: 0;
  }
}
"#;

/// The script that polls the serve-mode `/refresh` endpoint and reloads
/// the page when the source file's modification time, given in
/// milliseconds, changes.
pub open spec fn live_reload(mtime_millis: nat) -> Seq<char> {
    LIVE_RELOAD_HEAD@ + decimal(mtime_millis) + LIVE_RELOAD_TAIL@
}

/// The live-reload script for a file modified at `mtime_millis`: see
/// `live_reload`.
pub fn live_reload_script(mtime_millis: u128) -> (script: String)
    ensures
        script@ == live_reload(mtime_millis as nat),
{
    let mut script = String::new();
    script.push_str(LIVE_RELOAD_HEAD);
    push_decimal(&mut script, mtime_millis);
    script.push_str(LIVE_RELOAD_TAIL);
    script
}

/// The scripts of a page: the copy script, followed in serve mode by the
/// live-reload script.
pub open spec fn page_scripts(serve: bool, mtime_millis: nat) -> Seq<char> {
    if serve {
        COPY_SCRIPT@ + "\n"@ + live_reload(mtime_millis)
    } else {
        COPY_SCRIPT@
    }
}

/// The scripts of a page: see `page_scripts`.
pub fn page_script(serve: bool, mtime_millis: u128) -> (script: String)
    ensures
        script@ == page_scripts(serve, mtime_millis as nat),
{
    let mut script = String::new();
    script.push_str(COPY_SCRIPT);
    if serve {
        script.push_str("\n");
        script.push_str(live_reload_script(mtime_millis).as_str());
    }
    script
}

/// The page around a rendered body: `title` escaped in the title, the file
/// name badge and its tooltip, `base_href` escaped in the base element, the
/// style sheet, the body and the scripts.
pub open spec fn document(
    title: Seq<char>,
    base_href: Seq<char>,
    css: Seq<char>,
    body: Seq<char>,
    script: Seq<char>,
) -> Seq<char> {
    DOC_HEAD@ + escaped(title) + DOC_BASE@ + escaped(base_href) + DOC_STYLE@ + css + DOC_HEADER@
        + escaped(title) + DOC_NAME@ + escaped(title) + DOC_ARTICLE@ + body + DOC_SCRIPT@ + script
        + DOC_END@
}

/// The page around a rendered body: see `document`.
pub fn document_html(title: &str, base_href: &str, css: &str, body: &str, script: &str) -> (html:
    String)
    ensures
        html@ == document(title@, base_href@, css@, body@, script@),
{
    let t = escape_html(title);
    let mut html = String::new();
    html.push_str(DOC_HEAD);
    html.push_str(t.as_str());
    html.push_str(DOC_BASE);
    html.push_str(escape_html(base_href).as_str());
    html.push_str(DOC_STYLE);
    html.push_str(css);
    html.push_str(DOC_HEADER);
    html.push_str(t.as_str());
    html.push_str(DOC_NAME);
    html.push_str(t.as_str());
    html.push_str(DOC_ARTICLE);
    html.push_str(body);
    html.push_str(DOC_SCRIPT);
    html.push_str(script);
    html.push_str(DOC_END);
    html
}

/// The title of a page: the file's name, or `Markdown Reader` when it has
/// none that is valid text.
pub open spec fn page_title(file_name: Option<Seq<char>>) -> Seq<char> {
    match file_name {
        Some(name) => name,
        None => "Markdown Reader"@,
    }
}

/// The base URL of a page: the server root in serve mode, else the
/// directory URL of the preview.
pub open spec fn page_base(serve: bool, preview_base: Seq<char>) -> Seq<char> {
    if serve {
        "/"@
    } else {
        preview_base
    }
}

pub open spec fn str_option_view(o: Option<&str>) -> Option<Seq<char>> {
    match o {
        Some(s) => Some(s@),
        None => None,
    }
}

/// The page for a Markdown document whose text is `markdown`, given the
/// outcomes of KaTeX for its formulas.
pub open spec fn rendered_document(
    markdown: Seq<char>,
    file_name: Option<Seq<char>>,
    serve: bool,
    mtime_millis: nat,
    preview_base: Seq<char>,
    css: Seq<char>,
    outcomes: Seq<Result<Seq<char>, Seq<char>>>,
) -> Seq<char> {
    document(
        page_title(file_name),
        page_base(serve, preview_base),
        css,
        crate::markdown::rendered_markdown(markdown, outcomes),
        page_scripts(serve, mtime_millis),
    )
}

/// Renders a Markdown document as a complete page: the body from
/// `render_markdown`, the title from the file name, the style sheet `css`,
/// the copy script, and in serve mode (`serve`) the live-reload script for
/// the modification time `mtime_millis` and the server root as base URL;
/// otherwise the base URL is `preview_base`, the file URL of the document's
/// directory.
pub fn render_document(
    markdown: &str,
    file_name: Option<&str>,
    serve: bool,
    mtime_millis: u128,
    preview_base: &str,
    css: &str,
) -> (html: String)
    ensures
        exists|outcomes: Seq<Result<Seq<char>, Seq<char>>>|
            crate::markdown::document_katex_answers(markdown@, outcomes) && #[trigger]
            rendered_document(
                markdown@,
                str_option_view(file_name),
                serve,
                mtime_millis as nat,
                preview_base@,
                css@,
                outcomes,
            ) == html@,
{
    let title = match file_name {
        Some(name) => name,
        None => "Markdown Reader",
    };
    let body = crate::markdown::render_markdown(markdown);
    let script = page_script(serve, mtime_millis);
    let base = if serve {
        "/"
    } else {
        preview_base
    };
    let html = document_html(title, base, css, body.as_str(), script.as_str());
    let ghost outcomes = choose|outcomes: Seq<Result<Seq<char>, Seq<char>>>|
        crate::markdown::document_katex_answers(markdown@, outcomes) && #[trigger]
        crate::markdown::rendered_markdown(markdown@, outcomes) == body@;
    assert(rendered_document(
        markdown@,
        str_option_view(file_name),
        serve,
        mtime_millis as nat,
        preview_base@,
        css@,
        outcomes,
    ) == html@);
    html
}

/// The name of a preview file: the sanitized stem of the Markdown file
/// (`preview` when it has none), the process id and `.html`.
pub open spec fn preview_name(stem: Option<Seq<char>>, pid: nat) -> Seq<char> {
    sanitized_stem(
        match stem {
            Some(s) => s,
            None => "preview"@,
        },
    ) + "-"@ + decimal(pid) + ".html"@
}

/// The name of a preview file: see `preview_name`.
pub fn preview_file_name(stem: Option<&str>, pid: u32) -> (name: String)
    ensures
        name@ == preview_name(
            str_option_view(stem),
            pid as nat,
        ),
{
    let s = match stem {
        Some(s) => s,
        None => "preview",
    };
    let mut name = sanitize_file_stem(s);
    name.push_str("-");
    push_decimal(&mut name, pid as u128);
    name.push_str(".html");
    name
}

/// Whether a file found in the preview directory is removed: it is a file
/// (directories are never removed) and older than the maximum age.
pub fn is_stale_preview(age_nanos: u128, max_age_nanos: u128, is_file: bool) -> (stale: bool)
    ensures
        stale == (age_nanos > max_age_nanos && is_file),
{
    age_nanos > max_age_nanos && is_file
}

/// `s[pos..]` with each occurrence of `pat`, found left to right without
/// overlaps, replaced by `rep`, appended to `out`, as `str::replace` does
/// for a non-empty pattern.
pub open spec fn replace_from(s: Seq<char>, pos: int, pat: Seq<char>, rep: Seq<char>, out: Seq<
    char,
>) -> Seq<char>
    decreases s.len() - pos,
{
    if pos < 0 || pos >= s.len() {
        out
    } else if pat.len() > 0 && pos + pat.len() <= s.len() && s.subrange(pos, pos + pat.len())
        == pat {
        replace_from(s, pos + pat.len(), pat, rep, out + rep)
    } else {
        replace_from(s, pos + 1, pat, rep, out.push(s[pos]))
    }
}

/// `s` with each occurrence of the non-empty `pat` replaced by `rep`.
pub open spec fn replaced(s: Seq<char>, pat: Seq<char>, rep: Seq<char>) -> Seq<char> {
    replace_from(s, 0, pat, rep, seq![])
}

/// Replaces each occurrence of the non-empty `pat` in `s` by `rep`.
fn replace_all(s: &str, pat: &str, rep: &str) -> (out: String)
    requires
        pat@.len() > 0,
    ensures
        out@ == replaced(s@, pat@, rep@),
{
    let c = chars_of(s);
    let p = chars_of(pat);
    let mut out = String::new();
    let mut pos: usize = 0;
    while pos < c.len()
        invariant
            pos <= c.len(),
            c@ == s@,
            p@ == pat@,
            p.len() > 0,
            replaced(s@, pat@, rep@) == replace_from(c@, pos as int, p@, rep@, out@),
        decreases c.len() - pos,
    {
        let mut matched = false;
        if p.len() <= c.len() - pos {
            let mut k: usize = 0;
            while k < p.len() && c[pos + k] == p[k]
                invariant
                    k <= p.len(),
                    pos + p.len() <= c.len(),
                    forall|j: int| 0 <= j < k ==> c@[pos + j] == p@[j],
                decreases p.len() - k,
            {
                k = k + 1;
            }
            if k == p.len() {
                matched = true;
                assert(c@.subrange(pos as int, pos + p.len()) =~= p@);
            } else {
                assert(c@.subrange(pos as int, pos + p.len())[k as int] != p@[k as int]);
            }
        }
        if matched {
            out.push_str(rep);
            pos = pos + p.len();
        } else {
            out.push(c[pos]);
            pos = pos + 1;
        }
    }
    out
}

/// Whether `name` ends with `.woff2`.
pub open spec fn is_woff2(name: Seq<char>) -> bool {
    name.len() >= 6 && name.subrange(name.len() - 6, name.len() as int) == seq![
        '.',
        'w',
        'o',
        'f',
        'f',
        '2',
    ]
}

/// The style sheet reference to a bundled font file.
pub open spec fn font_source(name: Seq<char>) -> Seq<char> {
    "url(fonts/"@ + name + ")"@
}

/// The font file embedded as a data URL.
pub open spec fn font_embedded(data: Seq<u8>) -> Seq<char> {
    "url(data:font/woff2;base64,"@ + base64(data) + ")"@
}

/// The references to the WOFF and TrueType versions of a font, which an
/// embedded WOFF2 font makes unneeded.
pub open spec fn font_fallbacks(stem: Seq<char>) -> Seq<char> {
    ",url(fonts/"@ + stem + ".woff) format(\"woff\"),url(fonts/"@ + stem
        + ".ttf) format(\"truetype\")"@
}

/// `css` with one font embedded and its fallbacks removed.
pub open spec fn embed_font(css: Seq<char>, name: Seq<char>, data: Seq<u8>) -> Seq<char> {
    replaced(
        replaced(css, font_source(name), font_embedded(data)),
        font_fallbacks(name.take(name.len() - 6)),
        seq![],
    )
}

/// `css` with the fonts embedded in order.
pub open spec fn embed_fonts(css: Seq<char>, fonts: Seq<(Seq<char>, Seq<u8>)>) -> Seq<char>
    decreases fonts.len(),
{
    if fonts.len() == 0 {
        css
    } else {
        embed_fonts(embed_font(css, fonts[0].0, fonts[0].1), fonts.drop_first())
    }
}

pub open spec fn font_views(fonts: Seq<(&str, &[u8])>) -> Seq<(Seq<char>, Seq<u8>)> {
    fonts.map_values(|f: (&str, &[u8])| (f.0@, f.1@))
}

/// The style sheet of every page: the KaTeX style sheet with its WOFF2
/// fonts embedded as data URLs, so that previews work offline, followed by
/// the reader's own style sheet.
pub open spec fn reader_stylesheet(katex_css: Seq<char>, fonts: Seq<(Seq<char>, Seq<u8>)>) -> Seq<
    char,
> {
    embed_fonts(katex_css, fonts) + "\n"@ + READER_CSS@
}

/// The style sheet of every page, from the KaTeX style sheet and its WOFF2
/// font files: see `reader_stylesheet`.
pub fn reader_css(katex_css: &str, fonts: &[(&str, &[u8])]) -> (css: String)
    requires
        forall|i: int| 0 <= i < fonts@.len() ==> is_woff2(#[trigger] fonts@[i].0@),
    ensures
        css@ == reader_stylesheet(katex_css@, font_views(fonts@)),
{
    let ghost all = font_views(fonts@);
    let mut css = String::new();
    css.push_str(katex_css);
    let mut i: usize = 0;
    assert(all.skip(0) =~= all);
    while i < fonts.len()
        invariant
            i <= fonts@.len(),
            all == font_views(fonts@),
            all.len() == fonts@.len(),
            forall|k: int| 0 <= k < fonts@.len() ==> is_woff2(#[trigger] fonts@[k].0@),
            embed_fonts(katex_css@, all) == embed_fonts(css@, all.skip(i as int)),
        decreases fonts.len() - i,
    {
        let (name, data) = fonts[i];
        assert(all[i as int] == (name@, data@));
        assert(is_woff2(fonts@[i as int].0@));
        let mut source = String::new();
        source.push_str("url(fonts/");
        source.push_str(name);
        source.push_str(")");
        let mut embedded = String::new();
        embedded.push_str("url(data:font/woff2;base64,");
        embedded.push_str(base64_encode(data).as_str());
        embedded.push_str(")");
        proof {
            reveal_strlit("url(fonts/");
        }
        let with_font = replace_all(css.as_str(), source.as_str(), embedded.as_str());
        let n = chars_of(name);
        let stem = crate::chars::string_from(&n, 0, n.len() - 6);
        let mut fallbacks = String::new();
        fallbacks.push_str(",url(fonts/");
        fallbacks.push_str(stem.as_str());
        fallbacks.push_str(".woff) format(\"woff\"),url(fonts/");
        fallbacks.push_str(stem.as_str());
        fallbacks.push_str(".ttf) format(\"truetype\")");
        proof {
            reveal_strlit(",url(fonts/");
        }
        let empty = String::new();
        css = replace_all(with_font.as_str(), fallbacks.as_str(), empty.as_str());
        assert(n@.subrange(0, n.len() - 6) =~= n@.take(n.len() - 6));
        assert(all.skip(i as int).drop_first() =~= all.skip(i + 1));
        i = i + 1;
    }
    css.push_str("\n");
    css.push_str(READER_CSS);
    css
}

/// The text of a Markdown file's bytes: decoded as UTF-8, with invalid
/// sequences replaced (see `lossy_text`).
pub fn markdown_text(bytes: &[u8]) -> (text: String)
    ensures
        text@ == lossy_text(bytes@),
{
    from_utf8_lossy(bytes)
}

/// How long a preview file is kept: it is read once by the browser, so a
/// day is plenty.
pub const PREVIEW_MAX_AGE_SECONDS: u64 = 86400;

/// What the two modes put in a page: both carry the copy script; only
/// serve mode adds the live-reload script polling for the given
/// modification time, and uses the server root as base URL, while a
/// preview resolves links against its directory's URL. A page without a
/// usable file name is titled `Markdown Reader`.
pub proof fn page_modes(mtime_millis: nat, preview_base: Seq<char>, name: Seq<char>)
    ensures
        page_scripts(false, mtime_millis) == COPY_SCRIPT@,
        page_scripts(true, mtime_millis) == COPY_SCRIPT@ + "\n"@ + LIVE_RELOAD_HEAD@ + decimal(
            mtime_millis,
        ) + LIVE_RELOAD_TAIL@,
        page_base(true, preview_base) == "/"@,
        page_base(false, preview_base) == preview_base,
        page_title(Some(name)) == name,
        page_title(None) == "Markdown Reader"@,
{
}

} // verus!
