use md_reader::base64::base64_encode;
use md_reader::html::{escape_html, sanitize_file_stem};
use md_reader::markdown::{highlight_code, reader_markdown_options, render_markdown};
use md_reader::math::{find_latex_delimiter, normalize_math_delimiters};
use md_reader::page::{
    document_html, is_stale_preview, markdown_text, PREVIEW_MAX_AGE_SECONDS, live_reload_script, page_script, preview_file_name, reader_css,
    render_document, COPY_SCRIPT,
};
use md_reader::url::{path_to_file_url, percent_decode_path, percent_encode_url_path};

/// A KaTeX style sheet in the shape of `katex.min.css`, with its font
/// references.
const KATEX_SAMPLE: &str = "@font-face{font-family:KaTeX_AMS;font-style:normal;font-weight:400;src:url(fonts/KaTeX_AMS-Regular.woff2) format(\"woff2\"),url(fonts/KaTeX_AMS-Regular.woff) format(\"woff\"),url(fonts/KaTeX_AMS-Regular.ttf) format(\"truetype\")}@font-face{font-family:KaTeX_Main;font-style:normal;font-weight:400;src:url(fonts/KaTeX_Main-Regular.woff2) format(\"woff2\"),url(fonts/KaTeX_Main-Regular.woff) format(\"woff\"),url(fonts/KaTeX_Main-Regular.ttf) format(\"truetype\")}.katex{font:normal 1.21em KaTeX_Main,Times New Roman,serif}";

const FONTS: &[(&str, &[u8])] = &[
    ("KaTeX_AMS-Regular.woff2", b"wOF2 ams"),
    ("KaTeX_Main-Regular.woff2", b"wOF2 main"),
];

fn css() -> String {
    reader_css(KATEX_SAMPLE, FONTS)
}

const MTIME: u128 = 1_723_456_789_012;

fn page(markdown: &str, serve: bool) -> String {
    let base = path_to_file_url("/tmp/md-reader-tests", false);
    render_document(markdown, Some("notes.md"), serve, MTIME, &base, &css())
}

#[test]
fn main_renders_common_markdown_extensions() {
    let html = render_markdown("| A | B |\n| - | - |\n| 1 | 2 |\n\n- [x] done\n\n~~old~~");

    assert!(html.contains("<table>"));
    assert!(html.contains("checked"));
    assert!(html.contains("<del>old</del>"));
}

#[test]
fn render_renders_common_markdown_extensions() {
    let html = render_markdown("| A | B |\n| - | - |\n| 1 | 2 |\n\n- [x] done\n\n~~old~~");

    assert!(html.contains("<table>"));
    assert!(html.contains("checked"));
    assert!(html.contains("<del>old</del>"));
}

const MATH_DOC: &str = r"The check digit is \(a_{18}\).

\[
(a_{18} + a_{17} \cdot 2 + a_1 \cdot 2^{17}) \bmod 11 = 1
\]

And $x^2$ is inline.";

#[test]
fn main_renders_latex_math_with_backslash_and_dollar_delimiters() {
    let html = render_markdown(MATH_DOC);

    assert!(html.contains("class=\"katex\""));
    assert!(html.contains("katex-display"));
    assert!(!html.contains(r"\["));
    assert!(!html.contains(r"\("));
}

#[test]
fn render_renders_latex_math_with_backslash_and_dollar_delimiters() {
    let html = render_markdown(MATH_DOC);

    assert!(html.contains("class=\"katex\""));
    assert!(html.contains("katex-display"));
    assert!(!html.contains(r"\["));
    assert!(!html.contains(r"\("));
}

#[test]
fn keeps_math_delimiters_literal_in_code_spans_of_any_length() {
    let html = render_markdown("`\\(a_i\\)` and ``\\(b_i\\)``");

    assert!(html.contains("<code>\\(a_i\\)</code>"));
    assert!(html.contains("<code>\\(b_i\\)</code>"));
}

#[test]
fn keeps_math_delimiters_literal_inside_tilde_fences() {
    let html = render_markdown("~~~tex\n\\[a_i\\]\n~~~");

    assert!(html.contains("<code class=\"language-tex\">\\[a_i\\]"));
}

#[test]
fn leaves_unmatched_backslash_delimiters_literal() {
    let html = render_markdown(r"open \( without a closer");

    assert!(!html.contains("class=\"katex\""));
    assert!(html.contains("open ( without a closer"));
}

#[test]
fn main_keeps_math_delimiters_literal_in_code() {
    let html = render_markdown("`\\(a_i\\)`\n\n```tex\n\\[a_i\\]\n```");

    assert!(html.contains("<code>\\(a_i\\)</code>"));
    assert!(html.contains("<code class=\"language-tex\">\\[a_i\\]"));
}

#[test]
fn render_keeps_math_delimiters_literal_in_code() {
    let html = render_markdown("`\\(a_i\\)`\n\n```tex\n\\[a_i\\]\n```");

    assert!(html.contains("<code>\\(a_i\\)</code>"));
    assert!(html.contains("<code class=\"language-tex\">\\[a_i\\]"));
}

#[test]
fn highlights_fenced_rust_code() {
    let html = render_markdown("```rust\nfn main() {}\n```");

    assert!(html.contains("class=\"lumis lumis-themes dark light\""));
    assert!(html.contains("<code class=\"language-rust\" translate=\"no\""));
}

#[test]
fn keeps_unmarked_code_blocks_plain() {
    let html = render_markdown("```\nplain text\n```");

    assert!(!html.contains("lumis"));
    assert!(html.contains("<pre><code>plain text"));
}

#[test]
fn keeps_unknown_language_code_blocks_plain() {
    let html = render_markdown("```notalanguage\nwhatever\n```");

    assert!(!html.contains("lumis"));
    assert!(html.contains("<pre><code class=\"language-notalanguage\">whatever"));
}

#[test]
fn keeps_plaintext_language_code_blocks_plain() {
    let html = render_markdown("```text\nplain\n```");

    assert!(!html.contains("lumis"));
}

#[test]
fn highlight_code_declines_plain_and_unknown_languages() {
    assert_eq!(highlight_code("", "x"), None);
    assert_eq!(highlight_code("notalanguage", "x"), None);
    let rust = highlight_code("rust", "fn main() {}").unwrap();
    assert!(rust.starts_with("<pre class=\"lumis"));
    assert!(rust.contains("main"));
}

#[test]
fn math_errors_are_shown_in_the_page() {
    let html = render_markdown(r"$\frac{1}$");

    assert!(html.contains("katex-error"));
}

#[test]
fn normalizes_backslash_delimiters_outside_code() {
    assert_eq!(normalize_math_delimiters(r"a \(x\) b \[y\] c"), "a $x$ b $$y$$ c");
    assert_eq!(normalize_math_delimiters("no math here\n"), "no math here\n");
    assert_eq!(
        normalize_math_delimiters("```\n\\(x\\)\n```\n\\(y\\)"),
        "```\n\\(x\\)\n```\n$y$"
    );
    assert_eq!(normalize_math_delimiters(r"`\(x\)` \(y\)"), r"`\(x\)` $y$");
    assert_eq!(normalize_math_delimiters(r"\(a `\)` b\)"), r"$a `\)` b$");
    assert_eq!(normalize_math_delimiters(r"\( open"), r"\( open");
    assert_eq!(normalize_math_delimiters("ü \\(é\\)"), "ü $é$");
}

#[test]
fn main_embeds_katex_fonts_for_offline_previews() {
    let css = css();

    assert!(css.contains("data:font/woff2;base64,"));
    assert!(!css.contains("url(fonts/"));
}

#[test]
fn render_embeds_katex_fonts_for_offline_previews() {
    let css = css();

    assert!(css.contains("data:font/woff2;base64,"));
    assert!(!css.contains("url(fonts/"));
}

#[test]
fn embedded_fonts_replace_the_references() {
    let css = css();
    let ams = format!("url(data:font/woff2;base64,{})", base64_encode(b"wOF2 ams"));

    assert!(css.starts_with(&format!(
        "@font-face{{font-family:KaTeX_AMS;font-style:normal;font-weight:400;src:{ams} format(\"woff2\")}}"
    )));
    assert!(css.contains(".katex{font:normal 1.21em KaTeX_Main,Times New Roman,serif}\n"));
}

#[test]
fn main_encodes_base64() {
    assert_eq!(base64_encode(b"Man"), "TWFu");
    assert_eq!(base64_encode(b"Ma"), "TWE=");
    assert_eq!(base64_encode(b"M"), "TQ==");
}

#[test]
fn render_encodes_base64() {
    assert_eq!(base64_encode(b"Man"), "TWFu");
    assert_eq!(base64_encode(b"Ma"), "TWE=");
    assert_eq!(base64_encode(b"M"), "TQ==");
}

#[test]
fn base64_handles_empty_and_long_inputs() {
    assert_eq!(base64_encode(b""), "");
    assert_eq!(base64_encode(b"any carnal pleasure."), "YW55IGNhcm5hbCBwbGVhc3VyZS4=");
    assert_eq!(base64_encode(&[0xff, 0xfe, 0xfd, 0x00]), "//79AA==");
}

#[test]
fn main_escapes_html_for_titles() {
    assert_eq!(escape_html("a&b<c>\"'"), "a&amp;b&lt;c&gt;&quot;&#39;");
}

#[test]
fn render_escapes_html_for_titles() {
    assert_eq!(escape_html("a&b<c>\"'"), "a&amp;b&lt;c&gt;&quot;&#39;");
}

#[test]
fn escaping_keeps_other_text() {
    assert_eq!(escape_html("&amp;"), "&amp;amp;");
    assert_eq!(escape_html("plain ü text"), "plain ü text");
}

#[test]
fn main_sanitizes_preview_file_stems() {
    assert_eq!(sanitize_file_stem("daily notes"), "daily-notes");
    assert_eq!(sanitize_file_stem("!!!"), "preview");
}

#[test]
fn render_sanitizes_preview_file_stems() {
    assert_eq!(sanitize_file_stem("daily notes"), "daily-notes");
    assert_eq!(sanitize_file_stem("!!!"), "preview");
}

#[test]
fn sanitizing_trims_dashes_and_is_idempotent() {
    assert_eq!(sanitize_file_stem("--a b--"), "a-b");
    assert_eq!(sanitize_file_stem("ünï"), "n");
    assert_eq!(sanitize_file_stem(""), "preview");
    assert_eq!(sanitize_file_stem(&sanitize_file_stem("x y!")), "x-y");
}

#[test]
fn preview_file_names_use_the_stem_and_process_id() {
    assert_eq!(preview_file_name(Some("daily notes"), 4242), "daily-notes-4242.html");
    assert_eq!(preview_file_name(None, 7), "preview-7.html");
}

#[test]
fn main_percent_encodes_file_urls() {
    assert_eq!(
        percent_encode_url_path("file:///tmp/my notes/"),
        "file:///tmp/my%20notes/"
    );
}

#[test]
fn render_percent_encodes_file_urls() {
    assert_eq!(
        percent_encode_url_path("file:///tmp/my notes/"),
        "file:///tmp/my%20notes/"
    );
}

#[test]
fn percent_encoding_round_trips() {
    let text = "/tmp/ünï code/a+b%c";
    let encoded = percent_encode_url_path(text);
    assert_eq!(encoded, "/tmp/%C3%BCn%C3%AF%20code/a%2Bb%25c");
    assert_eq!(percent_decode_path(&encoded), text);
    assert_eq!(percent_decode_path("%zz%4"), "%zz%4");
    assert_eq!(percent_decode_path("%ff"), "\u{FFFD}");
}

#[test]
fn base_hrefs_are_directory_file_urls() {
    assert_eq!(path_to_file_url("/tmp/my notes", false), "file:///tmp/my%20notes/");
    assert_eq!(path_to_file_url("/", false), "file:///");
    assert_eq!(path_to_file_url("C:\\Users\\me", true), "file:///C:/Users/me/");
    assert_eq!(path_to_file_url("/tmp/", false), "file:///tmp/");
}

#[test]
fn main_serve_html_embeds_live_reload_script() {
    let html = page("hello", true);

    assert!(html.contains("setInterval"));
    assert!(html.contains("/refresh"));
    assert!(html.contains(&format!("var current = \"{MTIME}\"")));
}

#[test]
fn render_serve_html_embeds_live_reload_script() {
    let html = page("hello", true);

    assert!(html.contains("setInterval"));
    assert!(html.contains("/refresh"));
    assert!(html.contains(&format!("var current = \"{MTIME}\"")));
}

#[test]
fn main_preview_html_does_not_embed_live_reload_script() {
    let html = page("hello", false);

    assert!(!html.contains("setInterval"));
    assert!(!html.contains("/refresh"));
}

#[test]
fn render_preview_html_does_not_embed_live_reload_script() {
    let html = page("hello", false);

    assert!(!html.contains("setInterval"));
    assert!(!html.contains("/refresh"));
}

#[test]
fn serve_html_uses_server_root_as_base_href() {
    let html = page("hello", true);

    assert!(html.contains("<base href=\"/\">"));
}

#[test]
fn preview_html_uses_file_url_as_base_href() {
    let html = page("hello", false);

    assert!(html.contains("<base href=\"file://"));
}

#[test]
fn html_includes_an_inline_favicon() {
    let html = page("hello", false);

    assert!(html.contains("rel=\"icon\""));
    assert!(html.contains("data:image/svg+xml"));
}

#[test]
fn both_modes_embed_the_copy_script_once() {
    let preview = page("hello", false);
    let served = page("hello", true);

    assert_eq!(preview.matches("Copied ✓").count(), 1);
    assert_eq!(served.matches("Copied ✓").count(), 1);
}

#[test]
fn copy_script_excludes_the_copy_button_text() {
    assert!(COPY_SCRIPT.contains(r#"var text = code.innerText;"#));
    assert!(!COPY_SCRIPT.contains(r#"var text = pre.innerText;"#));
}

#[test]
fn reader_css_styles_katex_errors() {
    let css = css();

    assert!(css.contains(".katex-error"));
    assert!(css.contains(".code-copy"));
}

#[test]
fn renders_files_with_invalid_utf8_lossily() {
    let bytes: &[u8] = b"plain \xff\xfe bytes";
    let markdown = markdown_text(bytes);
    let base = path_to_file_url("/tmp", false);

    let html = render_document(&markdown, Some("binary.md"), false, 0, &base, &css());

    assert!(html.contains('\u{FFFD}'));
}

#[test]
fn titles_are_escaped_and_default_to_markdown_reader() {
    let html = render_document("x", Some("a<b>.md"), false, 0, "file:///tmp/", "");
    assert!(html.contains("<title>a&lt;b&gt;.md</title>"));
    assert!(html.contains("title=\"a&lt;b&gt;.md\">a&lt;b&gt;.md</div>"));

    let html = render_document("x", None, false, 0, "file:///tmp/", "");
    assert!(html.contains("<title>Markdown Reader</title>"));
}

#[test]
fn documents_wrap_body_style_and_scripts() {
    let html = document_html("t", "/", "CSS", "<p>BODY</p>", "SCRIPT");
    assert!(html.starts_with("<!doctype html>\n<html lang=\"en\">\n<head>\n"));
    assert!(html.contains("<style>CSS</style>"));
    assert!(html.contains("<article class=\"markdown-body\">\n      <p>BODY</p>\n    </article>"));
    assert!(html.ends_with("  SCRIPT\n</body>\n</html>"));
}

#[test]
fn scripts_depend_on_the_mode() {
    assert_eq!(page_script(false, 5), COPY_SCRIPT);
    assert_eq!(page_script(true, 5), format!("{COPY_SCRIPT}\n{}", live_reload_script(5)));
    assert!(live_reload_script(42).contains("var current = \"42\";"));
}

#[test]
fn parses_with_the_documented_extensions() {
    // tables, footnotes, strikethrough, task lists, heading attributes, math
    assert_eq!(reader_markdown_options(), 2 | 4 | 8 | 16 | 64 | 1024);
}

#[test]
fn plain_documents_render_as_parsed() {
    assert_eq!(
        render_markdown("# Title {#top}\n\nSome *text*.\n"),
        "<h1 id=\"top\">Title</h1>\n<p>Some <em>text</em>.</p>\n"
    );
}

const HOUR_NANOS: u128 = 3600 * 1_000_000_000;

#[test]
fn cleanup_removes_stale_preview_files_but_keeps_fresh_ones() {
    // a file backdated by two days against a maximum age of one day
    assert!(is_stale_preview(48 * HOUR_NANOS, 24 * HOUR_NANOS, true));
    // a file written just now
    assert!(!is_stale_preview(1_000_000, 24 * HOUR_NANOS, true));
    assert!(!is_stale_preview(24 * HOUR_NANOS, 24 * HOUR_NANOS, true));
}

#[test]
fn cleanup_only_removes_files_not_directories() {
    assert!(!is_stale_preview(1, 0, false));
    assert!(!is_stale_preview(48 * HOUR_NANOS, 0, false));
}

#[test]
fn only_open_delimiters_are_rewritten() {
    let text = "a \\alpha \\) b \\] c\n```\n\\(x\\)\n```\n";
    assert_eq!(normalize_math_delimiters(text), text);
}

#[test]
fn closing_delimiter_is_the_first_outside_code() {
    let chars: Vec<char> = r"x `\)` y \) z \)".chars().collect();
    assert_eq!(find_latex_delimiter(&chars, 0, ')'), Some(9));
    let chars: Vec<char> = r"x `\)` y".chars().collect();
    assert_eq!(find_latex_delimiter(&chars, 0, ')'), None);
    let chars: Vec<char> = r"\]".chars().collect();
    assert_eq!(find_latex_delimiter(&chars, 0, ')'), None);
}

#[test]
fn escaping_writes_entities_and_keeps_plain_text() {
    assert_eq!(escape_html("plain text"), "plain text");
    assert_eq!(escape_html("&lt;"), "&amp;lt;");
}

#[test]
fn stems_without_name_characters_become_preview() {
    assert_eq!(sanitize_file_stem("café"), "caf");
    assert_eq!(sanitize_file_stem("éé ü"), "preview");
}

#[test]
fn base64_pads_at_the_end_and_concatenates() {
    assert_eq!(base64_encode(b""), "");
    assert_eq!(base64_encode(b"\xff\xff\xff"), "////");
    assert_eq!(base64_encode(b"foobar"), "Zm9vYmFy");
    assert_eq!(base64_encode(b"foobar"), base64_encode(b"foo") + &base64_encode(b"bar"));
    assert_eq!(base64_encode(b"fooba"), "Zm9vYmE=");
    assert_eq!(base64_encode(b"foob"), "Zm9vYg==");
}

#[test]
fn previews_are_kept_for_a_day() {
    assert_eq!(PREVIEW_MAX_AGE_SECONDS, 24 * 60 * 60);
}
