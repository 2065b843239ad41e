//! Markdown to HTML: parsing and HTML output by pulldown-cmark, math by
//! KaTeX, code highlighting by lumis, and the event rewriting between them.

use vstd::prelude::*;
use std::collections::HashMap;
use katex::{render_to_string, KatexContext, Settings};
use lumis::formatters::Formatter;
use lumis::formatters::html_multi_themes::HtmlMultiThemesBuilder;
use lumis::languages::Language;
use lumis::themes;
use pulldown_cmark::{html, Event, Options, Parser, Tag, TagEnd};
use pulldown_cmark::CodeBlockKind::{Fenced, Indented};
use pulldown_cmark::Event::{DisplayMath, End, Html, InlineMath, Start, Text};
use vstd::utf8::{decode_utf8, valid_utf8};
use crate::html::{escape_html, escaped};

verus! {

/// pulldown-cmark's `Event`, carried through opaque.
#[verifier::external_type_specification]
#[verifier::external_body]
pub struct ExCmarkEvent<'a>(Event<'a>);

/// KaTeX's `KatexContext`, carried through opaque.
#[verifier::external_type_specification]
#[verifier::external_body]
pub struct ExKatexContext(KatexContext);

/// KaTeX's `Settings`, carried through opaque.
#[verifier::external_type_specification]
#[verifier::external_body]
pub struct ExKatexSettings(Settings);

/// std's `FromUtf8Error`, the error of `String::from_utf8`, carried
/// through opaque.
#[verifier::external_type_specification]
#[verifier::external_body]
pub struct ExFromUtf8Error(std::string::FromUtf8Error);

/// `String::from_utf8` succeeds exactly on valid UTF-8 and then holds the
/// decoded characters.
pub assume_specification[ String::from_utf8 ](vec: Vec<u8>) -> (res: Result<
    String,
    std::string::FromUtf8Error,
>)
    ensures
        res is Ok <==> valid_utf8(vec@),
        res matches Ok(s) ==> s@ == decode_utf8(vec@),
;

/// A Markdown extension that a parse can enable.
#[derive(Clone, Copy)]
pub enum MarkdownExtension {
    Footnotes,
    Strikethrough,
    Tables,
    Tasklists,
    HeadingAttributes,
    Math,
}

/// A parse event, with the events that rendering rewrites told apart and
/// every other event carried unchanged.
pub enum MarkdownEvent {
    /// The start of a code block: the info string after its opening fence,
    /// or `None` for an indented block.
    CodeBlockStart(Option<String>),
    CodeBlockEnd,
    Text(String),
    InlineMath(String),
    DisplayMath(String),
    Html(String),
    Other(Event<'static>),
}

pub enum EventView {
    CodeBlockStart(Option<Seq<char>>),
    CodeBlockEnd,
    Text(Seq<char>),
    InlineMath(Seq<char>),
    DisplayMath(Seq<char>),
    Html(Seq<char>),
    Other(Event<'static>),
}

pub open spec fn option_view(o: Option<String>) -> Option<Seq<char>> {
    match o {
        Some(s) => Some(s@),
        None => None,
    }
}

impl View for MarkdownEvent {
    type V = EventView;

    open spec fn view(&self) -> EventView {
        match self {
            MarkdownEvent::CodeBlockStart(info) => EventView::CodeBlockStart(option_view(*info)),
            MarkdownEvent::CodeBlockEnd => EventView::CodeBlockEnd,
            MarkdownEvent::Text(t) => EventView::Text(t@),
            MarkdownEvent::InlineMath(f) => EventView::InlineMath(f@),
            MarkdownEvent::DisplayMath(f) => EventView::DisplayMath(f@),
            MarkdownEvent::Html(h) => EventView::Html(h@),
            MarkdownEvent::Other(e) => EventView::Other(*e),
        }
    }
}

pub open spec fn event_views(events: Seq<MarkdownEvent>) -> Seq<EventView> {
    events.map_values(|e: MarkdownEvent| e@)
}

/// The bit of pulldown-cmark's `Options` flag for an extension.
pub open spec fn extension_flag(extension: MarkdownExtension) -> u32 {
    match extension {
        MarkdownExtension::Tables => 2,
        MarkdownExtension::Footnotes => 4,
        MarkdownExtension::Strikethrough => 8,
        MarkdownExtension::Tasklists => 16,
        MarkdownExtension::HeadingAttributes => 64,
        MarkdownExtension::Math => 1024,
    }
}

/// The events pulldown-cmark parses from `markdown` with the `Options`
/// whose bits are `options`.
pub uninterp spec fn cmark_events(markdown: Seq<char>, options: u32) -> Seq<EventView>;

/// The HTML pulldown-cmark writes for `events`.
pub uninterp spec fn cmark_html(events: Seq<EventView>) -> Seq<char>;

/// The language id lumis guesses for a code block's info string, with
/// `None` for plain text.
pub uninterp spec fn lumis_language(info: Seq<char>) -> Option<Seq<char>>;

/// The bytes lumis writes for `code` in the language `language`, with two
/// named themes and a default one, or `None` when a step fails.
pub uninterp spec fn lumis_html(
    language: Seq<char>,
    code: Seq<char>,
    light_key: Seq<char>,
    light_theme: Seq<char>,
    dark_key: Seq<char>,
    dark_theme: Seq<char>,
    default_key: Seq<char>,
) -> Option<Seq<u8>>;

/// The bits of the pulldown-cmark `Options` constant that enables
/// `extension`. Claims that they are `extension_flag` of it, the values the
/// constants are declared with.
#[verifier::external_body]
fn extension_bits(extension: MarkdownExtension) -> (bits: u32)
    ensures
        bits == extension_flag(extension),
{
    match extension {
        MarkdownExtension::Footnotes => Options::ENABLE_FOOTNOTES.bits(),
        MarkdownExtension::Strikethrough => Options::ENABLE_STRIKETHROUGH.bits(),
        MarkdownExtension::Tables => Options::ENABLE_TABLES.bits(),
        MarkdownExtension::Tasklists => Options::ENABLE_TASKLISTS.bits(),
        MarkdownExtension::HeadingAttributes => Options::ENABLE_HEADING_ATTRIBUTES.bits(),
        MarkdownExtension::Math => Options::ENABLE_MATH.bits(),
    }
}

/// Parses `markdown` with pulldown-cmark's `Parser::new_ext` and the
/// `Options` with the given bits. Claims only that the events are
/// `cmark_events` of the text and the bits: each pulldown-cmark event
/// converted one for one.
#[verifier::external_body]
fn parse_markdown(markdown: &str, options: u32) -> (events: Vec<MarkdownEvent>)
    ensures
        event_views(events@) == cmark_events(markdown@, options),
{
    Parser::new_ext(markdown, Options::from_bits_truncate(options)).map(|event| match event {
        Start(Tag::CodeBlock(Indented)) => MarkdownEvent::CodeBlockStart(None),
        Start(Tag::CodeBlock(Fenced(info))) => MarkdownEvent::CodeBlockStart(Some(info.into())),
        End(TagEnd::CodeBlock) => MarkdownEvent::CodeBlockEnd,
        Text(text) => MarkdownEvent::Text(text.into()),
        InlineMath(formula) => MarkdownEvent::InlineMath(formula.into()),
        DisplayMath(formula) => MarkdownEvent::DisplayMath(formula.into()),
        other => MarkdownEvent::Other(other.into_static()),
    }).collect()
}

/// Writes `events` as HTML with pulldown-cmark's `html::push_html`, each
/// event converted back one for one. Claims only that the HTML is
/// `cmark_html` of the events.
#[verifier::external_body]
fn push_html(events: Vec<MarkdownEvent>) -> (out: String)
    ensures
        out@ == cmark_html(event_views(events@)),
{
    let mut out = String::new();
    html::push_html(&mut out, events.into_iter().map(|event| match event {
        MarkdownEvent::CodeBlockStart(None) => Start(Tag::CodeBlock(Indented)),
        MarkdownEvent::CodeBlockStart(Some(info)) => Start(Tag::CodeBlock(Fenced(info.into()))),
        MarkdownEvent::CodeBlockEnd => End(TagEnd::CodeBlock),
        MarkdownEvent::Text(text) => Text(text.into()),
        MarkdownEvent::InlineMath(formula) => InlineMath(formula.into()),
        MarkdownEvent::DisplayMath(formula) => DisplayMath(formula.into()),
        MarkdownEvent::Html(html) => Html(html.into()),
        MarkdownEvent::Other(event) => event,
    }));
    out
}

/// A default `KatexContext`. Nothing is claimed of it.
#[verifier::external_body]
fn katex_context() -> KatexContext {
    KatexContext::default()
}

/// Whether `outcome`, the markup or the error message, is an answer that
/// KaTeX's `render_to_string` may give for `formula` with display mode
/// `display_mode` and error policy `throw_on_error` (off: a bad formula is
/// rendered in place rather than returned as an error). It is a relation
/// and not a
/// function: the settings keep a table of macros that formulas rendered
/// earlier with them may have defined (`\gdef`), so one formula may get
/// different answers in one document.
pub uninterp spec fn katex_may_answer(
    formula: Seq<char>,
    display_mode: bool,
    throw_on_error: bool,
    outcome: Result<Seq<char>, Seq<char>>,
) -> bool;

/// KaTeX settings for one kind of formula, kept for a whole document so
/// that macros defined by one formula reach the later ones. Only
/// `katex_settings` makes one, so `display` and `throw` are always the
/// display mode and error policy the KaTeX settings were made with.
pub struct MathSettings {
    settings: Settings,
    display: bool,
    throw: bool,
}

impl MathSettings {
    /// Whether formulas are rendered in display mode.
    pub closed spec fn display_mode(&self) -> bool {
        self.display
    }

    /// Whether KaTeX returns a bad formula as an error instead of
    /// rendering it in place.
    pub closed spec fn throw_on_error(&self) -> bool {
        self.throw
    }
}

/// KaTeX `Settings` with the given display mode and error policy and the
/// defaults otherwise. Claims that the result records both.
#[verifier::external_body]
fn katex_settings(display_mode: bool, throw_on_error: bool) -> (s: MathSettings)
    ensures
        s.display_mode() == display_mode,
        s.throw_on_error() == throw_on_error,
{
    MathSettings {
        settings: Settings { display_mode, throw_on_error, ..Settings::default() },
        display: display_mode,
        throw: throw_on_error,
    }
}

/// Renders `formula` with KaTeX's `render_to_string` and the given
/// settings, an error as its message. Claims that the outcome is one KaTeX
/// may give for this formula in the settings' display mode and error policy
/// (`katex_may_answer`); which one depends on the macros earlier renders
/// left in the settings, and is left unsaid.
#[verifier::external_body]
fn katex_render(context: &KatexContext, formula: &str, settings: &MathSettings) -> (res: Result<
    String,
    String,
>)
    ensures
        katex_may_answer(
            formula@,
            settings.display_mode(),
            settings.throw_on_error(),
            outcome_view(res),
        ),
{
    render_to_string(context, formula, &settings.settings).map_err(|error| error.to_string())
}

/// The language lumis's `Language::guess` picks for the info string `info`
/// (with no source text to inspect), by its id, or `None` when it picks
/// plain text. Claims that the answer is `lumis_language` of the info string,
/// and, as the source shows (an empty name parses as plain text), that an
/// empty info string is plain text.
#[verifier::external_body]
fn guess_language(info: &str) -> (res: Option<String>)
    ensures
        option_view(res) == lumis_language(info@),
        info@.len() == 0 ==> res is None,
{
    match Language::guess(Some(info), "") {
        Language::PlainText => None,
        language => Some(language.id_name().to_string()),
    }
}

/// Highlights `code` with lumis's multi-theme HTML formatter: the language
/// parsed from its id, two themes from `themes::get` under the given keys,
/// the default theme key, then `Formatter::format`. Claims that the bytes,
/// or `None` when a step fails, are `lumis_html` of the arguments.
#[verifier::external_body]
fn lumis_format(
    language: &str,
    code: &str,
    light_key: &str,
    light_theme: &str,
    dark_key: &str,
    dark_theme: &str,
    default_key: &str,
) -> (res: Option<Vec<u8>>)
    ensures
        match res {
            Some(bytes) => lumis_html(language@, code@, light_key@, light_theme@, dark_key@, dark_theme@, default_key@) == Some(bytes@),
            None => lumis_html(language@, code@, light_key@, light_theme@, dark_key@, dark_theme@, default_key@) is None,
        },
{
    let language: Language = language.parse().ok()?;
    let mut theme_map = HashMap::new();
    theme_map.insert(light_key.to_string(), themes::get(light_theme).ok()?);
    theme_map.insert(dark_key.to_string(), themes::get(dark_theme).ok()?);
    let mut builder = HtmlMultiThemesBuilder::new();
    builder.language(language).themes(theme_map).default_theme(default_key);
    let formatter = builder.build().ok()?;
    let mut output = Vec::new();
    formatter.format(code, &mut output).ok()?;
    Some(output)
}

/// The pulldown-cmark options the reader parses with: footnotes,
/// strikethrough, tables, task lists, heading attributes and math.
pub open spec fn reader_options() -> u32 {
    extension_flag(MarkdownExtension::Footnotes) | extension_flag(MarkdownExtension::Strikethrough)
        | extension_flag(MarkdownExtension::Tables) | extension_flag(MarkdownExtension::Tasklists)
        | extension_flag(MarkdownExtension::HeadingAttributes) | extension_flag(
        MarkdownExtension::Math,
    )
}

/// The bits of the options the reader parses with.
pub fn reader_markdown_options() -> (bits: u32)
    ensures
        bits == reader_options(),
{
    extension_bits(MarkdownExtension::Footnotes) | extension_bits(MarkdownExtension::Strikethrough)
        | extension_bits(MarkdownExtension::Tables) | extension_bits(MarkdownExtension::Tasklists)
        | extension_bits(MarkdownExtension::HeadingAttributes) | extension_bits(
        MarkdownExtension::Math,
    )
}

/// The HTML for a formula given KaTeX's outcome: the rendered markup, or a
/// `katex-error` span titled with the escaped message around the escaped
/// formula.
pub open spec fn math_markup(outcome: Result<Seq<char>, Seq<char>>, formula: Seq<char>) -> Seq<
    char,
> {
    match outcome {
        Ok(markup) => markup,
        Err(message) => "<span class=\"katex-error\" title=\""@ + escaped(message) + "\">"@
            + escaped(formula) + "</span>"@,
    }
}

pub open spec fn outcome_view(outcome: Result<String, String>) -> Result<Seq<char>, Seq<char>> {
    match outcome {
        Ok(s) => Ok(s@),
        Err(s) => Err(s@),
    }
}

/// The HTML for `formula` given the outcome of rendering it with KaTeX:
/// see `math_markup`.
pub fn math_markup_for(outcome: Result<String, String>, formula: &str) -> (out: String)
    ensures
        out@ == math_markup(outcome_view(outcome), formula@),
{
    match outcome {
        Ok(markup) => markup,
        Err(message) => {
            let mut out = String::new();
            out.push_str("<span class=\"katex-error\" title=\"");
            out.push_str(escape_html(message.as_str()).as_str());
            out.push_str("\">");
            out.push_str(escape_html(formula).as_str());
            out.push_str("</span>");
            out
        },
    }
}

/// Renders `formula` with KaTeX and returns its HTML, a visible error span
/// when KaTeX fails; the ghost part is what KaTeX answered for this formula
/// in the settings' display mode and error policy.
pub fn render_math(context: &KatexContext, formula: &str, settings: &MathSettings) -> (res: (
    String,
    Ghost<Result<Seq<char>, Seq<char>>>,
))
    ensures
        katex_may_answer(formula@, settings.display_mode(), settings.throw_on_error(), res.1@),
        res.0@ == math_markup(res.1@, formula@),
{
    let outcome = katex_render(context, formula, settings);
    let ghost g = outcome_view(outcome);
    (math_markup_for(outcome, formula), Ghost(g))
}

/// The HTML lumis writes for a code block whose info string is `lang`:
/// `None` when lumis reads the language as plain text, when a highlighting
/// step fails, or when its output is not UTF-8.
pub open spec fn highlighted_code(lang: Seq<char>, code: Seq<char>) -> Option<Seq<char>> {
    match lumis_language(lang) {
        None => None,
        Some(id) => match lumis_html(
            id,
            code,
            "light"@,
            "github_light"@,
            "dark"@,
            "github_dark"@,
            "light"@,
        ) {
            None => None,
            Some(bytes) => if valid_utf8(bytes) {
                Some(decode_utf8(bytes))
            } else {
                None
            },
        },
    }
}

/// Syntax-highlights a fenced code block with lumis's GitHub light and dark
/// themes, the light one by default; `None` when the language is plain text
/// or unknown or highlighting fails, so that the caller falls back to a
/// plain code block.
pub fn highlight_code(lang: &str, code: &str) -> (res: Option<String>)
    ensures
        option_view(res) == highlighted_code(lang@, code@),
        lang@.len() == 0 ==> res is None,
{
    let language = match guess_language(lang) {
        Some(id) => id,
        None => {
            return None;
        },
    };
    let bytes = match lumis_format(
        language.as_str(),
        code,
        "light",
        "github_light",
        "dark",
        "github_dark",
        "light",
    ) {
        Some(bytes) => bytes,
        None => {
            return None;
        },
    };
    match String::from_utf8(bytes) {
        Ok(html) => Some(html),
        Err(_) => None,
    }
}

/// The events after each inline and display formula has been replaced by
/// its HTML, `outcomes` being KaTeX's answers for the formulas in order.
pub open spec fn math_pass(events: Seq<EventView>, outcomes: Seq<Result<Seq<char>, Seq<char>>>) -> Seq<
    EventView,
>
    decreases events.len(),
{
    if events.len() == 0 {
        seq![]
    } else {
        match events.last() {
            EventView::InlineMath(f) => math_pass(events.drop_last(), outcomes.drop_last()).push(
                EventView::Html(math_markup(outcomes.last(), f)),
            ),
            EventView::DisplayMath(f) => math_pass(events.drop_last(), outcomes.drop_last()).push(
                EventView::Html(math_markup(outcomes.last(), f)),
            ),
            e => math_pass(events.drop_last(), outcomes).push(e),
        }
    }
}

/// Whether `outcomes` are answers KaTeX may give for the formulas of
/// `events`, one per formula in order: inline formulas in text mode,
/// display formulas in display mode, bad formulas rendered in place.
pub open spec fn katex_answers(events: Seq<EventView>, outcomes: Seq<Result<Seq<char>, Seq<char>>>) -> bool
    decreases events.len(),
{
    if events.len() == 0 {
        outcomes.len() == 0
    } else {
        match events.last() {
            EventView::InlineMath(f) => outcomes.len() > 0 && katex_may_answer(f, false, false, outcomes.last())
                && katex_answers(events.drop_last(), outcomes.drop_last()),
            EventView::DisplayMath(f) => outcomes.len() > 0 && katex_may_answer(f, true, false, outcomes.last())
                && katex_answers(events.drop_last(), outcomes.drop_last()),
            _ => katex_answers(events.drop_last(), outcomes),
        }
    }
}

/// Number of formulas among `events`.
pub open spec fn math_count(events: Seq<EventView>) -> nat
    decreases events.len(),
{
    if events.len() == 0 {
        0
    } else if is_math(events.last()) {
        math_count(events.drop_last()) + 1
    } else {
        math_count(events.drop_last())
    }
}

proof fn lemma_math_count_prefix(events: Seq<EventView>, i: int)
    requires
        0 <= i < events.len(),
        is_math(events[i]),
    ensures
        math_count(events.take(i)) < math_count(events),
    decreases events.len(),
{
    let n = events.len() - 1;
    if i == n {
        assert(events.take(i) =~= events.drop_last());
    } else {
        let rest = events.drop_last();
        assert(rest[i] == events[i]);
        lemma_math_count_prefix(rest, i);
        assert(rest.take(i) =~= events.take(i));
    }
}

/// Each formula is answered once, in order, and with the display mode its
/// kind asks for: the formula at `events[i]` is the `k`-th, `k` being the
/// number of formulas before it, and its answer `outcomes[k]` is one KaTeX
/// gives for it with display mode off for an inline formula and on for a
/// display formula, and errors rendered in place for both.
pub proof fn formulas_are_rendered_in_their_own_mode(
    events: Seq<EventView>,
    outcomes: Seq<Result<Seq<char>, Seq<char>>>,
)
    requires
        katex_answers(events, outcomes),
    ensures
        outcomes.len() == math_count(events),
        forall|i: int|
            0 <= i < events.len() && #[trigger] events[i] is InlineMath ==> katex_may_answer(
                events[i]->InlineMath_0,
                false,
                false,
                outcomes[math_count(events.take(i)) as int],
            ),
        forall|i: int|
            0 <= i < events.len() && #[trigger] events[i] is DisplayMath ==> katex_may_answer(
                events[i]->DisplayMath_0,
                true,
                false,
                outcomes[math_count(events.take(i)) as int],
            ),
    decreases events.len(),
{
    if events.len() > 0 {
        let n = events.len() - 1;
        let rest = events.drop_last();
        let o = if is_math(events.last()) {
            outcomes.drop_last()
        } else {
            outcomes
        };
        formulas_are_rendered_in_their_own_mode(rest, o);
        assert(events.take(n) =~= rest);
        assert forall|i: int| 0 <= i < events.len() && is_math(#[trigger] events[i]) implies {
            let k = math_count(events.take(i)) as int;
            &&& 0 <= k < outcomes.len()
            &&& (events[i] is InlineMath ==> katex_may_answer(events[i]->InlineMath_0, false, false, outcomes[k]))
            &&& (events[i] is DisplayMath ==> katex_may_answer(events[i]->DisplayMath_0, true, false, outcomes[k]))
        } by {
            lemma_math_count_prefix(events, i);
            if i < n {
                assert(events.take(i) =~= rest.take(i));
                assert(events[i] == rest[i]);
                lemma_math_count_prefix(rest, i);
                assert(o[math_count(rest.take(i)) as int] == outcomes[math_count(rest.take(i)) as int]);
            }
        }
    }
}

/// Where the code-block pass stands: outside code blocks, or inside one
/// with its info string and the text read so far.
pub enum BlockState {
    Outside,
    Inside(Option<Seq<char>>, Seq<char>),
}

/// The events that stand for a code block: lumis's HTML when it highlights
/// the block, else the block rebuilt from its info string and text.
pub open spec fn code_block_events(info: Option<Seq<char>>, text: Seq<char>) -> Seq<EventView> {
    let lang = match info {
        Some(i) => i,
        None => seq![],
    };
    match highlighted_code(lang, text) {
        Some(markup) => seq![EventView::Html(markup)],
        None => seq![EventView::CodeBlockStart(info), EventView::Text(text), EventView::CodeBlockEnd],
    }
}

/// The code-block pass from `pos` on: each code block becomes one block of
/// `code_block_events` built from its text events (other events inside a
/// block are dropped); a block left open at the end is closed.
pub open spec fn collapse_blocks(
    events: Seq<EventView>,
    pos: int,
    state: BlockState,
    out: Seq<EventView>,
) -> Seq<EventView>
    decreases events.len() - pos,
{
    if pos < 0 || pos >= events.len() {
        match state {
            BlockState::Outside => out,
            BlockState::Inside(info, text) => out + code_block_events(info, text),
        }
    } else {
        match state {
            BlockState::Outside => match events[pos] {
                EventView::CodeBlockStart(info) => collapse_blocks(
                    events,
                    pos + 1,
                    BlockState::Inside(info, seq![]),
                    out,
                ),
                e => collapse_blocks(events, pos + 1, BlockState::Outside, out.push(e)),
            },
            BlockState::Inside(info, text) => match events[pos] {
                EventView::Text(t) => collapse_blocks(
                    events,
                    pos + 1,
                    BlockState::Inside(info, text + t),
                    out,
                ),
                EventView::CodeBlockEnd => collapse_blocks(
                    events,
                    pos + 1,
                    BlockState::Outside,
                    out + code_block_events(info, text),
                ),
                _ => collapse_blocks(events, pos + 1, state, out),
            },
        }
    }
}

/// Whether `outcomes` are answers KaTeX may give for the formulas of the
/// document `markdown`, after its delimiters are rewritten and it is parsed.
pub open spec fn document_katex_answers(
    markdown: Seq<char>,
    outcomes: Seq<Result<Seq<char>, Seq<char>>>,
) -> bool {
    katex_answers(cmark_events(crate::math::math_normalized(markdown), reader_options()), outcomes)
}

/// The HTML of a Markdown document: delimiters rewritten, parsed with the
/// reader's options, formulas rendered (`outcomes` being KaTeX's answers),
/// code blocks highlighted, and written out by pulldown-cmark.
pub open spec fn rendered_markdown(
    markdown: Seq<char>,
    outcomes: Seq<Result<Seq<char>, Seq<char>>>,
) -> Seq<char> {
    cmark_html(
        collapse_blocks(
            math_pass(cmark_events(crate::math::math_normalized(markdown), reader_options()), outcomes),
            0,
            BlockState::Outside,
            seq![],
        ),
    )
}

/// Whether `e` is an inline or display formula.
pub open spec fn is_math(e: EventView) -> bool {
    e is InlineMath || e is DisplayMath
}

/// Events without formulas pass the math pass unchanged, whatever KaTeX
/// would have answered.
pub proof fn math_free_events_pass_unchanged(
    events: Seq<EventView>,
    outcomes: Seq<Result<Seq<char>, Seq<char>>>,
)
    requires
        forall|k: int| 0 <= k < events.len() ==> !is_math(#[trigger] events[k]),
    ensures
        math_pass(events, outcomes) == events,
    decreases events.len(),
{
    if events.len() > 0 {
        assert(!is_math(events[events.len() - 1]));
        let rest = events.drop_last();
        assert forall|k: int| 0 <= k < rest.len() implies !is_math(#[trigger] rest[k]) by {
            assert(rest[k] == events[k]);
        }
        math_free_events_pass_unchanged(rest, outcomes);
        assert(rest.push(events.last()) =~= events);
    }
}

proof fn lemma_block_free_collapse(events: Seq<EventView>, pos: int)
    requires
        0 <= pos <= events.len(),
        forall|k: int| 0 <= k < events.len() ==> !(#[trigger] events[k] is CodeBlockStart),
    ensures
        collapse_blocks(events, pos, BlockState::Outside, events.take(pos)) == events,
    decreases events.len() - pos,
{
    if pos < events.len() {
        assert(!(events[pos] is CodeBlockStart));
        assert(events.take(pos).push(events[pos]) =~= events.take(pos + 1));
        lemma_block_free_collapse(events, pos + 1);
    } else {
        assert(events.take(pos) =~= events);
    }
}

/// Events without code blocks pass the code-block pass unchanged.
pub proof fn block_free_events_pass_unchanged(events: Seq<EventView>)
    requires
        forall|k: int| 0 <= k < events.len() ==> !(#[trigger] events[k] is CodeBlockStart),
    ensures
        collapse_blocks(events, 0, BlockState::Outside, seq![]) == events,
{
    lemma_block_free_collapse(events, 0);
    assert(events.take(0) =~= seq![]);
}

/// A document whose parse holds neither formulas nor code blocks renders as
/// pulldown-cmark alone renders it: KaTeX and lumis do not touch it.
pub proof fn plain_documents_render_as_parsed(
    markdown: Seq<char>,
    outcomes: Seq<Result<Seq<char>, Seq<char>>>,
)
    requires
        forall|k: int|
            0 <= k < cmark_events(crate::math::math_normalized(markdown), reader_options()).len()
                ==> {
                let e = #[trigger] cmark_events(crate::math::math_normalized(markdown), reader_options())[k];
                !is_math(e) && !(e is CodeBlockStart)
            },
    ensures
        rendered_markdown(markdown, outcomes) == cmark_html(
            cmark_events(crate::math::math_normalized(markdown), reader_options()),
        ),
{
    let events = cmark_events(crate::math::math_normalized(markdown), reader_options());
    math_free_events_pass_unchanged(events, outcomes);
    block_free_events_pass_unchanged(events);
}

/// The events of `events` in the opposite order.
fn reversed(events: Vec<MarkdownEvent>) -> (out: Vec<MarkdownEvent>)
    ensures
        out@.len() == events@.len(),
        forall|k: int| 0 <= k < out@.len() ==> #[trigger] out@[k] == events@[events@.len() - 1 - k],
{
    let ghost orig = events@;
    let mut events = events;
    let mut out: Vec<MarkdownEvent> = Vec::new();
    while events.len() > 0
        invariant
            out@.len() + events@.len() == orig.len(),
            events@ == orig.subrange(0, events@.len() as int),
            forall|k: int| 0 <= k < out@.len() ==> #[trigger] out@[k] == orig[orig.len() - 1 - k],
        decreases events.len(),
    {
        let e = events.pop().unwrap();
        out.push(e);
    }
    out
}

/// Replaces each inline and display formula by its KaTeX HTML, rendered
/// with the matching settings in document order.
fn render_math_events(
    events: Vec<MarkdownEvent>,
    context: &KatexContext,
    inline_settings: &MathSettings,
    display_settings: &MathSettings,
) -> (res: (Vec<MarkdownEvent>, Ghost<Seq<Result<Seq<char>, Seq<char>>>>))
    requires
        !inline_settings.display_mode(),
        display_settings.display_mode(),
        !inline_settings.throw_on_error(),
        !display_settings.throw_on_error(),
    ensures
        event_views(res.0@) == math_pass(event_views(events@), res.1@),
        katex_answers(event_views(events@), res.1@),
{
    let ghost orig = event_views(events@);
    let n = events.len();
    let mut stack = reversed(events);
    let mut out: Vec<MarkdownEvent> = Vec::new();
    let ghost mut outcomes: Seq<Result<Seq<char>, Seq<char>>> = seq![];
    while stack.len() > 0
        invariant
            stack@.len() <= n,
            orig.len() == n,
            forall|k: int|
                0 <= k < stack@.len() ==> #[trigger] stack@[k]@ == orig[n - 1 - k],
            event_views(out@) == math_pass(orig.subrange(0, n - stack@.len()), outcomes),
            katex_answers(orig.subrange(0, n - stack@.len()), outcomes),
            !inline_settings.display_mode(),
            display_settings.display_mode(),
            !inline_settings.throw_on_error(),
            !display_settings.throw_on_error(),
        decreases stack.len(),
    {
        let ghost pos = n - stack@.len();
        let e = stack.pop().unwrap();
        assert(e@ == orig[pos]);
        let ghost prefix = orig.subrange(0, pos + 1);
        assert(prefix.drop_last() == orig.subrange(0, pos));
        assert(prefix.last() == orig[pos]);
        match e {
            MarkdownEvent::InlineMath(formula) => {
                let (markup, Ghost(o)) = render_math(context, formula.as_str(), inline_settings);
                out.push(MarkdownEvent::Html(markup));
                proof {
                    let old_outcomes = outcomes;
                    outcomes = outcomes.push(o);
                    assert(outcomes.drop_last() == old_outcomes);
                }
            },
            MarkdownEvent::DisplayMath(formula) => {
                let (markup, Ghost(o)) = render_math(context, formula.as_str(), display_settings);
                out.push(MarkdownEvent::Html(markup));
                proof {
                    let old_outcomes = outcomes;
                    outcomes = outcomes.push(o);
                    assert(outcomes.drop_last() == old_outcomes);
                }
            },
            other => {
                out.push(other);
            },
        }
        assert(event_views(out@) == math_pass(prefix, outcomes));
        assert(katex_answers(prefix, outcomes));
    }
    assert(orig.subrange(0, n as int) == orig);
    (out, Ghost(outcomes))
}

pub open spec fn block_state(inside: bool, info: Option<String>, text: String) -> BlockState {
    if inside {
        BlockState::Inside(option_view(info), text@)
    } else {
        BlockState::Outside
    }
}

/// Appends the events that stand for a code block with the given info
/// string and text: see `code_block_events`.
fn push_code_block(out: &mut Vec<MarkdownEvent>, info: Option<String>, text: String)
    ensures
        event_views(final(out)@) == event_views(old(out)@) + code_block_events(
            option_view(info),
            text@,
        ),
{
    let empty = String::new();
    let highlighted = match &info {
        Some(lang) => highlight_code(lang.as_str(), text.as_str()),
        None => highlight_code(empty.as_str(), text.as_str()),
    };
    let ghost before = event_views(out@);
    match highlighted {
        Some(markup) => {
            out.push(MarkdownEvent::Html(markup));
            assert(event_views(out@) == before + code_block_events(option_view(info), text@));
        },
        None => {
            let ghost iv = option_view(info);
            let ghost tv = text@;
            out.push(MarkdownEvent::CodeBlockStart(info));
            out.push(MarkdownEvent::Text(text));
            out.push(MarkdownEvent::CodeBlockEnd);
            assert(event_views(out@) == before + code_block_events(iv, tv));
        },
    }
}

/// Collapses each code block into the events of `push_code_block`: its text
/// is collected up to the block's end and highlighted, or the block is
/// rebuilt unchanged.
fn collapse_code_blocks(events: Vec<MarkdownEvent>) -> (out: Vec<MarkdownEvent>)
    ensures
        event_views(out@) == collapse_blocks(event_views(events@), 0, BlockState::Outside, seq![]),
{
    let ghost orig = event_views(events@);
    let n = events.len();
    let mut stack = reversed(events);
    let mut out: Vec<MarkdownEvent> = Vec::new();
    let mut inside = false;
    let mut info: Option<String> = None;
    let mut text = String::new();
    assert(event_views(out@) =~= seq![]);
    while stack.len() > 0
        invariant
            stack@.len() <= n,
            orig.len() == n,
            forall|k: int|
                0 <= k < stack@.len() ==> #[trigger] stack@[k]@ == orig[n - 1 - k],
            collapse_blocks(orig, 0, BlockState::Outside, seq![]) == collapse_blocks(
                orig,
                n - stack@.len(),
                block_state(inside, info, text),
                event_views(out@),
            ),
        decreases stack.len(),
    {
        let ghost pos = n - stack@.len();
        let e = stack.pop().unwrap();
        assert(e@ == orig[pos]);
        if !inside {
            match e {
                MarkdownEvent::CodeBlockStart(i) => {
                    inside = true;
                    info = i;
                    text = String::new();
                },
                other => {
                    let ghost before = event_views(out@);
                    out.push(other);
                    assert(event_views(out@) == before.push(orig[pos]));
                },
            }
        } else {
            match e {
                MarkdownEvent::Text(t) => {
                    text.push_str(t.as_str());
                },
                MarkdownEvent::CodeBlockEnd => {
                    let block_info = info;
                    let block_text = text;
                    push_code_block(&mut out, block_info, block_text);
                    inside = false;
                    info = None;
                    text = String::new();
                },
                _ => {},
            }
        }
    }
    if inside {
        push_code_block(&mut out, info, text);
    }
    out
}

/// Renders Markdown to HTML: backslash math delimiters are rewritten, the
/// text is parsed with footnotes, strikethrough, tables, task lists,
/// heading attributes and math enabled, formulas are rendered with KaTeX
/// (errors shown in the page), fenced code is highlighted with lumis where
/// it can be, and pulldown-cmark writes the HTML.
pub fn render_markdown(markdown: &str) -> (html: String)
    ensures
        exists|outcomes: Seq<Result<Seq<char>, Seq<char>>>|
            document_katex_answers(markdown@, outcomes) && #[trigger] rendered_markdown(
                markdown@,
                outcomes,
            ) == html@,
{
    let normalized = crate::math::normalize_math_delimiters(markdown);
    let events = parse_markdown(normalized.as_str(), reader_markdown_options());
    let context = katex_context();
    let inline_settings = katex_settings(false, false);
    let display_settings = katex_settings(true, false);
    let (events, Ghost(outcomes)) = render_math_events(
        events,
        &context,
        &inline_settings,
        &display_settings,
    );
    let events = collapse_code_blocks(events);
    let html = push_html(events);
    assert(rendered_markdown(markdown@, outcomes) == html@);
    assert(document_katex_answers(markdown@, outcomes));
    html
}

} // verus!
