//! The decisions of the local HTTP server: which answer a request path
//! gets, which files may be served, and the bytes of a response.

use vstd::prelude::*;
use vstd::utf8::encode_utf8;
use crate::chars::{chars_of, decimal, push_decimal, str_equal, string_from};
use crate::url::{percent_decode_path, percent_decoded};

verus! {

/// An HTTP response.
pub struct Response {
    pub status: &'static str,
    pub content_type: &'static str,
    pub body: Vec<u8>,
}

pub struct ResponseView {
    pub status: Seq<char>,
    pub content_type: Seq<char>,
    pub body: Seq<u8>,
}

impl View for Response {
    type V = ResponseView;

    open spec fn view(&self) -> ResponseView {
        ResponseView { status: self.status@, content_type: self.content_type@, body: self.body@ }
    }
}

/// How the server answers a request path.
pub enum Route {
    /// With the rendered document.
    Document,
    /// With the source file's modification time in milliseconds.
    Refresh,
    /// With this response.
    Respond(Response),
    /// With the file at this path relative to the document's directory, if
    /// it may be served.
    Static(String),
}

pub enum RouteView {
    Document,
    Refresh,
    Respond(ResponseView),
    Static(Seq<char>),
}

impl View for Route {
    type V = RouteView;

    open spec fn view(&self) -> RouteView {
        match self {
            Route::Document => RouteView::Document,
            Route::Refresh => RouteView::Refresh,
            Route::Respond(r) => RouteView::Respond(r@),
            Route::Static(p) => RouteView::Static(p@),
        }
    }
}

pub open spec fn ok_text(body: Seq<u8>) -> ResponseView {
    ResponseView { status: "200 OK"@, content_type: "text/plain; charset=utf-8"@, body }
}

pub open spec fn not_found_response() -> ResponseView {
    ResponseView {
        status: "404 Not Found"@,
        content_type: "text/plain; charset=utf-8"@,
        body: seq![110u8, 111, 116, 32, 102, 111, 117, 110, 100],
    }
}

/// The answer for a path that names nothing: `404 Not Found`, `not found`.
pub fn not_found() -> (r: Response)
    ensures
        r@ == not_found_response(),
{
    let body: Vec<u8> = vec![110u8, 111, 116, 32, 102, 111, 117, 110, 100];
    Response { status: "404 Not Found", content_type: "text/plain; charset=utf-8", body }
}

/// The answer to `/health`: `200 OK`, `ok`.
pub fn health_response() -> (r: Response)
    ensures
        r@ == ok_text(seq![111u8, 107]),
{
    let body: Vec<u8> = vec![111u8, 107];
    Response { status: "200 OK", content_type: "text/plain; charset=utf-8", body }
}

/// The answer to `/` and `/index.html`: the rendered document as HTML.
pub fn document_response(html: &str) -> (r: Response)
    ensures
        r@ == (ResponseView {
            status: "200 OK"@,
            content_type: "text/html; charset=utf-8"@,
            body: encode_utf8(html@),
        }),
{
    let bytes = html.as_bytes();
    let mut body: Vec<u8> = Vec::new();
    body.extend_from_slice(bytes);
    assert(body@ =~= encode_utf8(html@));
    Response { status: "200 OK", content_type: "text/html; charset=utf-8", body }
}

/// The answer to `/refresh`: the modification time in milliseconds, in
/// decimal.
pub fn refresh_response(mtime_millis: u128) -> (r: Response)
    ensures
        r@ == ok_text(encode_utf8(decimal(mtime_millis as nat))),
{
    let mut text = String::new();
    push_decimal(&mut text, mtime_millis);
    let mut body: Vec<u8> = Vec::new();
    body.extend_from_slice(text.as_str().as_bytes());
    assert(body@ =~= encode_utf8(text@));
    Response { status: "200 OK", content_type: "text/plain; charset=utf-8", body }
}

/// `s` without the slashes it starts with.
pub open spec fn trim_leading_slashes(s: Seq<char>) -> Seq<char> {
    s.skip(crate::url::leading_slashes(s, 0) as int)
}

/// How the server answers the request path `path`.
pub open spec fn route_for(path: Seq<char>) -> RouteView {
    if path == "/"@ || path == "/index.html"@ {
        RouteView::Document
    } else if path == "/refresh"@ {
        RouteView::Refresh
    } else if path == "/health"@ {
        RouteView::Respond(ok_text(seq![111u8, 107]))
    } else {
        RouteView::Static(trim_leading_slashes(percent_decoded(path)))
    }
}

/// Decides how to answer the request path `path`: `/` and `/index.html`
/// get the rendered document, `/refresh` the source file's modification
/// time, `/health` the text `ok`, and any other path the file it names,
/// percent-decoded and relative to the document's directory.
pub fn handle_request(path: &str) -> (route: Route)
    ensures
        route@ == route_for(path@),
{
    if str_equal(path, "/") || str_equal(path, "/index.html") {
        Route::Document
    } else if str_equal(path, "/refresh") {
        Route::Refresh
    } else if str_equal(path, "/health") {
        Route::Respond(health_response())
    } else {
        let decoded = percent_decode_path(path);
        let d = chars_of(decoded.as_str());
        let mut start: usize = 0;
        while start < d.len() && d[start] == '/'
            invariant
                start <= d.len(),
                crate::url::leading_slashes(d@, 0) == start + crate::url::leading_slashes(
                    d@,
                    start as int,
                ),
            decreases d.len() - start,
        {
            start = start + 1;
        }
        let rel = string_from(&d, start, d.len());
        assert(d@.subrange(start as int, d.len() as int) =~= d@.skip(start as int));
        Route::Static(rel)
    }
}

/// A component of a path, as `std::path::Path::components` reads it. On
/// Windows both `/` and `\` separate components and a drive or verbatim
/// prefix is read as a name; canonical paths, which are all this server
/// compares, split alike under that reading.
pub enum Component {
    Root,
    CurDir,
    ParentDir,
    Normal(Seq<char>),
}

/// Whether `c` separates path components: `/`, and on Windows `\` too.
pub open spec fn is_separator(c: char, windows: bool) -> bool {
    c == '/' || (windows && c == '\\')
}

/// Index of the first separator in `s` at or after `pos`, or the end.
pub open spec fn next_separator(s: Seq<char>, pos: int, windows: bool) -> int
    decreases s.len() - pos,
{
    if pos < 0 || pos >= s.len() {
        s.len() as int
    } else if is_separator(s[pos], windows) {
        pos
    } else {
        next_separator(s, pos + 1, windows)
    }
}

pub proof fn lemma_next_separator(s: Seq<char>, pos: int, windows: bool)
    ensures
        0 <= pos <= s.len() ==> pos <= next_separator(s, pos, windows) <= s.len(),
    decreases s.len() - pos,
{
    if 0 <= pos < s.len() && !is_separator(s[pos], windows) {
        lemma_next_separator(s, pos + 1, windows);
    }
}

/// The component a piece between slashes stands for: none for an empty
/// piece, nor for `.` except at the very start of a relative path.
pub open spec fn piece_components(piece: Seq<char>, first: bool) -> Seq<Component> {
    if piece.len() == 0 {
        seq![]
    } else if piece == seq!['.'] {
        if first {
            seq![Component::CurDir]
        } else {
            seq![]
        }
    } else if piece == seq!['.', '.'] {
        seq![Component::ParentDir]
    } else {
        seq![Component::Normal(piece)]
    }
}

/// The components of the pieces of `s` from `pos` on.
pub open spec fn components_from(s: Seq<char>, pos: int, first: bool, windows: bool) -> Seq<
    Component,
>
    decreases s.len() - pos,
{
    if pos < 0 || pos >= s.len() {
        seq![]
    } else {
        let e = next_separator(s, pos, windows);
        proof {
            lemma_next_separator(s, pos, windows);
        }
        let next = if e < s.len() {
            e + 1
        } else {
            e
        };
        piece_components(s.subrange(pos, e), first) + components_from(s, next, false, windows)
    }
}

/// The components of the path `s`.
pub open spec fn components(s: Seq<char>, windows: bool) -> Seq<Component> {
    if s.len() > 0 && is_separator(s[0], windows) {
        seq![Component::Root] + components_from(s, 1, false, windows)
    } else {
        components_from(s, 0, true, windows)
    }
}

/// Whether `path` lies in `base`: the components of `base` begin those of
/// `path`, as `Path::starts_with` has it.
pub open spec fn path_within(path: Seq<char>, base: Seq<char>, windows: bool) -> bool {
    let b = components(base, windows);
    let p = components(path, windows);
    b.len() <= p.len() && p.subrange(0, b.len() as int) == b
}

/// A path component held by value.
pub enum PathComponent {
    Root,
    CurDir,
    ParentDir,
    Normal(String),
}

impl View for PathComponent {
    type V = Component;

    open spec fn view(&self) -> Component {
        match self {
            PathComponent::Root => Component::Root,
            PathComponent::CurDir => Component::CurDir,
            PathComponent::ParentDir => Component::ParentDir,
            PathComponent::Normal(s) => Component::Normal(s@),
        }
    }
}

pub open spec fn component_views(c: Seq<PathComponent>) -> Seq<Component> {
    c.map_values(|x: PathComponent| x@)
}

/// The components of `path`: see `components`.
pub fn path_components(path: &str, windows: bool) -> (res: Vec<PathComponent>)
    ensures
        component_views(res@) == components(path@, windows),
{
    let s = chars_of(path);
    let mut res: Vec<PathComponent> = Vec::new();
    let mut pos: usize = 0;
    let mut first = true;
    if s.len() > 0 && (s[0] == '/' || (windows && s[0] == '\\')) {
        res.push(PathComponent::Root);
        pos = 1;
        first = false;
    }
    assert(component_views(res@) + components_from(s@, pos as int, first, windows) == components(
        path@,
        windows,
    ));
    while pos < s.len()
        invariant
            pos <= s.len(),
            s@ == path@,
            component_views(res@) + components_from(s@, pos as int, first, windows) == components(
                path@,
                windows,
            ),
        decreases s.len() - pos,
    {
        let mut e = pos;
        while e < s.len() && !(s[e] == '/' || (windows && s[e] == '\\'))
            invariant
                pos <= e <= s.len(),
                next_separator(s@, pos as int, windows) == next_separator(s@, e as int, windows),
            decreases s.len() - e,
        {
            e = e + 1;
        }
        let ghost before = component_views(res@);
        let ghost piece = s@.subrange(pos as int, e as int);
        if e == pos {
        } else if e - pos == 1 && s[pos] == '.' {
            assert(piece =~= seq!['.']);
            if first {
                res.push(PathComponent::CurDir);
            }
        } else if e - pos == 2 && s[pos] == '.' && s[pos + 1] == '.' {
            assert(piece =~= seq!['.', '.']);
            res.push(PathComponent::ParentDir);
        } else {
            assert(piece != seq!['.']) by {
                if piece == seq!['.'] {
                    assert(piece.len() == 1);
                    assert(piece[0] == s@[pos as int]);
                }
            }
            assert(piece != seq!['.', '.']) by {
                if piece == seq!['.', '.'] {
                    assert(piece[0] == s@[pos as int]);
                    assert(piece[1] == s@[pos + 1]);
                }
            }
            res.push(PathComponent::Normal(string_from(&s, pos, e)));
        }
        assert(component_views(res@) == before + piece_components(piece, first));
        first = false;
        if e < s.len() {
            pos = e + 1;
        } else {
            pos = e;
        }
    }
    assert(component_views(res@) =~= components(path@, windows));
    res
}

fn component_equal(a: &PathComponent, b: &PathComponent) -> (res: bool)
    ensures
        res == (a@ == b@),
{
    match (a, b) {
        (PathComponent::Root, PathComponent::Root) => true,
        (PathComponent::CurDir, PathComponent::CurDir) => true,
        (PathComponent::ParentDir, PathComponent::ParentDir) => true,
        (PathComponent::Normal(x), PathComponent::Normal(y)) => str_equal(x.as_str(), y.as_str()),
        _ => false,
    }
}

/// Whether `path` lies in `base`: see `path_within`.
pub fn is_within(path: &str, base: &str, windows: bool) -> (res: bool)
    ensures
        res == path_within(path@, base@, windows),
{
    let p = path_components(path, windows);
    let b = path_components(base, windows);
    let ghost pv = component_views(p@);
    let ghost bv = component_views(b@);
    if b.len() > p.len() {
        return false;
    }
    let mut i: usize = 0;
    while i < b.len()
        invariant
            i <= b.len() <= p.len(),
            pv == component_views(p@),
            bv == component_views(b@),
            pv == components(path@, windows),
            bv == components(base@, windows),
            forall|k: int| 0 <= k < i ==> pv[k] == bv[k],
        decreases b.len() - i,
    {
        if !component_equal(&p[i], &b[i]) {
            assert(pv[i as int] == p@[i as int]@);
            assert(bv[i as int] == b@[i as int]@);
            assert(pv.subrange(0, bv.len() as int)[i as int] != bv[i as int]);
            assert(pv.subrange(0, bv.len() as int) != bv);
            assert(!path_within(path@, base@, windows));
            return false;
        }
        i = i + 1;
    }
    assert(pv.subrange(0, bv.len() as int) =~= bv);
    true
}

/// Whether a requested file may be served: its canonical path lies in the
/// canonical document directory, so that neither `..` segments nor
/// symbolic links reach outside it, and it is a file.
pub fn may_serve(canonical: &str, canonical_base: &str, is_file: bool, windows: bool) -> (res: bool)
    ensures
        res == (path_within(canonical@, canonical_base@, windows) && is_file),
{
    is_within(canonical, canonical_base, windows) && is_file
}

/// The last component of `path` when it is a name, as `Path::file_name`
/// has it.
pub open spec fn file_name(path: Seq<char>, windows: bool) -> Option<Seq<char>> {
    let c = components(path, windows);
    if c.len() > 0 && c.last() is Normal {
        Some(c.last()->Normal_0)
    } else {
        None
    }
}

/// Index of the last `.` in `name[..j]`, or -1.
pub open spec fn last_dot(name: Seq<char>, j: int) -> int
    decreases j,
{
    if j <= 0 || j > name.len() {
        -1
    } else if name[j - 1] == '.' {
        j - 1
    } else {
        last_dot(name, j - 1)
    }
}

pub proof fn lemma_last_dot(name: Seq<char>, j: int)
    ensures
        0 <= j <= name.len() ==> -1 <= last_dot(name, j) < j,
        0 <= j <= name.len() && last_dot(name, j) >= 0 ==> name[last_dot(name, j)] == '.',
    decreases j,
{
    if 0 < j <= name.len() && name[j - 1] != '.' {
        lemma_last_dot(name, j - 1);
    }
}

/// The extension of a file name, as `Path::extension` has it: the text
/// after its last `.`, when that dot is not its first character.
pub open spec fn name_extension(name: Seq<char>) -> Option<Seq<char>> {
    let d = last_dot(name, name.len() as int);
    if d <= 0 {
        None
    } else {
        Some(name.skip(d + 1))
    }
}

/// The extension of the file `path` names.
pub open spec fn path_extension(path: Seq<char>, windows: bool) -> Option<Seq<char>> {
    match file_name(path, windows) {
        Some(name) => name_extension(name),
        None => None,
    }
}

/// The media type served for a file with extension `ext`.
pub open spec fn content_type_of(ext: Option<Seq<char>>) -> Seq<char> {
    match ext {
        None => "application/octet-stream"@,
        Some(e) => if e == "html"@ || e == "htm"@ {
            "text/html; charset=utf-8"@
        } else if e == "css"@ {
            "text/css; charset=utf-8"@
        } else if e == "js"@ {
            "text/javascript; charset=utf-8"@
        } else if e == "png"@ {
            "image/png"@
        } else if e == "jpg"@ || e == "jpeg"@ {
            "image/jpeg"@
        } else if e == "gif"@ {
            "image/gif"@
        } else if e == "svg"@ {
            "image/svg+xml"@
        } else if e == "webp"@ {
            "image/webp"@
        } else if e == "ico"@ {
            "image/x-icon"@
        } else if e == "woff2"@ {
            "font/woff2"@
        } else if e == "woff"@ {
            "font/woff"@
        } else if e == "ttf"@ {
            "font/ttf"@
        } else if e == "pdf"@ {
            "application/pdf"@
        } else if e == "json"@ {
            "application/json; charset=utf-8"@
        } else if e == "md"@ || e == "txt"@ {
            "text/plain; charset=utf-8"@
        } else if e == "mp4"@ {
            "video/mp4"@
        } else if e == "mp3"@ {
            "audio/mpeg"@
        } else {
            "application/octet-stream"@
        },
    }
}

/// The extension of the file `path` names: see `path_extension`.
pub fn extension_of(path: &str, windows: bool) -> (res: Option<String>)
    ensures
        match res {
            Some(e) => path_extension(path@, windows) == Some(e@),
            None => path_extension(path@, windows) is None,
        },
{
    let comps = path_components(path, windows);
    let ghost cv = component_views(comps@);
    if comps.len() == 0 {
        return None;
    }
    let last = &comps[comps.len() - 1];
    assert(cv.last() == last@);
    match last {
        PathComponent::Normal(name) => {
            let n = chars_of(name.as_str());
            let mut j = n.len();
            while j > 0 && n[j - 1] != '.'
                invariant
                    j <= n.len(),
                    last_dot(n@, n.len() as int) == last_dot(n@, j as int),
                decreases j,
            {
                j = j - 1;
            }
            proof {
                lemma_last_dot(n@, j as int);
            }
            if j <= 1 {
                None
            } else {
                let ext = string_from(&n, j, n.len());
                assert(n@.subrange(j as int, n.len() as int) =~= n@.skip(j as int));
                Some(ext)
            }
        },
        _ => None,
    }
}

/// The media type of a served file, by its extension.
pub fn content_type_for(path: &str, windows: bool) -> (t: &'static str)
    ensures
        t@ == content_type_of(path_extension(path@, windows)),
{
    match extension_of(path, windows) {
        None => "application/octet-stream",
        Some(e) => {
            let e = e.as_str();
            if str_equal(e, "html") || str_equal(e, "htm") {
                "text/html; charset=utf-8"
            } else if str_equal(e, "css") {
                "text/css; charset=utf-8"
            } else if str_equal(e, "js") {
                "text/javascript; charset=utf-8"
            } else if str_equal(e, "png") {
                "image/png"
            } else if str_equal(e, "jpg") || str_equal(e, "jpeg") {
                "image/jpeg"
            } else if str_equal(e, "gif") {
                "image/gif"
            } else if str_equal(e, "svg") {
                "image/svg+xml"
            } else if str_equal(e, "webp") {
                "image/webp"
            } else if str_equal(e, "ico") {
                "image/x-icon"
            } else if str_equal(e, "woff2") {
                "font/woff2"
            } else if str_equal(e, "woff") {
                "font/woff"
            } else if str_equal(e, "ttf") {
                "font/ttf"
            } else if str_equal(e, "pdf") {
                "application/pdf"
            } else if str_equal(e, "json") {
                "application/json; charset=utf-8"
            } else if str_equal(e, "md") || str_equal(e, "txt") {
                "text/plain; charset=utf-8"
            } else if str_equal(e, "mp4") {
                "video/mp4"
            } else if str_equal(e, "mp3") {
                "audio/mpeg"
            } else {
                "application/octet-stream"
            }
        },
    }
}

/// The answer for a path that is not one of the fixed routes: the file at
/// `canonical` with `body` and the media type of its extension when it may
/// be served, else `404 Not Found`.
pub fn static_response(served: Option<(&str, Vec<u8>)>, windows: bool) -> (r: Response)
    ensures
        match served {
            Some((canonical, body)) => r@ == (ResponseView {
                status: "200 OK"@,
                content_type: content_type_of(path_extension(canonical@, windows)),
                body: body@,
            }),
            None => r@ == not_found_response(),
        },
{
    match served {
        Some((canonical, body)) => Response {
            status: "200 OK",
            content_type: content_type_for(canonical, windows),
            body,
        },
        None => not_found(),
    }
}

/// The head of an HTTP response: status line, content type and length, no
/// caching, connection closed.
pub open spec fn response_head(r: ResponseView) -> Seq<char> {
    "HTTP/1.1 "@ + r.status + "\r\nContent-Type: "@ + r.content_type + "\r\nContent-Length: "@
        + decimal(r.body.len()) + "\r\nCache-Control: no-store\r\nConnection: close\r\n\r\n"@
}

/// The bytes of an HTTP response.
pub open spec fn response_bytes(r: ResponseView) -> Seq<u8> {
    encode_utf8(response_head(r)) + r.body
}

/// Appends the bytes of `response` to `out`: see `response_bytes`.
pub fn respond(out: &mut Vec<u8>, response: &Response)
    ensures
        final(out)@ == old(out)@ + response_bytes(response@),
{
    let mut head = String::new();
    head.push_str("HTTP/1.1 ");
    head.push_str(response.status);
    head.push_str("\r\nContent-Type: ");
    head.push_str(response.content_type);
    head.push_str("\r\nContent-Length: ");
    push_decimal(&mut head, response.body.len() as u128);
    head.push_str("\r\nCache-Control: no-store\r\nConnection: close\r\n\r\n");
    assert(head@ == response_head(response@));
    out.extend_from_slice(head.as_str().as_bytes());
    out.extend_from_slice(response.body.as_slice());
    assert(out@ =~= old(out)@ + response_bytes(response@));
}

/// The host shown in the served URL: a wildcard bind address is not usable
/// in a browser, so it becomes the loopback address.
pub open spec fn shown_host(host: Seq<char>) -> Seq<char> {
    if host == "0.0.0.0"@ || host == "::"@ {
        "127.0.0.1"@
    } else {
        host
    }
}

/// The host to print in the served URL: see `shown_host`.
pub fn display_host(host: &str) -> (shown: String)
    ensures
        shown@ == shown_host(host@),
{
    let mut shown = String::new();
    if str_equal(host, "0.0.0.0") || str_equal(host, "::") {
        shown.push_str("127.0.0.1");
    } else {
        shown.push_str(host);
    }
    shown
}

/// Unicode white space, as `char::is_whitespace` has it.
pub open spec fn is_white_space(c: char) -> bool {
    ('\u{9}' <= c && c <= '\u{d}') || c == ' ' || c == '\u{85}' || c == '\u{a0}' || c == '\u{1680}'
        || ('\u{2000}' <= c && c <= '\u{200a}') || c == '\u{2028}' || c == '\u{2029}' || c
        == '\u{202f}' || c == '\u{205f}' || c == '\u{3000}'
}

fn white_space(c: char) -> (res: bool)
    ensures
        res == is_white_space(c),
{
    ('\u{9}' <= c && c <= '\u{d}') || c == ' ' || c == '\u{85}' || c == '\u{a0}' || c == '\u{1680}'
        || ('\u{2000}' <= c && c <= '\u{200a}') || c == '\u{2028}' || c == '\u{2029}' || c
        == '\u{202f}' || c == '\u{205f}' || c == '\u{3000}'
}

/// Index of the first character at or after `pos` that is (when `white`)
/// or is not white space, or the end.
pub open spec fn scan_space(s: Seq<char>, pos: int, white: bool) -> int
    decreases s.len() - pos,
{
    if pos < 0 || pos >= s.len() {
        s.len() as int
    } else if is_white_space(s[pos]) == white {
        pos
    } else {
        scan_space(s, pos + 1, white)
    }
}

/// Index of the first `c` in `s`, or the end.
pub open spec fn first_index_of(s: Seq<char>, pos: int, c: char) -> int
    decreases s.len() - pos,
{
    if pos < 0 || pos >= s.len() {
        s.len() as int
    } else if s[pos] == c {
        pos
    } else {
        first_index_of(s, pos + 1, c)
    }
}

pub proof fn lemma_scan_bounds(s: Seq<char>, pos: int, white: bool)
    ensures
        0 <= pos <= s.len() ==> pos <= scan_space(s, pos, white) <= s.len(),
    decreases s.len() - pos,
{
    if 0 <= pos < s.len() && is_white_space(s[pos]) != white {
        lemma_scan_bounds(s, pos + 1, white);
    }
}

pub proof fn lemma_first_index_bounds(s: Seq<char>, pos: int, c: char)
    ensures
        0 <= pos <= s.len() ==> pos <= first_index_of(s, pos, c) <= s.len(),
    decreases s.len() - pos,
{
    if 0 <= pos < s.len() && s[pos] != c {
        lemma_first_index_bounds(s, pos + 1, c);
    }
}

/// The target of an HTTP request: the second white-space separated word of
/// its first line, `/` when there is none, cut at the first `?`.
pub open spec fn request_path(request: Seq<char>) -> Seq<char> {
    let line = request.take(first_index_of(request, 0, '\n'));
    let a0 = scan_space(line, 0, false);
    let e0 = scan_space(line, a0, true);
    let a1 = scan_space(line, e0, false);
    let target = if a1 < line.len() {
        line.subrange(a1, scan_space(line, a1, true))
    } else {
        "/"@
    };
    target.take(first_index_of(target, 0, '?'))
}

fn scan(s: &Vec<char>, from: usize, white: bool, to: usize) -> (pos: usize)
    requires
        from <= to <= s.len(),
    ensures
        pos == scan_space(s@.take(to as int), from as int, white),
        from <= pos <= to,
{
    let ghost t = s@.take(to as int);
    let mut pos = from;
    while pos < to && white_space(s[pos]) != white
        invariant
            from <= pos <= to <= s.len(),
            t == s@.take(to as int),
            scan_space(t, from as int, white) == scan_space(t, pos as int, white),
        decreases to - pos,
    {
        pos = pos + 1;
    }
    pos
}

/// The path a request asks for: see `request_path`.
pub fn request_target(request: &str) -> (path: String)
    ensures
        path@ == request_path(request@),
{
    let s = chars_of(request);
    let mut end: usize = 0;
    while end < s.len() && s[end] != '\n'
        invariant
            end <= s.len(),
            first_index_of(s@, 0, '\n') == first_index_of(s@, end as int, '\n'),
        decreases s.len() - end,
    {
        end = end + 1;
    }
    let ghost line = s@.take(end as int);
    let a0 = scan(&s, 0, false, end);
    let e0 = scan(&s, a0, true, end);
    let a1 = scan(&s, e0, false, end);
    let mut target: Vec<char> = Vec::new();
    if a1 < end {
        let e1 = scan(&s, a1, true, end);
        let mut k = a1;
        while k < e1
            invariant
                a1 <= k <= e1 <= end <= s.len(),
                target@ == s@.subrange(a1 as int, k as int),
            decreases e1 - k,
        {
            target.push(s[k]);
            k = k + 1;
            assert(target@ =~= s@.subrange(a1 as int, k as int));
        }
        assert(target@ =~= line.subrange(a1 as int, e1 as int));
    } else {
        target.push('/');
        proof {
            reveal_strlit("/");
        }
        assert(target@ =~= "/"@);
    }
    let mut q: usize = 0;
    while q < target.len() && target[q] != '?'
        invariant
            q <= target.len(),
            first_index_of(target@, 0, '?') == first_index_of(target@, q as int, '?'),
        decreases target.len() - q,
    {
        q = q + 1;
    }
    let path = string_from(&target, 0, q);
    assert(target@.subrange(0, q as int) =~= target@.take(q as int));
    path
}

/// Every path lies in itself.
pub proof fn path_within_reflexive(p: Seq<char>, windows: bool)
    ensures
        path_within(p, p, windows),
{
    assert(components(p, windows).subrange(0, components(p, windows).len() as int) =~= components(
        p,
        windows,
    ));
}

/// A path in a directory that lies in a second directory lies in the
/// second one too.
pub proof fn path_within_transitive(a: Seq<char>, b: Seq<char>, c: Seq<char>, windows: bool)
    requires
        path_within(a, b, windows),
        path_within(b, c, windows),
    ensures
        path_within(a, c, windows),
{
    let ca = components(a, windows);
    let cb = components(b, windows);
    let cc = components(c, windows);
    assert forall|k: int| 0 <= k < cc.len() implies ca[k] == cc[k] by {
        assert(cb.subrange(0, cc.len() as int)[k] == cc[k]);
        assert(ca.subrange(0, cb.len() as int)[k] == cb[k]);
    }
    assert(ca.subrange(0, cc.len() as int) =~= cc);
}

/// The file a request may be answered with: the canonical path the
/// candidate resolved to (`None` when it did not resolve), when it lies in
/// the canonical document directory and is a file.
pub open spec fn served_file(canonical: Option<Seq<char>>, canonical_base: Seq<char>, is_file: bool, windows: bool) -> Option<Seq<char>> {
    match canonical {
        Some(c) => if path_within(c, canonical_base, windows) && is_file {
            Some(c)
        } else {
            None
        },
        None => None,
    }
}

/// The file a request may be answered with: see `served_file`. Nothing
/// else is read, so nothing outside the directory is ever opened.
pub fn file_to_serve(canonical: Option<&str>, canonical_base: &str, is_file: bool, windows: bool) -> (res: Option<String>)
    ensures
        match res {
            Some(f) => served_file(crate::page::str_option_view(canonical), canonical_base@, is_file, windows) == Some(f@),
            None => served_file(crate::page::str_option_view(canonical), canonical_base@, is_file, windows) is None,
        },
{
    match canonical {
        Some(c) => if may_serve(c, canonical_base, is_file, windows) {
            let s = chars_of(c);
            Some(string_from(&s, 0, s.len()))
        } else {
            None
        },
        None => None,
    }
}

/// The media type served for each extension the server knows, whatever
/// the rest of the path: `jpg` and `jpeg` are both JPEG images, `html` and
/// `htm` both HTML, `md` and `txt` both plain text; a path without an
/// extension is served as bytes.
pub proof fn media_types_by_extension(path: Seq<char>, windows: bool)
    ensures
        path_extension(path, windows) == Some("html"@) ==> content_type_of(path_extension(path, windows)) == "text/html; charset=utf-8"@,
        path_extension(path, windows) == Some("htm"@) ==> content_type_of(path_extension(path, windows)) == "text/html; charset=utf-8"@,
        path_extension(path, windows) == Some("css"@) ==> content_type_of(path_extension(path, windows)) == "text/css; charset=utf-8"@,
        path_extension(path, windows) == Some("js"@) ==> content_type_of(path_extension(path, windows)) == "text/javascript; charset=utf-8"@,
        path_extension(path, windows) == Some("png"@) ==> content_type_of(path_extension(path, windows)) == "image/png"@,
        path_extension(path, windows) == Some("jpg"@) ==> content_type_of(path_extension(path, windows)) == "image/jpeg"@,
        path_extension(path, windows) == Some("jpeg"@) ==> content_type_of(path_extension(path, windows)) == "image/jpeg"@,
        path_extension(path, windows) == Some("gif"@) ==> content_type_of(path_extension(path, windows)) == "image/gif"@,
        path_extension(path, windows) == Some("svg"@) ==> content_type_of(path_extension(path, windows)) == "image/svg+xml"@,
        path_extension(path, windows) == Some("webp"@) ==> content_type_of(path_extension(path, windows)) == "image/webp"@,
        path_extension(path, windows) == Some("ico"@) ==> content_type_of(path_extension(path, windows)) == "image/x-icon"@,
        path_extension(path, windows) == Some("woff2"@) ==> content_type_of(path_extension(path, windows)) == "font/woff2"@,
        path_extension(path, windows) == Some("woff"@) ==> content_type_of(path_extension(path, windows)) == "font/woff"@,
        path_extension(path, windows) == Some("ttf"@) ==> content_type_of(path_extension(path, windows)) == "font/ttf"@,
        path_extension(path, windows) == Some("pdf"@) ==> content_type_of(path_extension(path, windows)) == "application/pdf"@,
        path_extension(path, windows) == Some("json"@) ==> content_type_of(path_extension(path, windows)) == "application/json; charset=utf-8"@,
        path_extension(path, windows) == Some("md"@) ==> content_type_of(path_extension(path, windows)) == "text/plain; charset=utf-8"@,
        path_extension(path, windows) == Some("txt"@) ==> content_type_of(path_extension(path, windows)) == "text/plain; charset=utf-8"@,
        path_extension(path, windows) == Some("mp4"@) ==> content_type_of(path_extension(path, windows)) == "video/mp4"@,
        path_extension(path, windows) == Some("mp3"@) ==> content_type_of(path_extension(path, windows)) == "audio/mpeg"@,
        path_extension(path, windows) is None ==> content_type_of(path_extension(path, windows))
            == "application/octet-stream"@,
{
    reveal_strlit("html");
    reveal_strlit("htm");
    reveal_strlit("css");
    reveal_strlit("js");
    reveal_strlit("png");
    reveal_strlit("jpg");
    reveal_strlit("jpeg");
    reveal_strlit("gif");
    reveal_strlit("svg");
    reveal_strlit("webp");
    reveal_strlit("ico");
    reveal_strlit("woff2");
    reveal_strlit("woff");
    reveal_strlit("ttf");
    reveal_strlit("pdf");
    reveal_strlit("json");
    reveal_strlit("md");
    reveal_strlit("txt");
    reveal_strlit("mp4");
    reveal_strlit("mp3");
    assert("htm"@.len() != "html"@.len());
    assert("css"@.len() != "html"@.len());
    assert("css"@[0] != "htm"@[0]);
    assert("js"@.len() != "html"@.len());
    assert("js"@.len() != "htm"@.len());
    assert("js"@.len() != "css"@.len());
    assert("png"@.len() != "html"@.len());
    assert("png"@[0] != "htm"@[0]);
    assert("png"@[0] != "css"@[0]);
    assert("png"@.len() != "js"@.len());
    assert("jpg"@.len() != "html"@.len());
    assert("jpg"@[0] != "htm"@[0]);
    assert("jpg"@[0] != "css"@[0]);
    assert("jpg"@.len() != "js"@.len());
    assert("jpg"@[0] != "png"@[0]);
    assert("jpeg"@[0] != "html"@[0]);
    assert("jpeg"@.len() != "htm"@.len());
    assert("jpeg"@.len() != "css"@.len());
    assert("jpeg"@.len() != "js"@.len());
    assert("jpeg"@.len() != "png"@.len());
    assert("jpeg"@.len() != "jpg"@.len());
    assert("gif"@.len() != "html"@.len());
    assert("gif"@[0] != "htm"@[0]);
    assert("gif"@[0] != "css"@[0]);
    assert("gif"@.len() != "js"@.len());
    assert("gif"@[0] != "png"@[0]);
    assert("gif"@[0] != "jpg"@[0]);
    assert("gif"@.len() != "jpeg"@.len());
    assert("svg"@.len() != "html"@.len());
    assert("svg"@[0] != "htm"@[0]);
    assert("svg"@[0] != "css"@[0]);
    assert("svg"@.len() != "js"@.len());
    assert("svg"@[0] != "png"@[0]);
    assert("svg"@[0] != "jpg"@[0]);
    assert("svg"@.len() != "jpeg"@.len());
    assert("svg"@[0] != "gif"@[0]);
    assert("webp"@[0] != "html"@[0]);
    assert("webp"@.len() != "htm"@.len());
    assert("webp"@.len() != "css"@.len());
    assert("webp"@.len() != "js"@.len());
    assert("webp"@.len() != "png"@.len());
    assert("webp"@.len() != "jpg"@.len());
    assert("webp"@[0] != "jpeg"@[0]);
    assert("webp"@.len() != "gif"@.len());
    assert("webp"@.len() != "svg"@.len());
    assert("ico"@.len() != "html"@.len());
    assert("ico"@[0] != "htm"@[0]);
    assert("ico"@[0] != "css"@[0]);
    assert("ico"@.len() != "js"@.len());
    assert("ico"@[0] != "png"@[0]);
    assert("ico"@[0] != "jpg"@[0]);
    assert("ico"@.len() != "jpeg"@.len());
    assert("ico"@[0] != "gif"@[0]);
    assert("ico"@[0] != "svg"@[0]);
    assert("ico"@.len() != "webp"@.len());
    assert("woff2"@.len() != "html"@.len());
    assert("woff2"@.len() != "htm"@.len());
    assert("woff2"@.len() != "css"@.len());
    assert("woff2"@.len() != "js"@.len());
    assert("woff2"@.len() != "png"@.len());
    assert("woff2"@.len() != "jpg"@.len());
    assert("woff2"@.len() != "jpeg"@.len());
    assert("woff2"@.len() != "gif"@.len());
    assert("woff2"@.len() != "svg"@.len());
    assert("woff2"@.len() != "webp"@.len());
    assert("woff2"@.len() != "ico"@.len());
    assert("woff"@[0] != "html"@[0]);
    assert("woff"@.len() != "htm"@.len());
    assert("woff"@.len() != "css"@.len());
    assert("woff"@.len() != "js"@.len());
    assert("woff"@.len() != "png"@.len());
    assert("woff"@.len() != "jpg"@.len());
    assert("woff"@[0] != "jpeg"@[0]);
    assert("woff"@.len() != "gif"@.len());
    assert("woff"@.len() != "svg"@.len());
    assert("woff"@[1] != "webp"@[1]);
    assert("woff"@.len() != "ico"@.len());
    assert("woff"@.len() != "woff2"@.len());
    assert("ttf"@.len() != "html"@.len());
    assert("ttf"@[0] != "htm"@[0]);
    assert("ttf"@[0] != "css"@[0]);
    assert("ttf"@.len() != "js"@.len());
    assert("ttf"@[0] != "png"@[0]);
    assert("ttf"@[0] != "jpg"@[0]);
    assert("ttf"@.len() != "jpeg"@.len());
    assert("ttf"@[0] != "gif"@[0]);
    assert("ttf"@[0] != "svg"@[0]);
    assert("ttf"@.len() != "webp"@.len());
    assert("ttf"@[0] != "ico"@[0]);
    assert("ttf"@.len() != "woff2"@.len());
    assert("ttf"@.len() != "woff"@.len());
    assert("pdf"@.len() != "html"@.len());
    assert("pdf"@[0] != "htm"@[0]);
    assert("pdf"@[0] != "css"@[0]);
    assert("pdf"@.len() != "js"@.len());
    assert("pdf"@[1] != "png"@[1]);
    assert("pdf"@[0] != "jpg"@[0]);
    assert("pdf"@.len() != "jpeg"@.len());
    assert("pdf"@[0] != "gif"@[0]);
    assert("pdf"@[0] != "svg"@[0]);
    assert("pdf"@.len() != "webp"@.len());
    assert("pdf"@[0] != "ico"@[0]);
    assert("pdf"@.len() != "woff2"@.len());
    assert("pdf"@.len() != "woff"@.len());
    assert("pdf"@[0] != "ttf"@[0]);
    assert("json"@[0] != "html"@[0]);
    assert("json"@.len() != "htm"@.len());
    assert("json"@.len() != "css"@.len());
    assert("json"@.len() != "js"@.len());
    assert("json"@.len() != "png"@.len());
    assert("json"@.len() != "jpg"@.len());
    assert("json"@[1] != "jpeg"@[1]);
    assert("json"@.len() != "gif"@.len());
    assert("json"@.len() != "svg"@.len());
    assert("json"@[0] != "webp"@[0]);
    assert("json"@.len() != "ico"@.len());
    assert("json"@.len() != "woff2"@.len());
    assert("json"@[0] != "woff"@[0]);
    assert("json"@.len() != "ttf"@.len());
    assert("json"@.len() != "pdf"@.len());
    assert("md"@.len() != "html"@.len());
    assert("md"@.len() != "htm"@.len());
    assert("md"@.len() != "css"@.len());
    assert("md"@[0] != "js"@[0]);
    assert("md"@.len() != "png"@.len());
    assert("md"@.len() != "jpg"@.len());
    assert("md"@.len() != "jpeg"@.len());
    assert("md"@.len() != "gif"@.len());
    assert("md"@.len() != "svg"@.len());
    assert("md"@.len() != "webp"@.len());
    assert("md"@.len() != "ico"@.len());
    assert("md"@.len() != "woff2"@.len());
    assert("md"@.len() != "woff"@.len());
    assert("md"@.len() != "ttf"@.len());
    assert("md"@.len() != "pdf"@.len());
    assert("md"@.len() != "json"@.len());
    assert("txt"@.len() != "html"@.len());
    assert("txt"@[0] != "htm"@[0]);
    assert("txt"@[0] != "css"@[0]);
    assert("txt"@.len() != "js"@.len());
    assert("txt"@[0] != "png"@[0]);
    assert("txt"@[0] != "jpg"@[0]);
    assert("txt"@.len() != "jpeg"@.len());
    assert("txt"@[0] != "gif"@[0]);
    assert("txt"@[0] != "svg"@[0]);
    assert("txt"@.len() != "webp"@.len());
    assert("txt"@[0] != "ico"@[0]);
    assert("txt"@.len() != "woff2"@.len());
    assert("txt"@.len() != "woff"@.len());
    assert("txt"@[1] != "ttf"@[1]);
    assert("txt"@[0] != "pdf"@[0]);
    assert("txt"@.len() != "json"@.len());
    assert("txt"@.len() != "md"@.len());
    assert("mp4"@.len() != "html"@.len());
    assert("mp4"@[0] != "htm"@[0]);
    assert("mp4"@[0] != "css"@[0]);
    assert("mp4"@.len() != "js"@.len());
    assert("mp4"@[0] != "png"@[0]);
    assert("mp4"@[0] != "jpg"@[0]);
    assert("mp4"@.len() != "jpeg"@.len());
    assert("mp4"@[0] != "gif"@[0]);
    assert("mp4"@[0] != "svg"@[0]);
    assert("mp4"@.len() != "webp"@.len());
    assert("mp4"@[0] != "ico"@[0]);
    assert("mp4"@.len() != "woff2"@.len());
    assert("mp4"@.len() != "woff"@.len());
    assert("mp4"@[0] != "ttf"@[0]);
    assert("mp4"@[0] != "pdf"@[0]);
    assert("mp4"@.len() != "json"@.len());
    assert("mp4"@.len() != "md"@.len());
    assert("mp4"@[0] != "txt"@[0]);
    assert("mp3"@.len() != "html"@.len());
    assert("mp3"@[0] != "htm"@[0]);
    assert("mp3"@[0] != "css"@[0]);
    assert("mp3"@.len() != "js"@.len());
    assert("mp3"@[0] != "png"@[0]);
    assert("mp3"@[0] != "jpg"@[0]);
    assert("mp3"@.len() != "jpeg"@.len());
    assert("mp3"@[0] != "gif"@[0]);
    assert("mp3"@[0] != "svg"@[0]);
    assert("mp3"@.len() != "webp"@.len());
    assert("mp3"@[0] != "ico"@[0]);
    assert("mp3"@.len() != "woff2"@.len());
    assert("mp3"@.len() != "woff"@.len());
    assert("mp3"@[0] != "ttf"@[0]);
    assert("mp3"@[0] != "pdf"@[0]);
    assert("mp3"@.len() != "json"@.len());
    assert("mp3"@.len() != "md"@.len());
    assert("mp3"@[0] != "txt"@[0]);
    assert("mp3"@[2] != "mp4"@[2]);
}

proof fn lemma_slashes_stop(s: Seq<char>, i: int)
    requires
        0 <= i <= s.len(),
    ensures
        i + crate::url::leading_slashes(s, i) < s.len() ==> s[i + crate::url::leading_slashes(s, i)]
            != '/',
    decreases s.len() - i,
{
    if i < s.len() && s[i] == '/' {
        lemma_slashes_stop(s, i + 1);
    }
}

/// The routes of the server: `/` and `/index.html` are the document,
/// `/refresh` the modification time, `/health` the text `ok`; every other
/// path names a file relative to the document's directory, which never
/// starts with `/`, so it cannot name a file from the root of the disk.
pub proof fn server_routes(path: Seq<char>)
    ensures
        route_for("/"@) == RouteView::Document,
        route_for("/index.html"@) == RouteView::Document,
        route_for("/refresh"@) == RouteView::Refresh,
        route_for("/health"@) == RouteView::Respond(
            ResponseView { status: "200 OK"@, content_type: "text/plain; charset=utf-8"@, body: seq![111u8, 107] },
        ),
        path != "/"@ && path != "/index.html"@ && path != "/refresh"@ && path != "/health"@ ==> {
            &&& route_for(path) is Static
            &&& route_for(path)->Static_0.len() > 0 ==> route_for(path)->Static_0[0] != '/'
        },
{
    reveal_strlit("/");
    reveal_strlit("/index.html");
    reveal_strlit("/refresh");
    reveal_strlit("/health");
    assert("/refresh"@.len() != "/"@.len());
    assert("/refresh"@.len() != "/index.html"@.len());
    assert("/health"@.len() != "/"@.len());
    assert("/health"@.len() != "/index.html"@.len());
    assert("/health"@[1] != "/refresh"@[1]);
    let d = percent_decoded(path);
    crate::url::lemma_leading_slashes(d, 0);
    lemma_slashes_stop(d, 0);
    let t = trim_leading_slashes(d);
    if t.len() > 0 {
        assert(t[0] == d[crate::url::leading_slashes(d, 0) as int]);
    }
}

/// The host shown in the served URL: a wildcard bind address (`0.0.0.0`
/// or `::`) is shown as the loopback address `127.0.0.1`, and any other
/// host as it is.
pub proof fn wildcard_hosts_are_shown_as_loopback(host: Seq<char>)
    ensures
        shown_host("0.0.0.0"@) == "127.0.0.1"@,
        shown_host("::"@) == "127.0.0.1"@,
        host != "0.0.0.0"@ && host != "::"@ ==> shown_host(host) == host,
{
}

} // verus!
