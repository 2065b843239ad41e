use md_reader::page::{reader_css, render_document};
use md_reader::server::{
    content_type_for, display_host, document_response, file_to_serve, handle_request, health_response,
    is_within, may_serve, not_found, refresh_response, request_target, respond, static_response,
    Response, Route,
};
use md_reader::url::{no_parent_message, path_to_file_url};

fn route_target(path: &str) -> Option<String> {
    match handle_request(path) {
        Route::Static(target) => Some(target),
        _ => None,
    }
}

#[test]
fn main_refresh_route_reports_file_mtime_in_milliseconds() {
    let mtime: u128 = 1_723_456_789_012;
    assert!(matches!(handle_request("/refresh"), Route::Refresh));
    let response = refresh_response(mtime);

    assert_eq!(response.status, "200 OK");
    assert_eq!(response.content_type, "text/plain; charset=utf-8");
    assert_eq!(String::from_utf8(response.body).unwrap(), mtime.to_string());
}

#[test]
fn server_refresh_route_reports_file_mtime_in_milliseconds() {
    let mtime: u128 = 0;
    assert!(matches!(handle_request("/refresh"), Route::Refresh));
    let response = refresh_response(mtime);

    assert_eq!(response.status, "200 OK");
    assert_eq!(response.content_type, "text/plain; charset=utf-8");
    assert_eq!(String::from_utf8(response.body).unwrap(), mtime.to_string());
}

fn served_document(markdown: &str) -> Response {
    let css = reader_css("", &[]);
    let base = path_to_file_url("/tmp", false);
    match handle_request("/") {
        Route::Document => {
            document_response(&render_document(markdown, Some("notes.md"), true, 1, &base, &css))
        }
        _ => panic!("`/` is the document route"),
    }
}

#[test]
fn main_serve_root_route_returns_rendered_document() {
    let response = served_document("# Hello");

    assert_eq!(response.status, "200 OK");
    assert_eq!(response.content_type, "text/html; charset=utf-8");
    assert!(String::from_utf8(response.body).unwrap().contains("<h1>Hello</h1>"));
}

#[test]
fn server_serve_root_route_returns_rendered_document() {
    let response = served_document("# Hello");

    assert_eq!(response.status, "200 OK");
    assert_eq!(response.content_type, "text/html; charset=utf-8");
    assert!(
        String::from_utf8(response.body)
            .unwrap()
            .contains("<h1>Hello</h1>")
    );
}

#[test]
fn fixed_routes_are_recognised() {
    assert!(matches!(handle_request("/index.html"), Route::Document));
    match handle_request("/health") {
        Route::Respond(response) => {
            assert_eq!(response.status, "200 OK");
            assert_eq!(response.body, b"ok");
        }
        _ => panic!("`/health` answers directly"),
    }
    assert_eq!(health_response().body, b"ok");
}

#[test]
fn serve_mode_serves_files_from_the_markdown_directory() {
    let image = b"\x89PNG\r\n\x1a\nfake png bytes";
    assert_eq!(route_target("/logo.png").as_deref(), Some("logo.png"));
    assert!(may_serve("/tmp/notes/logo.png", "/tmp/notes", true, false));

    let response = static_response(Some(("/tmp/notes/logo.png", image.to_vec())), false);

    assert_eq!(response.status, "200 OK");
    assert_eq!(response.content_type, "image/png");
    assert_eq!(response.body, image);
}

#[test]
fn serve_mode_sets_mime_type_from_file_extension() {
    assert_eq!(route_target("/style.css").as_deref(), Some("style.css"));
    let response = static_response(Some(("/tmp/notes/style.css", b"body { margin: 0 }".to_vec())), false);

    assert_eq!(response.status, "200 OK");
    assert_eq!(response.content_type, "text/css; charset=utf-8");
}

#[test]
fn serve_mode_returns_404_for_missing_static_files() {
    assert_eq!(route_target("/nope.png").as_deref(), Some("nope.png"));
    let response = static_response(None, false);

    assert_eq!(response.status, "404 Not Found");
}

#[test]
fn serve_mode_rejects_percent_encoded_traversal() {
    let escaped = format!("/{}/md-reader-outside-1.txt", "%2e%2e/".repeat(12));
    let target = route_target(&escaped).unwrap();
    assert!(target.starts_with("../../"));

    assert!(!may_serve("/tmp/md-reader-outside-1.txt", "/tmp/md-reader-tests/dir", true, false));
    let response = static_response(None, false);
    assert_eq!(response.status, "404 Not Found");
}

#[test]
fn serve_mode_rejects_symlinks_escaping_the_directory() {
    assert!(!may_serve("/tmp/md-reader-outside-symlink.txt", "/tmp/md-reader-tests/dir", true, false));
    assert_eq!(not_found().status, "404 Not Found");
}

#[test]
fn containment_follows_path_components() {
    assert!(is_within("/tmp/a/b.png", "/tmp/a", false));
    assert!(is_within("/tmp/a", "/tmp/a", false));
    assert!(is_within("/tmp/a/", "/tmp//a", false));
    assert!(!is_within("/tmp/ab", "/tmp/a", false));
    assert!(!is_within("/tmp", "/tmp/a", false));
    assert!(is_within("/anything", "/", false));
    assert!(!may_serve("/tmp/a/sub", "/tmp/a", false, false));
    assert!(is_within(r"\\?\C:\notes\img\a.png", r"\\?\C:\notes", true));
    assert!(!is_within(r"\\?\C:\notes2\a.png", r"\\?\C:\notes", true));
    assert!(!is_within(r"C:\notes\a.png", r"C:\notes2", true));
    assert!(!is_within(r"\tmp\a\b.png", "/tmp/a", false));
}

#[test]
fn content_types_follow_extensions() {
    assert_eq!(content_type_for("/x/a.html", false), "text/html; charset=utf-8");
    assert_eq!(content_type_for("/x/a.jpeg", false), "image/jpeg");
    assert_eq!(content_type_for("/x/a.tar.mp3", false), "audio/mpeg");
    assert_eq!(content_type_for("/x/.png", false), "application/octet-stream");
    assert_eq!(content_type_for("/x/README", false), "application/octet-stream");
    assert_eq!(content_type_for("/x/a.PNG", false), "application/octet-stream");
    assert_eq!(content_type_for("/x/a.md", false), "text/plain; charset=utf-8");
    assert_eq!(content_type_for(r"C:\x.d\a.svg", true), "image/svg+xml");
    assert_eq!(content_type_for(r"C:\x.png\README", true), "application/octet-stream");
}

#[test]
fn responses_are_marked_no_store() {
    let response = Response {
        status: "200 OK",
        content_type: "text/plain; charset=utf-8",
        body: b"ok".to_vec(),
    };
    let mut buffer = Vec::new();

    respond(&mut buffer, &response);

    let head = String::from_utf8(buffer).unwrap();
    assert!(head.starts_with("HTTP/1.1 200 OK\r\n"));
    assert!(head.contains("Cache-Control: no-store\r\n"));
    assert!(head.ends_with("\r\n\r\nok"));
}

#[test]
fn responses_carry_their_length() {
    let mut buffer = Vec::new();
    respond(&mut buffer, &not_found());

    assert_eq!(
        String::from_utf8(buffer).unwrap(),
        "HTTP/1.1 404 Not Found\r\nContent-Type: text/plain; charset=utf-8\r\nContent-Length: 9\r\nCache-Control: no-store\r\nConnection: close\r\n\r\nnot found"
    );
}

#[test]
fn display_host_maps_wildcard_binds_to_loopback() {
    assert_eq!(display_host("0.0.0.0"), "127.0.0.1");
    assert_eq!(display_host("::"), "127.0.0.1");
    assert_eq!(display_host("localhost"), "localhost");
    assert_eq!(display_host("192.168.1.5"), "192.168.1.5");
}

#[test]
fn request_targets_come_from_the_request_line() {
    assert_eq!(request_target("GET /a.png?x=1 HTTP/1.1\r\nHost: x\r\n\r\n"), "/a.png");
    assert_eq!(request_target("GET  /b  HTTP/1.1"), "/b");
    assert_eq!(request_target(""), "/");
    assert_eq!(request_target("GET"), "/");
    assert_eq!(request_target("GET ?q HTTP/1.1"), "");
}

#[test]
fn static_targets_are_decoded_and_relative() {
    assert_eq!(route_target("//my%20file.txt").as_deref(), Some("my file.txt"));
    assert_eq!(route_target("/a+b").as_deref(), Some("a+b"));
}

#[test]
fn only_files_inside_the_directory_are_chosen() {
    assert_eq!(
        file_to_serve(Some("/tmp/notes/a.png"), "/tmp/notes", true, false).as_deref(),
        Some("/tmp/notes/a.png")
    );
    assert_eq!(file_to_serve(Some("/tmp/notes/sub"), "/tmp/notes", false, false), None);
    assert_eq!(file_to_serve(Some("/tmp/secret.txt"), "/tmp/notes", true, false), None);
    assert_eq!(file_to_serve(None, "/tmp/notes", false, false), None);
}

#[test]
fn a_file_without_a_parent_is_reported() {
    assert_eq!(no_parent_message("/"), "could not find parent directory for /");
}
