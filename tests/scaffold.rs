use cargo_ngrok::error::ScaffoldError;
use cargo_ngrok::locate::{AttrNode, CallNode, FnNode, Location, Position, SourceScan};
use cargo_ngrok::patch::EditMode;
use cargo_ngrok::scaffold::{edits_for_new_handler, edits_for_new_test, new_handler, new_test};
use cargo_ngrok::trace::{Request, RequestTrace, Response};

const SOURCE: &str = r#"use actix_web::{get, App, HttpServer, Responder};

#[get("/")]
async fn index() -> impl Responder {
    "Hello"
}

#[actix_rt::main]
async fn main() -> std::io::Result<()> {
    HttpServer::new(move || App::new().service(index))
        .bind("127.0.0.1:8080")?
        .run()
        .await
}

#[cfg(test)]
mod tests {
    use super::*;

    #[actix_rt::test]
    async fn test_index() {
        assert!(true);
    }
}
"#;

/// The 1-based line and 0-based character column of the `nth` occurrence of `needle`.
fn position_of(text: &str, needle: &str, nth: usize) -> Position {
    let byte = text.match_indices(needle).nth(nth).unwrap().0;
    let before = &text[..byte];
    let line = before.matches('\n').count() + 1;
    let column = before.rsplit('\n').next().unwrap().chars().count();
    Position { line, column }
}

fn after(p: Position, chars: usize) -> Position {
    Position { line: p.line, column: p.column + chars }
}

/// What a syntax tree walk reports for `text`, which holds `n` handlers at `/`
/// and `n` asynchronous tests.
fn scan_of(text: &str, n: usize) -> SourceScan {
    let mut attrs = Vec::new();
    let mut fns = Vec::new();
    for k in 0..n {
        let h = position_of(text, "#[get(\"/\")]", k);
        attrs.push(AttrNode { text: "# [get (\"/\")]".to_string(), location: Location { start: h, end: after(h, 11) } });
        fns.push(FnNode { name: "index".to_string(), attrs: vec!["# [get (\"/\")]".to_string()] });
    }
    let m = position_of(text, "#[actix_rt::main]", 0);
    attrs.push(AttrNode { text: "# [actix_rt :: main]".to_string(), location: Location { start: m, end: after(m, 17) } });
    let c = position_of(text, "#[cfg(test)]", 0);
    attrs.push(AttrNode { text: "# [cfg (test)]".to_string(), location: Location { start: c, end: after(c, 12) } });
    for k in 0..n {
        let t = position_of(text, "#[actix_rt::test]", k);
        attrs.push(AttrNode { text: "# [actix_rt :: test]".to_string(), location: Location { start: t, end: after(t, 17) } });
    }
    let s = position_of(text, ".service(index)", 0);
    let calls = vec![CallNode { method: "service".to_string(), location: Location { start: s, end: after(s, 15) } }];
    SourceScan { attrs, calls, fns }
}

fn captured(id: &str, uri: &str, status: u32, message: &[u8]) -> RequestTrace {
    RequestTrace {
        id: id.to_string(),
        request: Request { method: "GET".to_string(), uri: uri.to_string(), raw: String::new() },
        response: Response { status_code: status, raw: base64::encode(message) },
    }
}

#[test]
fn new_handler_scenario() {
    let traces = vec![
        captured("1", "/", 200, b"HTTP/1.1 200 OK\r\n\r\nHello"),
        captured("2", "/favicon.ico", 404, b"HTTP/1.1 404 Not Found\r\n\r\n"),
    ];
    let out = new_handler(traces, SOURCE, &scan_of(SOURCE, 1)).unwrap();

    let handler = out.find("#[get(\"/favicon.ico\")]\nasync fn faviconico()").unwrap();
    let existing_handler = out.find("#[get(\"/\")]").unwrap();
    assert!(handler < existing_handler);
    assert!(out[handler..existing_handler].trim_end().ends_with("\"TODO: implement this handler\"\n}"));

    let new_test = out.find("async fn test_faviconico()").unwrap();
    let existing_test = out.find("async fn test_index()").unwrap();
    assert!(new_test < existing_test);
    assert!(out.contains("atest::TestRequest::with_uri(\"/favicon.ico\")"));

    assert!(out.contains("App::new().service(index).service(faviconico))"));

    assert_eq!(out.matches("#[get(").count(), 2);
    assert_eq!(out.matches("#[actix_rt::test]").count(), 2);
    assert!(out.starts_with("use actix_web::{get, App, HttpServer, Responder};\n\n"));
    assert!(out.ends_with("        assert!(true);\n    }\n}\n"));
}

#[test]
fn new_handler_edits_name_the_anchors() {
    let trace = captured("2", "/favicon.ico", 404, b"");
    let edits = edits_for_new_handler(&trace, &scan_of(SOURCE, 1)).unwrap();
    assert_eq!(edits.len(), 3);
    assert_eq!(edits[0].position, Position { line: 3, column: 0 });
    assert_eq!(edits[1].position, Position { line: 20, column: 4 });
    assert_eq!(edits[2].position, Position { line: 10, column: 53 });
    assert!(edits.iter().all(|e| e.mode == EditMode::SpliceAtColumn));
    assert_eq!(edits[2].text, ".service(faviconico)");
}

#[test]
fn new_test_scenario() {
    let message = b"HTTP/1.1 500 Internal Server Error\r\ncontent-length: 18\r\n\r\nSome error message";
    let traces = vec![
        captured("1", "/favicon.ico", 404, b"HTTP/1.1 404 Not Found\r\n\r\n"),
        captured("2", "/?param=boom", 500, message),
    ];
    let out = new_test(traces, SOURCE, &scan_of(SOURCE, 1)).unwrap();
    let added = out.find("async fn test_index_param_boom()").unwrap();
    let existing = out.find("async fn test_index()").unwrap();
    assert!(added < existing);
    assert!(out.contains("atest::TestRequest::with_uri(\"/?param=boom\")"));
    assert!(out.contains("assert_eq!(resp.status(), 500);"));
    assert!(out.contains("Bytes::from_static(b\"Some error message\")"));
    assert_eq!(out.matches("#[actix_rt::test]").count(), 2);
    assert_eq!(out.matches("#[get(").count(), 1);
}

#[test]
fn scaffolding_without_traces_fails() {
    let traces = vec![captured("1", "/", 200, b"")];
    assert_eq!(
        new_handler(traces, SOURCE, &scan_of(SOURCE, 1)),
        Err(ScaffoldError::NoTraceForStatus { code: 404 })
    );
    assert_eq!(new_test(Vec::new(), SOURCE, &scan_of(SOURCE, 1)), Err(ScaffoldError::NoTraceForStatus { code: 500 }));
}

#[test]
fn scaffolding_an_unparsed_source_finds_no_anchor() {
    let traces = vec![captured("1", "/x", 404, b"")];
    assert_eq!(new_handler(traces, SOURCE, &SourceScan::unparsed()), Err(ScaffoldError::NotFound));
}

#[test]
fn two_root_handlers_are_ambiguous() {
    let source = format!("{}\n#[get(\"/\")]\nasync fn again() -> impl Responder {{ \"\" }}\n", SOURCE);
    let mut scan = scan_of(&source, 1);
    let h = position_of(&source, "#[get(\"/\")]", 1);
    scan.attrs.push(AttrNode { text: "# [get (\"/\")]".to_string(), location: Location { start: h, end: after(h, 11) } });
    let trace = captured("1", "/x", 404, b"");
    assert_eq!(edits_for_new_handler(&trace, &scan).err(), Some(ScaffoldError::Ambiguous { count: 2 }));
}

#[test]
fn regression_test_needs_a_complete_message() {
    let trace = captured("1", "/", 500, b"HTTP/1.1 500 Internal Server Error\r\ncontent-le");
    assert_eq!(edits_for_new_test(&trace, &scan_of(SOURCE, 1)).err(), Some(ScaffoldError::PartialMessage));
    let trace = captured("1", "/missing", 500, b"HTTP/1.1 500 Oops\r\n\r\nx");
    assert_eq!(edits_for_new_test(&trace, &scan_of(SOURCE, 1)).err(), Some(ScaffoldError::NotFound));
}

#[test]
fn regression_test_escapes_the_captured_body() {
    let message = b"HTTP/1.1 500 Internal Server Error\r\n\r\nbad \"input\"\\\r\n";
    let traces = vec![captured("1", "/?q=1", 500, message)];
    let out = new_test(traces, SOURCE, &scan_of(SOURCE, 1)).unwrap();
    assert!(out.contains("Bytes::from_static(b\"bad \\\"input\\\"\\\\\\r\\n\")"));
    assert!(out.contains("async fn test_index_q__()"));
}
