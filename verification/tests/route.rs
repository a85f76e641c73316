use js_cgi::route::{
    asks_for_directory, begins_with_doctype, is_server_page, listen_port, marks_page,
    reply_message, reply_status, requested_path, serve_file, Reply, ServeAction, ServeEvent,
    ServeState,
};

type Parts = Vec<Vec<u8>>;

fn parts(names: &[&str]) -> Parts {
    names.iter().map(|n| n.as_bytes().to_vec()).collect()
}

fn ask(static_dir: Option<&str>, file_path: &str) -> (ServeState<String>, String) {
    let event = ServeEvent::Requested {
        static_dir: static_dir.map(|s| s.to_string()),
        file_path: file_path.to_string(),
    };
    match serve_file(ServeState::Start, event) {
        (state, Some(ServeAction::Locate { path, .. })) => (state, path),
        _ => panic!("not asked to locate"),
    }
}

fn locate(
    state: ServeState<String>,
    root: Option<Parts>,
    full: Option<Parts>,
) -> (ServeState<String>, Option<ServeAction<String>>) {
    serve_file(state, ServeEvent::Located { root, full })
}

#[test]
fn files_that_are_asked_for() {
    assert_eq!(ask(None, "a.html").1, "./public/a.html");
    assert_eq!(ask(Some("/srv"), "a/").1, "/srv/a/index.html");
    assert_eq!(ask(Some("/srv"), "").1, "/srv/index.html");
    assert_eq!(requested_path("/srv", "x.css"), "/srv/x.css");
    assert!(asks_for_directory("") && asks_for_directory("a/") && !asks_for_directory("a"));
}

#[test]
fn a_missing_file() {
    let (state, _) = ask(Some("/srv"), "a.html");
    let (state, action) = locate(state, Some(parts(&["/", "srv"])), None);
    assert!(matches!(action, Some(ServeAction::Respond(Reply::NotFound))));
    assert!(matches!(state, ServeState::Done));
}

#[test]
fn a_file_outside_the_directory() {
    let (state, _) = ask(Some("/srv"), "../etc/passwd");
    let root = Some(parts(&["/", "srv"]));
    let (state, action) = locate(state, root, Some(parts(&["/", "etc", "passwd"])));
    assert!(matches!(action, Some(ServeAction::Respond(Reply::Forbidden))));
    assert!(matches!(state, ServeState::Done));
}

#[test]
fn a_directory_that_does_not_exist_counts_as_written() {
    let (state, _) = ask(Some("/srv/x"), "a.css");
    let (_, action) = locate(state, None, Some(parts(&["/", "srv", "x", "a.css"])));
    assert!(matches!(action, Some(ServeAction::Stream { path }) if path == "/srv/x/a.css"));
    let (state, _) = ask(Some("/srv/x"), "a.css");
    let (_, action) = locate(state, None, Some(parts(&["/", "srv", "y", "a.css"])));
    assert!(matches!(action, Some(ServeAction::Respond(Reply::Forbidden))));
}

fn reading(file: &str) -> ServeState<String> {
    let (state, _) = ask(Some("/srv"), file);
    let root = Some(parts(&["/", "srv"]));
    let (state, action) = locate(state, root, Some(parts(&["/", "srv", file])));
    assert!(matches!(action, Some(ServeAction::ReadPage { .. })));
    state
}

#[test]
fn a_plain_page() {
    let page = "<!doctype html><script server>x</script>".to_string();
    let (state, action) = serve_file(reading("a.htm"), ServeEvent::PageRead(Some(page.clone())));
    assert!(matches!(action, Some(ServeAction::Respond(Reply::Html(p))) if p == page));
    assert!(matches!(state, ServeState::Done));
}

#[test]
fn a_page_that_cannot_be_read() {
    let (_, action) = serve_file(reading("a.html"), ServeEvent::PageRead(None));
    assert!(matches!(action, Some(ServeAction::Respond(Reply::NotFound))));
}

#[test]
fn a_page_with_scripts() {
    let page = " <!DocType Server>\n<p>".to_string();
    let (state, action) = serve_file(reading("a.html"), ServeEvent::PageRead(Some(page.clone())));
    match action {
        Some(ServeAction::Render { content, url }) => {
            assert_eq!(content, page);
            assert_eq!(url, "/a.html");
        }
        _ => panic!("not rendered"),
    }
    let (state, action) = serve_file(state, ServeEvent::Rendered(Some("done".to_string())));
    assert!(matches!(action, Some(ServeAction::Respond(Reply::Html(p))) if p == "done"));
    let (state, action) = serve_file(state, ServeEvent::Rendered(None));
    assert!(matches!(state, ServeState::Done) && action.is_none());
}

#[test]
fn scripts_that_could_not_be_run() {
    let (_, action) = serve_file(ServeState::Rendering, ServeEvent::Rendered(None));
    assert!(matches!(action, Some(ServeAction::Respond(Reply::ScriptFailure))));
}

#[test]
fn other_files() {
    let (_, action) = serve_file(ServeState::Streaming, ServeEvent::Streamed(true));
    assert!(matches!(action, Some(ServeAction::Respond(Reply::File))));
    let (_, action) = serve_file(ServeState::Streaming, ServeEvent::Streamed(false));
    assert!(matches!(action, Some(ServeAction::Respond(Reply::FileFailure))));
}

#[test]
fn events_out_of_place_change_nothing() {
    let (state, action) = serve_file(ServeState::Start, ServeEvent::Streamed(true));
    assert!(matches!(state, ServeState::Start) && action.is_none());
    let (state, action) = serve_file(ServeState::Rendering, ServeEvent::PageRead(None));
    assert!(matches!(state, ServeState::Rendering) && action.is_none());
}

#[test]
fn extensions_of_pages() {
    assert!(marks_page("html") && marks_page("htm"));
    assert!(!marks_page("HTML") && !marks_page("") && !marks_page("xhtml"));
}

#[test]
fn pages_with_the_server_doctype() {
    assert!(is_server_page("<!doctype server>"));
    assert!(is_server_page("<!DOCTYPE SERVER><html>"));
    assert!(is_server_page("\u{feff}<!doctype server>") == false);
    assert!(is_server_page("\r\n\t <!Doctype serveR>é"));
    assert!(!is_server_page("<!doctype html>"));
    assert!(!is_server_page("<!doctype  server>"));
    assert!(!is_server_page("<p><!doctype server>"));
    assert!(!is_server_page(""));
    assert!(begins_with_doctype(" <!doctype server>"));
    assert!(!begins_with_doctype("<!DOCTYPE SERVER>"));
}

#[test]
fn answers() {
    assert_eq!(reply_status(&Reply::NotFound), Some(404));
    assert_eq!(reply_status(&Reply::Forbidden), Some(403));
    assert_eq!(reply_status(&Reply::Html("x".to_string())), Some(200));
    assert_eq!(reply_status(&Reply::ScriptFailure), Some(500));
    assert_eq!(reply_status(&Reply::File), None);
    assert_eq!(reply_status(&Reply::FileFailure), Some(500));
    assert_eq!(reply_message(Reply::NotFound), Some("".to_string()));
    assert_eq!(reply_message(Reply::Forbidden), Some("Forbidden".to_string()));
    assert_eq!(reply_message(Reply::Html("x".to_string())), Some("x".to_string()));
    assert_eq!(reply_message(Reply::ScriptFailure), Some("Server Js Error".to_string()));
    assert_eq!(reply_message(Reply::File), None);
    assert_eq!(reply_message(Reply::FileFailure), Some("".to_string()));
}

#[test]
fn ports() {
    assert_eq!(listen_port(None), 3000);
    assert_eq!(listen_port(Some("8080".to_string())), 8080);
    assert_eq!(listen_port(Some("x".to_string())), 3000);
    assert_eq!(listen_port(Some("70000".to_string())), 3000);
}

#[test]
fn an_index_page_stands_for_its_directory() {
    for (directory, index) in [("", "index.html"), ("a/", "a/index.html")] {
        let mut pages = Vec::new();
        for file in [directory, index] {
            let (state, path) = ask(Some("/srv"), file);
            assert_eq!(path, format!("/srv/{}", index));
            let root = Some(parts(&["/", "srv"]));
            let (state, _) = locate(state, root, Some(parts(&["/", "srv", "index.html"])));
            match serve_file(state, ServeEvent::PageRead(Some("<p>".to_string()))) {
                (_, Some(ServeAction::Respond(Reply::Html(page)))) => pages.push(page),
                _ => panic!("not answered with a page"),
            }
        }
        assert_eq!(pages, vec!["<p>".to_string(), "<p>".to_string()]);
    }
}
