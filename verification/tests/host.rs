use js_cgi::engine::{append_text, path_part, set_response_text, PathPart, ResponseMap};
use js_cgi::host::{cookie_get, parse_cookies, session_id, ResponseState, SessionStore};
use js_cgi::paths::{
    is_within, name_extension, path_basename, path_dirname, path_extname, path_join,
};

#[test]
fn cookies_of_a_header() {
    let cookies = parse_cookies("a=1; b = x=y ;flag; a=2;=empty; c=");
    assert_eq!(cookie_get(&cookies, "a"), Some("2".to_string()));
    assert_eq!(cookie_get(&cookies, "b"), Some("x=y".to_string()));
    assert_eq!(cookie_get(&cookies, "flag"), None);
    assert_eq!(cookie_get(&cookies, ""), Some("empty".to_string()));
    assert_eq!(cookie_get(&cookies, "c"), Some("".to_string()));
    assert_eq!(cookies.len(), 4);
    assert_eq!(parse_cookies("").len(), 0);
}

#[test]
fn the_session_of_a_request() {
    assert_eq!(session_id(&parse_cookies("x=1; sid=abc")), "abc");
    assert_eq!(session_id(&parse_cookies("x=1")), "default_sid");
    assert_eq!(session_id(&parse_cookies("SID=1")), "default_sid");
}

#[test]
fn sessions_keep_their_own_values() {
    let mut store = SessionStore::new();
    assert_eq!(store.get("a", "k"), None);
    store.set("a", "k".to_string(), "1".to_string());
    store.set("b", "k".to_string(), "2".to_string());
    store.set("a", "l".to_string(), "3".to_string());
    assert_eq!(store.get("a", "k"), Some("1".to_string()));
    assert_eq!(store.get("a", "l"), Some("3".to_string()));
    assert_eq!(store.get("b", "k"), Some("2".to_string()));
    assert_eq!(store.get("b", "l"), None);
    store.set("a", "k".to_string(), "4".to_string());
    assert_eq!(store.get("a", "k"), Some("4".to_string()));
    assert_eq!(store.get("b", "k"), Some("2".to_string()));
}

#[test]
fn the_response_keeps_what_was_asked_last() {
    let mut state = ResponseState::default();
    assert_eq!(state.status, None);
    state.set_status(404);
    state.set_status(201);
    set_response_text(&mut state, ResponseMap::Headers, "k".to_string(), "h".to_string());
    set_response_text(&mut state, ResponseMap::Cookies, "k".to_string(), "c".to_string());
    assert_eq!(state.status, Some(201));
    assert_eq!(state.headers.get("k"), Some(&"h".to_string()));
    assert_eq!(state.cookies.get("k"), Some(&"c".to_string()));
    assert_eq!(state.headers.len(), 1);
    assert_eq!(state.cookies.len(), 1);
}

#[test]
fn parts_of_paths() {
    assert_eq!(path_join("/a", "b.txt"), "/a/b.txt");
    assert_eq!(path_join("/a", "/b"), "/b");
    assert_eq!(path_dirname("/a/b.txt"), "/a");
    assert_eq!(path_dirname("/"), "");
    assert_eq!(path_basename("/a/b.txt"), "b.txt");
    assert_eq!(path_basename("/a/.."), "");
    assert_eq!(path_extname("/a/b.tar.gz"), "gz");
    assert_eq!(path_extname("/a/.hidden"), "");
    assert_eq!(path_extname("/"), "");
    assert_eq!(path_part(PathPart::Dirname, "x/y"), "x");
    assert_eq!(path_part(PathPart::Basename, "x/y"), "y");
    assert_eq!(path_part(PathPart::Extname, "x/y.z"), "z");
}

#[test]
fn extensions_are_those_of_the_standard_library() {
    for name in ["", "a", "a.b", ".a", ".a.b", "a.", "a.b.c", "é.ü", "..a", "a..", "...", "a.b/"] {
        let expected = std::path::Path::new(name)
            .extension()
            .map(|e| e.to_str().unwrap().to_string());
        assert_eq!(path_extname(name), expected.unwrap_or_default(), "{:?}", name);
    }
    assert_eq!(name_extension("index.html"), Some("html".to_string()));
    assert_eq!(name_extension(".html"), None);
    assert_eq!(name_extension("html"), None);
    assert_eq!(name_extension("a."), Some("".to_string()));
}

fn parts(names: &[&str]) -> Vec<Vec<u8>> {
    names.iter().map(|n| n.as_bytes().to_vec()).collect()
}

#[test]
fn below_a_directory() {
    let base = parts(&["/", "srv", "www"]);
    assert!(is_within(&parts(&["/", "srv", "www", "a"]), &base));
    assert!(is_within(&base, &base));
    assert!(!is_within(&parts(&["/", "srv"]), &base));
    assert!(!is_within(&parts(&["/", "srv", "wwwx"]), &base));
    assert!(!is_within(&parts(&["/", "etc", "passwd"]), &base));
}

#[test]
fn written_text_is_appended() {
    let mut written = "a".to_string();
    append_text(&mut written, "é");
    append_text(&mut written, "");
    assert_eq!(written, "aé");
}
