use js_cgi::engine::EvalReply;
use js_cgi::globals::{header_fields, inject_server_globals, query_fields, request_fields};
use js_cgi::host::{ResponseState, SessionStore};
use js_cgi::scripts::{
    better_eval_scripts, create_js_context, eval_result, execute_server_scripts, render_page, run_script,
    run_scripts, script_replacement, ScriptError, ServerRequest,
};
use js_cgi::string_map::StringMap;
use js_cgi::tags::{extract_server_scripts, replace_scripts};
use rquickjs::{Context, Error, Function};
use std::sync::atomic::{AtomicUsize, Ordering};
use std::sync::{Arc, Mutex};

fn request() -> ServerRequest {
    let mut headers = StringMap::new();
    headers.insert("user-agent".to_string(), "probe".to_string());
    headers.insert("cookie".to_string(), "sid=s1; theme=dark".to_string());
    let mut query = StringMap::new();
    query.insert("q".to_string(), "search".to_string());
    ServerRequest {
        method: "GET".to_string(),
        url: "/a.html".to_string(),
        headers,
        query,
        body: "{\"n\": 41}".to_string(),
        remote_addr: "10.0.0.9".to_string(),
        remote_port: 5123,
        is_https: true,
        protocol: "HTTP/1.1".to_string(),
        content_length: 999,
        content_type: "application/json".to_string(),
        server_user: "joe".to_string(),
        server_name: "example.org".to_string(),
        server_port: 8080,
        server_home: "/home/joe".to_string(),
        server_addr: "192.168.1.2".to_string(),
    }
}

fn nothing(_: &Context) -> Result<(), Error> {
    Ok(())
}

fn render(page: &str) -> String {
    execute_server_scripts(page, &request(), nothing, nothing).unwrap().page
}

fn value(expression: &str) -> String {
    render(&format!("<script server>write({})</script>", expression))
}

#[test]
fn a_page_without_scripts_is_given_back() {
    assert_eq!(render("<p>é</p>"), "<p>é</p>");
    let refuse = |_: &Context| Err(Error::Unknown);
    assert_eq!(execute_server_scripts("x", &request(), refuse, refuse).unwrap().page, "x");
}

#[test]
fn scripts_are_replaced_by_what_they_write() {
    let page = "a<script server>write(1 + 1)</script>é<script server>let x = 3;</script>b\
                <script server>write('é', x)</script>c";
    assert_eq!(render(page), "a2éb\u{e9} 3c");
}

#[test]
fn what_one_script_writes_does_not_show_in_the_next() {
    let page = "<script server>write('one')</script>|<script server>write('two')</script>";
    assert_eq!(render(page), "one|two");
}

#[test]
fn a_script_that_fails_leaves_a_remark() {
    let remark = "<!-- Server JS Error -->";
    assert_eq!(
        render("<<script server>write('x'); boom()</script>><script server>write(1)</script>"),
        format!("<{}>1", remark)
    );
    assert_eq!(render("<script server>throw 3</script>"), remark);
    assert_eq!(render("<script server>(</script>"), remark);
    assert_eq!(render("<script server>1\0</script>"), remark);
}

#[test]
fn replacements_of_any_length_keep_the_rest() {
    let page = "<script server>write('x'.repeat(100))</script>-<script server></script>-\
                <script server>write('y')</script>.";
    assert_eq!(render(page), format!("{}--y.", "x".repeat(100)));
}

#[test]
fn scripts_see_the_request() {
    assert_eq!(value("REQ.method"), "GET");
    assert_eq!(value("REQ.url"), "/a.html");
    assert_eq!(value("REQ.body.n + 1"), "42");
    assert_eq!(value("REQ.remote_addr"), "10.0.0.9");
    assert_eq!(value("REQ.remote_port + 1"), "5124");
    assert_eq!(value("REQ.server_addr"), "192.168.1.2");
    assert_eq!(value("REQ.server_port + 1"), "8081");
    assert_eq!(value("REQ.server_name"), "example.org");
    assert_eq!(value("REQ.server_user"), "joe");
    assert_eq!(value("REQ.server_home"), "/home/joe");
    assert_eq!(value("REQ.protocol"), "HTTP/1.1");
    assert_eq!(value("REQ.content_type"), "application/json");
    assert_eq!(value("REQ.content_length"), "9");
    assert_eq!(value("REQ.is_https === true"), "true");
    assert_eq!(value("REQ.query.q"), "search");
    assert_eq!(value("REQ.headers.user_agent"), "probe");
    assert_eq!(value("REQ.headers['user-agent']"), "undefined");
}

#[test]
fn scripts_take_paths_apart() {
    assert_eq!(value("path.join('/a', 'b.c')"), "/a/b.c");
    assert_eq!(value("path.dirname('/a/b.c')"), "/a");
    assert_eq!(value("path.basename('/a/b.c')"), "b.c");
    assert_eq!(value("path.extname('/a/b.c')"), "c");
}

#[test]
fn scripts_read_cookies_and_sessions() {
    assert_eq!(value("COOKIE.get('theme')"), "dark");
    assert_eq!(value("COOKIE.get('none') === undefined || COOKIE.get('none') === null"), "true");
    let page = "<script server>SESSION.set('k', 'v')</script>\
                <script server>write(SESSION.get('k'))</script>";
    assert_eq!(render(page), "v");
    assert_eq!(value("SESSION.get('k') == null"), "true");
}

#[test]
fn scripts_change_the_response_and_the_session() {
    let (_runtime, mut engine) = create_js_context().unwrap();
    let state = Arc::new(Mutex::new(ResponseState::default()));
    let store = Arc::new(Mutex::new(SessionStore::new()));
    inject_server_globals(&mut engine, &request(), &state, &store, nothing, nothing).unwrap();
    let script = "RES.status(404); RES.status(418); RES.setHeader('X-A', 'b'); \
                  COOKIE.set('c', 'd'); SESSION.set('k', 'v'); write('done')";
    assert_eq!(better_eval_scripts(&mut engine, script), Ok(()));
    assert_eq!(engine.read_output(), "done");
    engine.clear_output();
    assert_eq!(engine.read_output(), "");
    let state = state.lock().unwrap();
    assert_eq!(state.status, Some(418));
    assert_eq!(state.headers.get("X-A"), Some(&"b".to_string()));
    assert_eq!(state.cookies.get("c"), Some(&"d".to_string()));
    assert_eq!(store.lock().unwrap().get("s1", "k"), Some("v".to_string()));
    assert_eq!(store.lock().unwrap().get("default_sid", "k"), None);
}

#[test]
fn what_reaches_outside_is_installed_with_the_rest() {
    let install = |c: &Context| c.with(|c| c.globals().set("answer", 42));
    let page = "<script server>write(answer)</script>";
    assert_eq!(execute_server_scripts(page, &request(), install, nothing).unwrap().page, "42");
}

#[test]
fn variables_are_set_in_order() {
    let fs = |c: &Context| c.with(|c| c.globals().set("fs", 1));
    let log = |c: &Context| c.with(|c| c.globals().set("__log", 2));
    let page = "<script server>write(...Object.keys(globalThis).slice(-10))</script>";
    assert_eq!(
        execute_server_scripts(page, &request(), fs, log).unwrap().page,
        "REQ RES fs path COOKIE SESSION __write __log console write"
    );
}

#[test]
fn an_engine_that_refuses_a_variable() {
    let refuse = |_: &Context| Err(Error::Unknown);
    let page = "<script server>write(1)</script>";
    let r = execute_server_scripts(page, &request(), refuse, nothing);
    assert!(matches!(r, Err(ScriptError::Engine(Error::Unknown))));
    let r = execute_server_scripts(page, &request(), nothing, refuse);
    assert!(matches!(r, Err(ScriptError::Engine(Error::Unknown))));
}

#[test]
fn a_prelude_that_fails() {
    let spoil = |c: &Context| {
        c.with(|c| {
            c.eval::<(), _>(
                "Object.defineProperty(globalThis, 'console', \
                 { set() { throw new Error('spoiled') } })",
            )
        })
    };
    let page = "<script server>write(1)</script>";
    match execute_server_scripts(page, &request(), spoil, nothing) {
        Err(ScriptError::Script(message)) => assert!(message.contains("spoiled")),
        _ => panic!("the prelude ran"),
    }
}

#[test]
fn messages_of_failed_scripts() {
    let (_runtime, mut engine) = create_js_context().unwrap();
    let e = better_eval_scripts(&mut engine, "throw new Error('bad')").unwrap_err();
    assert!(e.contains("bad"), "{}", e);
    let e = better_eval_scripts(&mut engine, "throw 3").unwrap_err();
    assert_eq!(e, "Unknown JavaScript error");
    let e = better_eval_scripts(&mut engine, "1\0").unwrap_err();
    assert!(!e.is_empty() && e != "Unknown JavaScript error");
    assert_eq!(better_eval_scripts(&mut engine, "1"), Ok(()));
}

#[test]
fn results_of_evaluation() {
    let m = |s: &str| Some(s.to_string());
    assert_eq!(eval_result(EvalReply::Completed), Ok(()));
    assert_eq!(eval_result(EvalReply::Thrown(m("e"))), Err("e".to_string()));
    assert_eq!(
        eval_result(EvalReply::Thrown(None)),
        Err("Unknown JavaScript error".to_string())
    );
    assert_eq!(eval_result(EvalReply::Failed("f".to_string())), Err("f".to_string()));
    assert_eq!(script_replacement(&Ok(()), "out".to_string()), "out");
    assert_eq!(
        script_replacement(&Err("e".to_string()), "out".to_string()),
        "<!-- Server JS Error -->"
    );
}

#[test]
fn running_scripts_in_an_engine() {
    let (_runtime, mut engine) = create_js_context().unwrap();
    let state = Arc::new(Mutex::new(ResponseState::default()));
    let store = Arc::new(Mutex::new(SessionStore::new()));
    inject_server_globals(&mut engine, &request(), &state, &store, nothing, nothing).unwrap();
    assert_eq!(run_script(&mut engine, "var n = 1; write('a')"), ("a".to_string(), None));
    assert_eq!(run_script(&mut engine, "write(n)"), ("1".to_string(), None));
    assert_eq!(run_script(&mut engine, ""), ("".to_string(), None));
    assert_eq!(
        run_script(&mut engine, "write('x'); throw 3"),
        (
            "<!-- Server JS Error -->".to_string(),
            Some("Unknown JavaScript error".to_string())
        )
    );
    let html = "[<script server>n = n + 1</script><script server>write(n)</script>]";
    let blocks = extract_server_scripts(html);
    let (outputs, errors) = run_scripts(&mut engine, &blocks);
    assert_eq!(errors.len(), 0);
    assert_eq!(outputs, vec!["".to_string(), "2".to_string()]);
    assert_eq!(replace_scripts(html, &blocks, &outputs), "[2]");
}

#[test]
fn fields_of_a_request() {
    let r = request();
    assert_eq!(request_fields(&r).len(), 14);
    assert_eq!(request_fields(&r)[0].0, "method");
    assert_eq!(query_fields(&r.query).len(), 1);
    assert_eq!(query_fields(&r.query)[0].0, "q");
    assert_eq!(header_fields(&r.headers)[0].0, "user_agent");
    assert_eq!(header_fields(&r.headers)[1].0, "cookie");
}

#[test]
fn the_messages_of_failing_scripts_are_given_back() {
    let page = "<script server>throw new Error('first')</script>-\
                <script server>write(1)</script>-<script server>throw 3</script>";
    let r = execute_server_scripts(page, &request(), nothing, nothing).unwrap();
    assert_eq!(r.page, "<!-- Server JS Error -->-1-<!-- Server JS Error -->");
    assert_eq!(r.errors.len(), 2);
    assert!(r.errors[0].contains("first"));
    assert_eq!(r.errors[1], "Unknown JavaScript error");
    let r = execute_server_scripts("plain", &request(), nothing, nothing).unwrap();
    assert_eq!(r.errors.len(), 0);
}

#[test]
fn what_an_exception_writes_belongs_to_its_script() {
    let (_runtime, mut engine) = create_js_context().unwrap();
    let state = Arc::new(Mutex::new(ResponseState::default()));
    let store = Arc::new(Mutex::new(SessionStore::new()));
    inject_server_globals(&mut engine, &request(), &state, &store, nothing, nothing).unwrap();
    let script = "throw Object.defineProperty(new Error('e'), 'message', \
                  {get() { __write('late'); return 'e'; }})";
    assert!(better_eval_scripts(&mut engine, script).is_err());
    assert!(engine.read_output().starts_with("late"));
    assert_eq!(run_script(&mut engine, "write(1)"), ("1".to_string(), None));
}

#[test]
fn setting_up_an_engine_writes_and_changes_nothing() {
    let (_runtime, mut engine) = create_js_context().unwrap();
    assert_eq!(engine.read_output(), "");
    let mut first = ResponseState::default();
    first.set_status(201);
    let mut sessions = SessionStore::new();
    sessions.set("s1", "k".to_string(), "v".to_string());
    let state = Arc::new(Mutex::new(first));
    let store = Arc::new(Mutex::new(sessions));
    inject_server_globals(&mut engine, &request(), &state, &store, nothing, nothing).unwrap();
    assert_eq!(engine.read_output(), "");
    assert_eq!(state.lock().unwrap().status, Some(201));
    assert_eq!(state.lock().unwrap().headers.len(), 0);
    assert_eq!(state.lock().unwrap().cookies.len(), 0);
    assert_eq!(store.lock().unwrap().get("s1", "k"), Some("v".to_string()));
    assert_eq!(run_script(&mut engine, "write(SESSION.get('k'))").0, "v");
}

#[test]
fn engines_share_nothing() {
    let (_first_runtime, mut first) = create_js_context().unwrap();
    let (_second_runtime, mut second) = create_js_context().unwrap();
    assert_eq!(better_eval_scripts(&mut first, "var shared = 1"), Ok(()));
    assert_eq!(better_eval_scripts(&mut first, "shared"), Ok(()));
    assert!(better_eval_scripts(&mut second, "shared").is_err());
    assert!(better_eval_scripts(&mut second, "REQ").is_err());
    assert_eq!(better_eval_scripts(&mut second, "var shared = 2"), Ok(()));
    assert_eq!(
        better_eval_scripts(&mut first, "if (shared !== 1) { throw new Error('changed') }"),
        Ok(())
    );
    let page = "<script server>write(typeof left); globalThis.left = 1; REQ.url = 'x'</script>\
                <script server>SESSION.set('k', 'v')</script>";
    assert_eq!(render(page), "undefined");
    assert_eq!(render(page), "undefined");
    assert_eq!(value("REQ.url"), "/a.html");
}

#[test]
fn text_in_front_of_a_page_stays_in_front() {
    let page = "a<script server>write('é')</script>b<script server>write(2)</script>";
    let front = "ü> script server \n";
    assert_eq!(render(page), "aéb2");
    assert_eq!(render(&format!("{}{}", front, page)), format!("{}aéb2", front));
}

#[test]
fn a_variable_that_the_engine_refuses() {
    let spoil = |c: &Context| {
        c.with(|c| {
            c.eval::<(), _>(
                "Object.defineProperty(globalThis, 'path', \
                 { set() { throw new Error('refused') } })",
            )
        })
    };
    let page = "<script server>write(1)</script>";
    let r = execute_server_scripts(page, &request(), spoil, nothing);
    assert!(matches!(r, Err(ScriptError::Engine(Error::Exception))));
}

#[test]
fn each_script_runs_once() {
    let calls = Arc::new(AtomicUsize::new(0));
    let count = |c: &Context| {
        let calls = calls.clone();
        c.with(|c| {
            let call = move || {
                calls.fetch_add(1, Ordering::SeqCst);
            };
            c.globals().set("count", Function::new(c.clone(), call)?)
        })
    };
    let page = "<script server>count(); write(1)</script><script server>count(); x()</script>";
    let (_runtime, mut engine) = create_js_context().unwrap();
    let blocks = extract_server_scripts(page);
    let r = render_page(&mut engine, page, &blocks, &request(), &count, nothing).unwrap();
    assert_eq!(r.page, "1<!-- Server JS Error -->");
    assert_eq!(r.errors.len(), 1);
    assert_eq!(calls.load(Ordering::SeqCst), 2);
    let again = execute_server_scripts(page, &request(), &count, nothing).unwrap();
    assert_eq!(again.page, r.page);
    assert_eq!(again.errors, r.errors);
    assert_eq!(calls.load(Ordering::SeqCst), 4);
}

#[test]
fn a_page_that_cannot_be_rendered_runs_no_script() {
    let page = "<script server>write(1)</script>";
    let blocks = extract_server_scripts(page);
    let refuse = |_: &Context| Err(Error::Unknown);
    let (_runtime, mut engine) = create_js_context().unwrap();
    let r = render_page(&mut engine, page, &blocks, &request(), nothing, refuse);
    assert!(matches!(r, Err(ScriptError::Engine(Error::Unknown))));
    assert_eq!(engine.read_output(), "");
}
