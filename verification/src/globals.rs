//! The global variables that scripts find: the request, the response, paths, cookies, the
//! session and `write`.
use crate::engine::{
    bind_cookie_get, bind_path_join, bind_path_part, bind_response_map, bind_session_get,
    bind_session_set, bind_status, bind_write, new_object, object_contents, set_global, set_object,
    set_value, was_given, ContextEntry, Engine, HostFunction, JsEntry, JsObject, JsValue, PathPart,
    ResponseMap,
};
use crate::host::{
    cookies_of, law_no_cookies_without_equals, parse_cookies, session_id, session_id_of, texts,
    ResponseState, SessionStore,
};
use crate::scripts::{better_eval_scripts, failure, is_eval_result, JsResult, ScriptError, ServerRequest};
use crate::string_map::{distinct_keys, lemma_map_of_distinct, map_of, StringMap};
use crate::text::{replace_char, replaced};
use rquickjs::{Context, Error};
use std::sync::{Arc, Mutex};
use vstd::prelude::*;
use vstd::string::*;
use vstd::utf8::*;

verus! {

/// The script that every engine evaluates before those of the page.
pub const PRELUDE: &'static str = r#"
        globalThis.console = {
            log: (...args) => __log(args.map(String).join(" "))
        };
        globalThis.console.error = globalThis.console.log;
        globalThis.console.warn = globalThis.console.log;
        globalThis.console.info = globalThis.console.log;
        globalThis.write = (...args) => __write(args.map(String).join(" "));
        try { globalThis.REQ.body = JSON.parse(globalThis.REQ.body); } catch(e) {}
    "#;

/// The plain properties of `REQ`.  The content length is that of the body, in bytes.
pub open spec fn request_entries(request: ServerRequest) -> Seq<(Seq<char>, JsEntry)> {
    seq![
        ("method"@, JsEntry::Text(request.method@)),
        ("url"@, JsEntry::Text(request.url@)),
        ("body"@, JsEntry::Text(request.body@)),
        ("remote_addr"@, JsEntry::Text(request.remote_addr@)),
        ("remote_port"@, JsEntry::Number(request.remote_port as nat)),
        ("server_addr"@, JsEntry::Text(request.server_addr@)),
        ("server_port"@, JsEntry::Number(request.server_port as nat)),
        ("server_name"@, JsEntry::Text(request.server_name@)),
        ("server_user"@, JsEntry::Text(request.server_user@)),
        ("server_home"@, JsEntry::Text(request.server_home@)),
        ("protocol"@, JsEntry::Text(request.protocol@)),
        ("content_type"@, JsEntry::Text(request.content_type@)),
        ("content_length"@, JsEntry::Number(encode_utf8(request.body@).len())),
        ("is_https"@, JsEntry::Flag(request.is_https)),
    ]
}

/// The properties of `REQ.query`: each parameter under its name.
pub open spec fn query_entries(query: StringMap<String>) -> Seq<(Seq<char>, JsEntry)> {
    query.pairs().map_values(|p: (Seq<char>, String)| (p.0, JsEntry::Text(p.1@)))
}

/// The properties of `REQ.headers`: each header under its name, with `_` for every `-`.
pub open spec fn header_entries(headers: StringMap<String>) -> Seq<(Seq<char>, JsEntry)> {
    headers.pairs().map_values(
        |p: (Seq<char>, String)| (replaced(p.0, '-', '_'), JsEntry::Text(p.1@)),
    )
}

/// The properties of `REQ`.
pub open spec fn req_entries(request: ServerRequest) -> Seq<(Seq<char>, JsEntry)> {
    request_entries(request).push(
        ("query"@, JsEntry::Object(query_entries(request.query))),
    ).push(("headers"@, JsEntry::Object(header_entries(request.headers))))
}

/// The properties of `RES`.
pub open spec fn res_entries(state: Arc<Mutex<ResponseState>>) -> Seq<(Seq<char>, JsEntry)> {
    seq![
        ("status"@, JsEntry::Function(HostFunction::SetStatus(state))),
        (
            "setHeader"@,
            JsEntry::Function(HostFunction::SetResponse(state, ResponseMap::Headers)),
        ),
    ]
}

/// The properties of `path`.
pub open spec fn path_entries() -> Seq<(Seq<char>, JsEntry)> {
    seq![
        ("join"@, JsEntry::Function(HostFunction::JoinPath)),
        ("dirname"@, JsEntry::Function(HostFunction::TakePath(PathPart::Dirname))),
        ("basename"@, JsEntry::Function(HostFunction::TakePath(PathPart::Basename))),
        ("extname"@, JsEntry::Function(HostFunction::TakePath(PathPart::Extname))),
    ]
}

/// The cookies that a request carries.
pub open spec fn request_cookies(request: ServerRequest) -> Map<Seq<char>, Seq<char>> {
    if request.headers@.dom().contains("cookie"@) {
        cookies_of(request.headers@["cookie"@]@)
    } else {
        cookies_of(seq![])
    }
}

/// The properties of `COOKIE`.
pub open spec fn cookie_entries(
    state: Arc<Mutex<ResponseState>>,
    cookies: Map<Seq<char>, Seq<char>>,
) -> Seq<(Seq<char>, JsEntry)> {
    seq![
        ("set"@, JsEntry::Function(HostFunction::SetResponse(state, ResponseMap::Cookies))),
        ("get"@, JsEntry::Function(HostFunction::GetCookie(cookies))),
    ]
}

/// The properties of `SESSION`.
pub open spec fn session_entries(store: Arc<Mutex<SessionStore>>, sid: Seq<char>) -> Seq<
    (Seq<char>, JsEntry),
> {
    seq![
        ("get"@, JsEntry::Function(HostFunction::GetSession(store, sid))),
        ("set"@, JsEntry::Function(HostFunction::SetSession(store, sid))),
    ]
}

/// The global variables for a request, in the order in which they are set.
pub open spec fn server_globals(
    request: ServerRequest,
    state: Arc<Mutex<ResponseState>>,
    store: Arc<Mutex<SessionStore>>,
) -> Seq<ContextEntry> {
    let cookies = request_cookies(request);
    seq![
        ContextEntry::Global("REQ"@, JsEntry::Object(req_entries(request))),
        ContextEntry::Global("RES"@, JsEntry::Object(res_entries(state))),
        ContextEntry::Global("path"@, JsEntry::Object(path_entries())),
        ContextEntry::Global("COOKIE"@, JsEntry::Object(cookie_entries(state, cookies))),
        ContextEntry::Global(
            "SESSION"@,
            JsEntry::Object(session_entries(store, session_id_of(cookies))),
        ),
        ContextEntry::Global("__write"@, JsEntry::Function(HostFunction::Write)),
    ]
}

/// A list of named values, as the properties that they make.
pub open spec fn fields_of(fields: Seq<(String, JsValue)>) -> Seq<(Seq<char>, JsEntry)> {
    fields.map_values(|f: (String, JsValue)| (f.0@, f.1.entry()))
}

/// The plain properties of `REQ`.
pub fn request_fields(request: &ServerRequest) -> (fields: Vec<(String, JsValue)>)
    ensures
        fields_of(fields@) == request_entries(*request),
{
    let mut fields: Vec<(String, JsValue)> = Vec::new();
    fields.push(("method".to_owned(), JsValue::Text(request.method.clone())));
    fields.push(("url".to_owned(), JsValue::Text(request.url.clone())));
    fields.push(("body".to_owned(), JsValue::Text(request.body.clone())));
    fields.push(("remote_addr".to_owned(), JsValue::Text(request.remote_addr.clone())));
    fields.push(("remote_port".to_owned(), JsValue::Number(request.remote_port as usize)));
    fields.push(("server_addr".to_owned(), JsValue::Text(request.server_addr.clone())));
    fields.push(("server_port".to_owned(), JsValue::Number(request.server_port as usize)));
    fields.push(("server_name".to_owned(), JsValue::Text(request.server_name.clone())));
    fields.push(("server_user".to_owned(), JsValue::Text(request.server_user.clone())));
    fields.push(("server_home".to_owned(), JsValue::Text(request.server_home.clone())));
    fields.push(("protocol".to_owned(), JsValue::Text(request.protocol.clone())));
    fields.push(("content_type".to_owned(), JsValue::Text(request.content_type.clone())));
    fields.push(
        ("content_length".to_owned(), JsValue::Number(request.body.as_str().as_bytes().len())),
    );
    fields.push(("is_https".to_owned(), JsValue::Flag(request.is_https)));
    assert(fields_of(fields@) =~= request_entries(*request));
    fields
}

/// The properties of `REQ.query`.
pub fn query_fields(query: &StringMap<String>) -> (fields: Vec<(String, JsValue)>)
    ensures
        fields_of(fields@) == query_entries(*query),
{
    let n: usize = query.len();
    let mut fields: Vec<(String, JsValue)> = Vec::new();
    let mut i: usize = 0;
    while i < n
        invariant
            n == query.pairs().len(),
            i <= n,
            fields_of(fields@) == query_entries(*query).take(i as int),
        decreases n - i,
    {
        let (key, value) = query.entry(i);
        let ghost before = fields@;
        fields.push((key.clone(), JsValue::Text(value.clone())));
        assert(fields_of(fields@) =~= fields_of(before).push((key@, JsEntry::Text(value@))));
        assert(query_entries(*query).take(i + 1) =~= query_entries(*query).take(i as int).push(
            query_entries(*query)[i as int],
        ));
        i = i + 1;
    }
    assert(query_entries(*query).take(n as int) =~= query_entries(*query));
    fields
}

/// The properties of `REQ.headers`.
pub fn header_fields(headers: &StringMap<String>) -> (fields: Vec<(String, JsValue)>)
    ensures
        fields_of(fields@) == header_entries(*headers),
{
    let n: usize = headers.len();
    let mut fields: Vec<(String, JsValue)> = Vec::new();
    let mut i: usize = 0;
    while i < n
        invariant
            n == headers.pairs().len(),
            i <= n,
            fields_of(fields@) == header_entries(*headers).take(i as int),
        decreases n - i,
    {
        let (key, value) = headers.entry(i);
        let ghost before = fields@;
        proof {
            reveal_strlit("_");
        }
        let name = replace_char(key.as_str(), '-', "_");
        fields.push((name, JsValue::Text(value.clone())));
        assert(fields_of(fields@) =~= fields_of(before).push(
            (replaced(key@, '-', '_'), JsEntry::Text(value@)),
        ));
        assert(header_entries(*headers).take(i + 1) =~= header_entries(*headers).take(
            i as int,
        ).push(header_entries(*headers)[i as int]));
        i = i + 1;
    }
    assert(header_entries(*headers).take(n as int) =~= header_entries(*headers));
    fields
}

/// The engine made an object without a word in the record, or refused and left its error there.
pub open spec fn passed_or_refused(
    before: Seq<ContextEntry>,
    after: Seq<ContextEntry>,
    r: Result<JsObject, Error>,
) -> bool {
    match r {
        Ok(_) => after == before,
        Err(e) => after == before.push(ContextEntry::Refused(e)),
    }
}

/// An object with the given properties.
fn object_with(engine: &mut Engine, fields: &Vec<(String, JsValue)>) -> (r: Result<JsObject, Error>)
    ensures
        r matches Ok(object) ==> object_contents(object) == fields_of(fields@),
        passed_or_refused(old(engine).contents(), final(engine).contents(), r),
{
    let ghost start = engine.contents();
    let mut object = new_object(engine)?;
    let mut i: usize = 0;
    while i < fields.len()
        invariant
            i <= fields@.len(),
            start == old(engine).contents(),
            engine.contents() == start,
            object_contents(object) == fields_of(fields@).take(i as int),
        decreases fields@.len() - i,
    {
        set_value(engine, &mut object, fields[i].0.as_str(), &fields[i].1)?;
        assert(fields_of(fields@).take(i + 1) =~= fields_of(fields@).take(i as int).push(
            fields_of(fields@)[i as int],
        ));
        i = i + 1;
    }
    assert(fields_of(fields@).take(fields@.len() as int) =~= fields_of(fields@));
    Ok(object)
}

fn request_object(engine: &mut Engine, request: &ServerRequest) -> (r: Result<JsObject, Error>)
    ensures
        r matches Ok(object) ==> object_contents(object) == req_entries(*request),
        passed_or_refused(old(engine).contents(), final(engine).contents(), r),
{
    let mut object = object_with(engine, &request_fields(request))?;
    let query = object_with(engine, &query_fields(&request.query))?;
    set_object(engine, &mut object, "query", query)?;
    let headers = object_with(engine, &header_fields(&request.headers))?;
    set_object(engine, &mut object, "headers", headers)?;
    Ok(object)
}

fn response_object(engine: &mut Engine, state: &Arc<Mutex<ResponseState>>) -> (r: Result<
    JsObject,
    Error,
>)
    ensures
        r matches Ok(object) ==> object_contents(object) == res_entries(*state),
        passed_or_refused(old(engine).contents(), final(engine).contents(), r),
{
    let mut object = new_object(engine)?;
    bind_status(engine, &mut object, "status", state)?;
    bind_response_map(engine, &mut object, "setHeader", state, ResponseMap::Headers)?;
    assert(object_contents(object) =~= res_entries(*state));
    Ok(object)
}

fn path_object(engine: &mut Engine) -> (r: Result<JsObject, Error>)
    ensures
        r matches Ok(object) ==> object_contents(object) == path_entries(),
        passed_or_refused(old(engine).contents(), final(engine).contents(), r),
{
    let mut object = new_object(engine)?;
    bind_path_join(engine, &mut object, "join")?;
    bind_path_part(engine, &mut object, "dirname", PathPart::Dirname)?;
    bind_path_part(engine, &mut object, "basename", PathPart::Basename)?;
    bind_path_part(engine, &mut object, "extname", PathPart::Extname)?;
    assert(object_contents(object) =~= path_entries());
    Ok(object)
}

fn cookie_object(
    engine: &mut Engine,
    state: &Arc<Mutex<ResponseState>>,
    cookies: StringMap<String>,
) -> (r: Result<JsObject, Error>)
    ensures
        r matches Ok(object) ==> object_contents(object) == cookie_entries(
            *state,
            texts(cookies@),
        ),
        passed_or_refused(old(engine).contents(), final(engine).contents(), r),
{
    let mut object = new_object(engine)?;
    bind_response_map(engine, &mut object, "set", state, ResponseMap::Cookies)?;
    let ghost given = texts(cookies@);
    bind_cookie_get(engine, &mut object, "get", cookies)?;
    assert(object_contents(object) =~= cookie_entries(*state, given));
    Ok(object)
}

fn session_object(engine: &mut Engine, store: &Arc<Mutex<SessionStore>>, sid: &String) -> (r: Result<
    JsObject,
    Error,
>)
    ensures
        r matches Ok(object) ==> object_contents(object) == session_entries(*store, sid@),
        passed_or_refused(old(engine).contents(), final(engine).contents(), r),
{
    let mut object = new_object(engine)?;
    bind_session_get(engine, &mut object, "get", store, sid.clone())?;
    bind_session_set(engine, &mut object, "set", store, sid.clone())?;
    assert(object_contents(object) =~= session_entries(*store, sid@));
    Ok(object)
}

/// The cookies that a request carries.
fn cookies_from(request: &ServerRequest) -> (cookies: StringMap<String>)
    ensures
        texts(cookies@) == request_cookies(*request),
{
    match request.headers.get("cookie") {
        Some(header) => parse_cookies(header.as_str()),
        None => {
            let empty = String::new();
            parse_cookies(empty.as_str())
        },
    }
}

/// The engine took a variable, or refused and left its error in the record.
pub open spec fn set_or_refused(
    before: Seq<ContextEntry>,
    after: Seq<ContextEntry>,
    entry: ContextEntry,
    r: Result<(), Error>,
) -> bool {
    match r {
        Ok(()) => after == before.push(entry),
        Err(e) => after == before.push(ContextEntry::Refused(e)),
    }
}

fn set_request(engine: &mut Engine, request: &ServerRequest) -> (r: Result<(), Error>)
    ensures
        set_or_refused(
            old(engine).contents(),
            final(engine).contents(),
            ContextEntry::Global("REQ"@, JsEntry::Object(req_entries(*request))),
            r,
        ),
{
    let object = request_object(engine, request)?;
    set_global(engine, "REQ", object)
}

fn set_response(engine: &mut Engine, state: &Arc<Mutex<ResponseState>>) -> (r: Result<(), Error>)
    ensures
        set_or_refused(
            old(engine).contents(),
            final(engine).contents(),
            ContextEntry::Global("RES"@, JsEntry::Object(res_entries(*state))),
            r,
        ),
{
    let object = response_object(engine, state)?;
    set_global(engine, "RES", object)
}

fn set_path(engine: &mut Engine) -> (r: Result<(), Error>)
    ensures
        set_or_refused(
            old(engine).contents(),
            final(engine).contents(),
            ContextEntry::Global("path"@, JsEntry::Object(path_entries())),
            r,
        ),
{
    let object = path_object(engine)?;
    set_global(engine, "path", object)
}

fn set_cookies(
    engine: &mut Engine,
    state: &Arc<Mutex<ResponseState>>,
    cookies: StringMap<String>,
) -> (r: Result<(), Error>)
    ensures
        set_or_refused(
            old(engine).contents(),
            final(engine).contents(),
            ContextEntry::Global("COOKIE"@, JsEntry::Object(cookie_entries(*state, texts(cookies@)))),
            r,
        ),
{
    let object = cookie_object(engine, state, cookies)?;
    set_global(engine, "COOKIE", object)
}

fn set_session(engine: &mut Engine, store: &Arc<Mutex<SessionStore>>, sid: &String) -> (r: Result<(), Error>)
    ensures
        set_or_refused(
            old(engine).contents(),
            final(engine).contents(),
            ContextEntry::Global("SESSION"@, JsEntry::Object(session_entries(*store, sid@))),
            r,
        ),
{
    let object = session_object(engine, store, sid)?;
    set_global(engine, "SESSION", object)
}

/// From `before` to `after`, the first `n` of `globals` were put in, and then the engine refused
/// something with the error `e`.
pub open spec fn refused_at(
    before: Seq<ContextEntry>,
    after: Seq<ContextEntry>,
    globals: Seq<ContextEntry>,
    n: int,
    e: Error,
) -> bool {
    &&& 0 <= n < globals.len()
    &&& after == (before + globals.take(n)).push(ContextEntry::Refused(e))
}

/// Putting in the variables came to an end with the error `e`, before any script was evaluated: the
/// engine refused something on the way to one of the variables, or `install_fs` failed after the
/// first two, or `install_log` failed after all of them.
pub open spec fn set_up_failed<
    F: Fn(&Context) -> Result<(), Error>,
    G: Fn(&Context) -> Result<(), Error>,
>(
    before: Seq<ContextEntry>,
    after: Seq<ContextEntry>,
    globals: Seq<ContextEntry>,
    install_fs: F,
    install_log: G,
    e: Error,
) -> bool {
    ||| exists|n: int| #[trigger] refused_at(before, after, globals, n, e)
    ||| after == before + globals.take(2) && was_given(install_fs, after, Err(e))
    ||| after == before + globals && was_given(install_log, after, Err(e))
}

/// The variables were put in: `globals`, what `install_fs` puts in after the first two, and what
/// `install_log` puts in after all of them.
pub open spec fn set_up<
    F: Fn(&Context) -> Result<(), Error>,
    G: Fn(&Context) -> Result<(), Error>,
>(
    before: Seq<ContextEntry>,
    globals: Seq<ContextEntry>,
    install_fs: F,
    install_log: G,
) -> bool {
    &&& was_given(install_fs, before + globals.take(2), Ok(()))
    &&& was_given(install_log, before + globals, Ok(()))
}

/// What `inject_server_globals` has done to an engine when it returns `r`, and `written` is then
/// the text in the engine.  Where putting in the variables failed, no script was evaluated.
/// Otherwise every variable was put in and then the prelude was evaluated; on success it ran to its
/// end, and else the error carries its message.
pub open spec fn injected<
    F: Fn(&Context) -> Result<(), Error>,
    G: Fn(&Context) -> Result<(), Error>,
>(
    before: Seq<ContextEntry>,
    after: Seq<ContextEntry>,
    globals: Seq<ContextEntry>,
    install_fs: F,
    install_log: G,
    r: JsResult<()>,
    written: Seq<char>,
) -> bool {
    match r {
        Err(ScriptError::Engine(e)) => set_up_failed(
            before,
            after,
            globals,
            install_fs,
            install_log,
            e,
        ),
        _ => {
            &&& set_up(before, globals, install_fs, install_log)
            &&& after.len() == before.len() + globals.len() + 1
            &&& after.drop_last() == before + globals
            &&& after.last() matches ContextEntry::Script(prelude) && {
                &&& prelude.source == PRELUDE@
                &&& prelude.after == written
                &&& r is Ok ==> is_eval_result(prelude.reply, Ok(()))
                &&& r matches Err(ScriptError::Script(m)) ==> is_eval_result(prelude.reply, Err(m))
            }
        },
    }
}

#[verifier::rlimit(30)]
fn set_globals<
    F: Fn(&Context) -> Result<(), Error>,
    G: Fn(&Context) -> Result<(), Error>,
>(
    engine: &mut Engine,
    request: &ServerRequest,
    resp_state: &Arc<Mutex<ResponseState>>,
    session_store: &Arc<Mutex<SessionStore>>,
    install_fs: F,
    install_log: G,
) -> (r: Result<(), Error>)
    requires
        forall|c: &Context| call_requires(install_fs, (c,)),
        forall|c: &Context| call_requires(install_log, (c,)),
    ensures
        ({
            let globals = server_globals(*request, *resp_state, *session_store);
            let before = old(engine).contents();
            let after = final(engine).contents();
            &&& r is Ok ==> after == before + globals && set_up(
                before,
                globals,
                install_fs,
                install_log,
            )
            &&& r matches Err(e) ==> set_up_failed(
                before,
                after,
                globals,
                install_fs,
                install_log,
                e,
            )
        }),
{
    let ghost globals = server_globals(*request, *resp_state, *session_store);
    let ghost start = engine.contents();
    assert(start + globals.take(0) =~= start);
    match set_request(engine, request) {
        Ok(()) => {},
        Err(e) => {
            assert(refused_at(start, engine.contents(), globals, 0, e));
            return Err(e);
        },
    }
    assert(start.push(globals[0]) =~= start + globals.take(1));
    match set_response(engine, resp_state) {
        Ok(()) => {},
        Err(e) => {
            assert(refused_at(start, engine.contents(), globals, 1, e));
            return Err(e);
        },
    }
    assert((start + globals.take(1)).push(globals[1]) =~= start + globals.take(2));
    engine.give(install_fs)?;
    match set_path(engine) {
        Ok(()) => {},
        Err(e) => {
            assert(refused_at(start, engine.contents(), globals, 2, e));
            return Err(e);
        },
    }
    assert((start + globals.take(2)).push(globals[2]) =~= start + globals.take(3));
    let cookies = cookies_from(request);
    let sid = session_id(&cookies);
    match set_cookies(engine, resp_state, cookies) {
        Ok(()) => {},
        Err(e) => {
            assert(refused_at(start, engine.contents(), globals, 3, e));
            return Err(e);
        },
    }
    assert((start + globals.take(3)).push(globals[3]) =~= start + globals.take(4));
    match set_session(engine, session_store, &sid) {
        Ok(()) => {},
        Err(e) => {
            assert(refused_at(start, engine.contents(), globals, 4, e));
            return Err(e);
        },
    }
    assert((start + globals.take(4)).push(globals[4]) =~= start + globals.take(5));
    match bind_write(engine, "__write") {
        Ok(()) => {},
        Err(e) => {
            assert(refused_at(start, engine.contents(), globals, 5, e));
            return Err(e);
        },
    }
    assert((start + globals.take(5)).push(globals[5]) =~= start + globals);
    engine.give(install_log)?;
    Ok(())
}

/// Puts the global variables for a request into the engine, and evaluates the prelude.
///
/// Two of the variables reach outside the program: `install_fs` puts in `fs`, after `RES`, and
/// `install_log` puts in `__log`, after all the others.
pub fn inject_server_globals<
    F: Fn(&Context) -> Result<(), Error>,
    G: Fn(&Context) -> Result<(), Error>,
>(
    engine: &mut Engine,
    request: &ServerRequest,
    resp_state: &Arc<Mutex<ResponseState>>,
    session_store: &Arc<Mutex<SessionStore>>,
    install_fs: F,
    install_log: G,
) -> (r: JsResult<()>)
    requires
        forall|c: &Context| call_requires(install_fs, (c,)),
        forall|c: &Context| call_requires(install_log, (c,)),
    ensures
        injected(
            old(engine).contents(),
            final(engine).contents(),
            server_globals(*request, *resp_state, *session_store),
            install_fs,
            install_log,
            r,
            final(engine).written(),
        ),
{
    match set_globals(engine, request, resp_state, session_store, install_fs, install_log) {
        Ok(()) => {},
        Err(e) => return Err(ScriptError::Engine(e)),
    }
    match better_eval_scripts(engine, PRELUDE) {
        Ok(()) => Ok(()),
        Err(message) => Err(ScriptError::Script(message)),
    }
}

/// No header is known to scripts by a name with a dash.
pub proof fn law_header_names_have_no_dash(headers: StringMap<String>, i: int)
    requires
        0 <= i < header_entries(headers).len(),
    ensures
        !header_entries(headers)[i].0.contains('-'),
{
}

/// Scripts see the length of the body that arrived, whatever length the request declared.
pub proof fn law_declared_length_is_not_seen(
    request: ServerRequest,
    declared: usize,
    state: Arc<Mutex<ResponseState>>,
    store: Arc<Mutex<SessionStore>>,
)
    ensures
        server_globals(
            (ServerRequest { content_length: declared, ..request }),
            state,
            store,
        ) == server_globals(request, state, store),
{
    let other = ServerRequest { content_length: declared, ..request };
    assert(request_entries(other) =~= request_entries(request));
}

proof fn lemma_query_map(pairs: Seq<(Seq<char>, String)>)
    ensures
        ({
            let entries = pairs.map_values(
                |p: (Seq<char>, String)| (p.0, JsEntry::Text(p.1@)),
            );
            &&& map_of(entries).dom() == map_of(pairs).dom()
            &&& forall|k: Seq<char>|
                map_of(pairs).dom().contains(k) ==> #[trigger] map_of(entries)[k] == JsEntry::Text(
                    map_of(pairs)[k]@,
                )
        }),
    decreases pairs.len(),
{
    let f = |p: (Seq<char>, String)| (p.0, JsEntry::Text(p.1@));
    let entries = pairs.map_values(f);
    if pairs.len() > 0 {
        lemma_query_map(pairs.drop_last());
        assert(entries.drop_last() =~= pairs.drop_last().map_values(f));
    }
    assert(map_of(entries).dom() =~= map_of(pairs).dom());
}

/// Scripts find the whole query in `REQ.query`: each parameter under its name with the text of its
/// value, and nothing else.
pub proof fn law_scripts_find_the_whole_query(query: StringMap<String>)
    ensures
        map_of(query_entries(query)).dom() == query@.dom(),
        forall|name: Seq<char>|
            query@.dom().contains(name) ==> #[trigger] map_of(query_entries(query))[name]
                == JsEntry::Text(query@[name]@),
{
    lemma_query_map(query.pairs());
    let entries = query.pairs().map_values(|p: (Seq<char>, String)| (p.0, JsEntry::Text(p.1@)));
    assert(query_entries(query) =~= entries);
}

proof fn lemma_pair_of_key<V>(pairs: Seq<(Seq<char>, V)>, key: Seq<char>) -> (i: int)
    requires
        map_of(pairs).dom().contains(key),
    ensures
        0 <= i < pairs.len(),
        pairs[i] == (key, map_of(pairs)[key]),
    decreases pairs.len(),
{
    if pairs.last().0 == key {
        pairs.len() - 1
    } else {
        let i = lemma_pair_of_key(pairs.drop_last(), key);
        assert(pairs.drop_last()[i] == pairs[i]);
        i
    }
}

/// Scripts find every header in `REQ.headers`, under its name with `_` for every `-` and with its
/// whole text, and everything that they find there is such a header.
pub proof fn law_scripts_find_every_header(headers: StringMap<String>)
    requires
        distinct_keys(headers.pairs()),
    ensures
        forall|name: Seq<char>|
            headers@.dom().contains(name) ==> header_entries(headers).contains(
                (#[trigger] replaced(name, '-', '_'), JsEntry::Text(headers@[name]@)),
            ),
        forall|entry: (Seq<char>, JsEntry)| #[trigger]
            header_entries(headers).contains(entry) ==> exists|name: Seq<char>| #[trigger]
                headers@.dom().contains(name) && entry == (
                    replaced(name, '-', '_'),
                    JsEntry::Text(headers@[name]@),
                ),
{
    let pairs = headers.pairs();
    let entries = header_entries(headers);
    lemma_map_of_distinct(pairs);
    assert forall|name: Seq<char>| headers@.dom().contains(name) implies entries.contains(
        (#[trigger] replaced(name, '-', '_'), JsEntry::Text(headers@[name]@)),
    ) by {
        let i = lemma_pair_of_key(pairs, name);
        assert(entries[i] == (replaced(name, '-', '_'), JsEntry::Text(headers@[name]@)));
    }
    assert forall|entry: (Seq<char>, JsEntry)| #[trigger]
        entries.contains(entry) implies exists|name: Seq<char>| #[trigger]
        headers@.dom().contains(name) && entry == (
            replaced(name, '-', '_'),
            JsEntry::Text(headers@[name]@),
        ) by {
        let i = choose|i: int| 0 <= i < entries.len() && entries[i] == entry;
        let name = pairs[i].0;
        assert(headers@.dom().contains(name));
        assert(entries[i] == (replaced(name, '-', '_'), JsEntry::Text(headers@[name]@)));
    }
}

/// Scripts find the request in `REQ`: each of these under its name, with the whole of its text, and
/// nothing else.
pub proof fn law_scripts_find_the_request(request: ServerRequest)
    ensures
        ({
            let req = req_entries(request);
            &&& req.len() == 16
            &&& req.contains(("method"@, JsEntry::Text(request.method@)))
            &&& req.contains(("url"@, JsEntry::Text(request.url@)))
            &&& req.contains(("body"@, JsEntry::Text(request.body@)))
            &&& req.contains(("remote_addr"@, JsEntry::Text(request.remote_addr@)))
            &&& req.contains(("remote_port"@, JsEntry::Number(request.remote_port as nat)))
            &&& req.contains(("server_addr"@, JsEntry::Text(request.server_addr@)))
            &&& req.contains(("server_port"@, JsEntry::Number(request.server_port as nat)))
            &&& req.contains(("server_name"@, JsEntry::Text(request.server_name@)))
            &&& req.contains(("server_user"@, JsEntry::Text(request.server_user@)))
            &&& req.contains(("server_home"@, JsEntry::Text(request.server_home@)))
            &&& req.contains(("protocol"@, JsEntry::Text(request.protocol@)))
            &&& req.contains(("content_type"@, JsEntry::Text(request.content_type@)))
            &&& req.contains(
                ("content_length"@, JsEntry::Number(encode_utf8(request.body@).len())),
            )
            &&& req.contains(("is_https"@, JsEntry::Flag(request.is_https)))
            &&& req.contains(("query"@, JsEntry::Object(query_entries(request.query))))
            &&& req.contains(("headers"@, JsEntry::Object(header_entries(request.headers))))
        }),
{
    let req = req_entries(request);
    assert(req[0] == ("method"@, JsEntry::Text(request.method@)));
    assert(req[1] == ("url"@, JsEntry::Text(request.url@)));
    assert(req[2] == ("body"@, JsEntry::Text(request.body@)));
    assert(req[3] == ("remote_addr"@, JsEntry::Text(request.remote_addr@)));
    assert(req[4] == ("remote_port"@, JsEntry::Number(request.remote_port as nat)));
    assert(req[5] == ("server_addr"@, JsEntry::Text(request.server_addr@)));
    assert(req[6] == ("server_port"@, JsEntry::Number(request.server_port as nat)));
    assert(req[7] == ("server_name"@, JsEntry::Text(request.server_name@)));
    assert(req[8] == ("server_user"@, JsEntry::Text(request.server_user@)));
    assert(req[9] == ("server_home"@, JsEntry::Text(request.server_home@)));
    assert(req[10] == ("protocol"@, JsEntry::Text(request.protocol@)));
    assert(req[11] == ("content_type"@, JsEntry::Text(request.content_type@)));
    assert(req[12] == ("content_length"@, JsEntry::Number(encode_utf8(request.body@).len())));
    assert(req[13] == ("is_https"@, JsEntry::Flag(request.is_https)));
    assert(req[14] == ("query"@, JsEntry::Object(query_entries(request.query))));
    assert(req[15] == ("headers"@, JsEntry::Object(header_entries(request.headers))));
}

/// The cookies of a request are those of its header `cookie`, and none without one.
pub proof fn law_cookies_of_a_request(request: ServerRequest)
    ensures
        request.headers@.dom().contains("cookie"@) ==> request_cookies(request) == cookies_of(
            request.headers@["cookie"@]@,
        ),
        !request.headers@.dom().contains("cookie"@) ==> request_cookies(request) == Map::<
            Seq<char>,
            Seq<char>,
        >::empty(),
{
    law_no_cookies_without_equals(seq![]);
}

/// The variables that scripts find, in order, and the functions in them: `RES` acts on the response,
/// `path` on paths, `COOKIE` reads the cookies of the request and writes those of the response, and
/// `SESSION` reads and writes one session, that of the request's cookies.
pub proof fn law_variables_that_scripts_find(
    request: ServerRequest,
    state: Arc<Mutex<ResponseState>>,
    store: Arc<Mutex<SessionStore>>,
)
    ensures
        ({
            let cookies = request_cookies(request);
            let sid = session_id_of(cookies);
            server_globals(request, state, store) == seq![
                ContextEntry::Global("REQ"@, JsEntry::Object(req_entries(request))),
                ContextEntry::Global(
                    "RES"@,
                    JsEntry::Object(
                        seq![
                            ("status"@, JsEntry::Function(HostFunction::SetStatus(state))),
                            (
                                "setHeader"@,
                                JsEntry::Function(
                                    HostFunction::SetResponse(state, ResponseMap::Headers),
                                ),
                            ),
                        ],
                    ),
                ),
                ContextEntry::Global(
                    "path"@,
                    JsEntry::Object(
                        seq![
                            ("join"@, JsEntry::Function(HostFunction::JoinPath)),
                            (
                                "dirname"@,
                                JsEntry::Function(HostFunction::TakePath(PathPart::Dirname)),
                            ),
                            (
                                "basename"@,
                                JsEntry::Function(HostFunction::TakePath(PathPart::Basename)),
                            ),
                            (
                                "extname"@,
                                JsEntry::Function(HostFunction::TakePath(PathPart::Extname)),
                            ),
                        ],
                    ),
                ),
                ContextEntry::Global(
                    "COOKIE"@,
                    JsEntry::Object(
                        seq![
                            (
                                "set"@,
                                JsEntry::Function(
                                    HostFunction::SetResponse(state, ResponseMap::Cookies),
                                ),
                            ),
                            ("get"@, JsEntry::Function(HostFunction::GetCookie(cookies))),
                        ],
                    ),
                ),
                ContextEntry::Global(
                    "SESSION"@,
                    JsEntry::Object(
                        seq![
                            ("get"@, JsEntry::Function(HostFunction::GetSession(store, sid))),
                            ("set"@, JsEntry::Function(HostFunction::SetSession(store, sid))),
                        ],
                    ),
                ),
                ContextEntry::Global("__write"@, JsEntry::Function(HostFunction::Write)),
            ]
        }),
{
}

/// What injecting the variables has done: on success exactly the variables and the prelude were put
/// in, the prelude ran to its end, and both install functions succeeded in their places.
pub proof fn law_injecting_puts_in_the_variables<
    F: Fn(&Context) -> Result<(), Error>,
    G: Fn(&Context) -> Result<(), Error>,
>(
    before: Seq<ContextEntry>,
    after: Seq<ContextEntry>,
    globals: Seq<ContextEntry>,
    install_fs: F,
    install_log: G,
    r: JsResult<()>,
    written: Seq<char>,
)
    requires
        injected(before, after, globals, install_fs, install_log, r, written),
        !(r matches Err(ScriptError::Engine(_))),
    ensures
        after.len() == before.len() + globals.len() + 1,
        after.take(before.len() as int + globals.len()) == before + globals,
        after.last() is Script,
        after.last()->Script_0.source == PRELUDE@,
        after.last()->Script_0.after == written,
        r is Ok <==> after.last()->Script_0.reply is Completed,
        r matches Err(ScriptError::Script(m)) ==> failure(after.last()->Script_0.reply) == Some(m@),
        was_given(install_fs, before + globals.take(2), Ok(())),
        was_given(install_log, before + globals, Ok(())),
{
    assert(after.drop_last() =~= after.take(before.len() as int + globals.len()));
}

/// What the prelude says: `console.log` and its kin hand their arguments to `__log`, with blanks
/// between them, `write` hands its arguments to `__write` in the same way, and the body of the
/// request is taken for JSON where it is.
pub proof fn law_what_the_prelude_says()
    ensures
        PRELUDE@ == r#"
        globalThis.console = {
            log: (...args) => __log(args.map(String).join(" "))
        };
        globalThis.console.error = globalThis.console.log;
        globalThis.console.warn = globalThis.console.log;
        globalThis.console.info = globalThis.console.log;
        globalThis.write = (...args) => __write(args.map(String).join(" "));
        try { globalThis.REQ.body = JSON.parse(globalThis.REQ.body); } catch(e) {}
    "#@,
{
}

/// Where putting in the variables failed, no script was evaluated, and the error is the one that the
/// engine left in the record or that an install function returned.
pub proof fn law_failed_set_up_runs_no_script<
    F: Fn(&Context) -> Result<(), Error>,
    G: Fn(&Context) -> Result<(), Error>,
>(
    request: ServerRequest,
    state: Arc<Mutex<ResponseState>>,
    store: Arc<Mutex<SessionStore>>,
    before: Seq<ContextEntry>,
    after: Seq<ContextEntry>,
    install_fs: F,
    install_log: G,
    e: Error,
)
    requires
        set_up_failed(
            before,
            after,
            server_globals(request, state, store),
            install_fs,
            install_log,
            e,
        ),
    ensures
        before.len() <= after.len(),
        after.take(before.len() as int) == before,
        forall|i: int| before.len() <= i < after.len() ==> !(#[trigger] after[i] is Script),
        ({
            ||| after.len() > before.len() && after.last() == ContextEntry::Refused(e)
            ||| was_given(install_fs, after, Err(e))
            ||| was_given(install_log, after, Err(e))
        }),
{
    let globals = server_globals(request, state, store);
    assert(after.take(before.len() as int) =~= before);
}

} // verus!
