//! The script engine: a QuickJS context, the text that its scripts have written, and a record of
//! what has been put into it.
use crate::host::{cookie_get, texts, ResponseState, SessionStore};
use crate::paths::{path_basename, path_dirname, path_extname, path_join};
use crate::string_map::StringMap;
use rquickjs::{Context, Error, Function, Object, Persistent, Runtime};
use std::sync::{Arc, Mutex};
use vstd::prelude::*;
use vstd::string::*;

verus! {

/// Trusted: a runtime of `rquickjs`.
#[verifier::external_type_specification]
#[verifier::external_body]
pub struct ExRuntime(Runtime);

/// Trusted: an execution context of `rquickjs` with its own global variables.
#[verifier::external_type_specification]
#[verifier::external_body]
pub struct ExContext(Context);

/// Trusted: the error type of `rquickjs`.
#[verifier::external_type_specification]
#[verifier::external_body]
pub struct ExError(Error);

/// Trusted: a JavaScript object of `rquickjs`.
#[verifier::external_type_specification]
#[verifier::external_body]
pub struct ExObject<'js>(Object<'js>);

/// Trusted: a JavaScript value of `rquickjs` that is kept across uses of its context.
#[verifier::external_type_specification]
#[verifier::external_body]
#[verifier::reject_recursive_types(T)]
pub struct ExPersistent<T>(Persistent<T>);

/// Trusted: the mutual exclusion lock of `std`.
#[verifier::external_type_specification]
#[verifier::external_body]
#[verifier::reject_recursive_types(T)]
pub struct ExMutex<T: ?Sized>(Mutex<T>);

/// A JavaScript object under construction, not yet within reach of any script.
pub type JsObject = Persistent<Object<'static>>;

/// A value that can be put into a JavaScript object.
pub enum JsValue {
    Text(String),
    Number(usize),
    Flag(bool),
}

/// Which map of the response a script function writes to.
#[derive(Clone, Copy)]
pub enum ResponseMap {
    Headers,
    Cookies,
}

/// Which part of a path a script function gives.
#[derive(Clone, Copy)]
pub enum PathPart {
    Dirname,
    Basename,
    Extname,
}

/// A function that scripts can call, with what it acts on.
pub enum HostFunction {
    /// Calls `ResponseState::set_status`.
    SetStatus(Arc<Mutex<ResponseState>>),
    /// Calls `set_response_text`.
    SetResponse(Arc<Mutex<ResponseState>>, ResponseMap),
    /// Calls `cookie_get`.
    GetCookie(Map<Seq<char>, Seq<char>>),
    /// Calls `SessionStore::get` for one session.
    GetSession(Arc<Mutex<SessionStore>>, Seq<char>),
    /// Calls `SessionStore::set` for one session.
    SetSession(Arc<Mutex<SessionStore>>, Seq<char>),
    /// Calls `path_join`.
    JoinPath,
    /// Calls `path_part`.
    TakePath(PathPart),
    /// Calls `append_text` on the text that the engine's scripts have written.
    Write,
}

/// What stands in a property of a JavaScript object.
pub enum JsEntry {
    Text(Seq<char>),
    Number(nat),
    Flag(bool),
    Function(HostFunction),
    Object(Seq<(Seq<char>, JsEntry)>),
}

/// What the engine reports of a script that it was given.
pub enum EvalReply {
    /// The script ran to its end.
    Completed,
    /// The script threw; this is the text of what it threw, if that is an error object.
    Thrown(Option<String>),
    /// The engine failed in another way, with this message.
    Failed(String),
}

/// One script handed to the engine: its source, the text that was written before it ran, what
/// the engine reported of it, and the text that was written when it was over.
pub struct Evaluation {
    pub source: Seq<char>,
    pub before: Seq<char>,
    pub reply: EvalReply,
    pub after: Seq<char>,
}

/// Something that was put into a context.
pub enum ContextEntry {
    /// A global variable was set.
    Global(Seq<char>, JsEntry),
    /// A script was evaluated.
    Script(Evaluation),
    /// The engine refused to make or to set something, with this error.
    Refused(Error),
}

impl JsValue {
    /// The property that the value makes.
    pub open spec fn entry(self) -> JsEntry {
        match self {
            JsValue::Text(t) => JsEntry::Text(t@),
            JsValue::Number(n) => JsEntry::Number(n as nat),
            JsValue::Flag(b) => JsEntry::Flag(b),
        }
    }
}

/// What has been put into a context through this module, in order.  This is a record of what was
/// done, not of the state of the JavaScript world that came of it.
pub uninterp spec fn context_contents(context: Context) -> Seq<ContextEntry>;

/// The properties that have been put into an object, in order.
pub uninterp spec fn object_contents(object: Persistent<Object<'static>>) -> Seq<
    (Seq<char>, JsEntry),
>;

/// The text in a buffer.  It belongs to the value of the lock only as long as everything that can
/// change it takes the lock, or the engine that holds it, by `&mut`.
pub uninterp spec fn buffered_text(buffer: Mutex<String>) -> Seq<char>;

/// What the lock around a response state was made with: the status, the headers and the cookies.
pub uninterp spec fn first_response(lock: Mutex<ResponseState>) -> (
    Option<u16>,
    Map<Seq<char>, Seq<char>>,
    Map<Seq<char>, Seq<char>>,
);

/// What the lock around a session store was made with.
pub uninterp spec fn first_sessions(lock: Mutex<SessionStore>) -> Map<
    Seq<char>,
    Map<Seq<char>, Seq<char>>,
>;

/// `install` was called on a context with these contents, and gave `r`.
pub open spec fn was_given<F: Fn(&Context) -> Result<(), Error>>(
    install: F,
    contents: Seq<ContextEntry>,
    r: Result<(), Error>,
) -> bool {
    exists|c: &Context| #[trigger]
        call_ensures(install, (c,), r) && context_contents(*c) == contents
}

/// A context with the buffer that its function `__write` appends to.  Evaluating a script can
/// change both.
pub struct Engine {
    context: Context,
    output: Arc<Mutex<String>>,
}

impl Engine {
    /// The engine's context.
    pub closed spec fn context(self) -> Context {
        self.context
    }

    /// What has been put into the engine, in order.
    pub closed spec fn contents(self) -> Seq<ContextEntry> {
        context_contents(self.context)
    }

    /// The text that the engine's scripts have written since it was last cleared.
    pub closed spec fn written(self) -> Seq<char> {
        buffered_text(*self.output)
    }

    /// An engine of a context, with a buffer of its own.
    pub(crate) fn new(context: Context) -> (r: Engine)
        ensures
            r.context() == context,
            r.contents() == context_contents(context),
            r.written() == Seq::<char>::empty(),
    {
        Engine { context, output: Arc::new(new_buffer(String::new())) }
    }

    /// Hands the engine's context to `install`, which may do with it what it likes.
    pub(crate) fn give<F: Fn(&Context) -> Result<(), Error>>(&mut self, install: F) -> (r: Result<
        (),
        Error,
    >)
        requires
            forall|c: &Context| call_requires(install, (c,)),
        ensures
            final(self).contents() == old(self).contents(),
            was_given(install, old(self).contents(), r),
    {
        install(&self.context)
    }

    /// Forgets the text that the engine's scripts have written.
    pub fn clear_output(&mut self)
        ensures
            final(self).written() == Seq::<char>::empty(),
            final(self).contents() == old(self).contents(),
    {
        clear_buffer(&mut self.output);
    }

    /// The text that the engine's scripts have written.
    pub fn read_output(&self) -> (r: String)
        ensures
            r@ == self.written(),
    {
        read_buffer(&self.output)
    }
}

/// Trusted: `Runtime::new` makes a runtime, or reports why it could not.
pub assume_specification[ Runtime::new ]() -> (r: Result<Runtime, Error>)
;

/// Trusted: `Context::full` makes a new context, into which nothing has been put yet, or reports
/// why it could not.
pub assume_specification[ Context::full ](runtime: &Runtime) -> (r: Result<Context, Error>)
    ensures
        r matches Ok(context) ==> context_contents(context) == Seq::<ContextEntry>::empty(),
;

/// Trusted: `Mutex::new` makes an unlocked lock around a text.
#[verifier::external_body]
fn new_buffer(text: String) -> (r: Mutex<String>)
    ensures
        buffered_text(r) == text@,
{
    Mutex::new(text)
}

/// Trusted: `Mutex::new` makes an unlocked lock around a response state.
#[verifier::external_body]
pub(crate) fn new_response_lock(state: ResponseState) -> (r: Mutex<ResponseState>)
    ensures
        first_response(r) == state@,
{
    Mutex::new(state)
}

/// Trusted: `Mutex::new` makes an unlocked lock around a session store.
#[verifier::external_body]
pub(crate) fn new_session_lock(store: SessionStore) -> (r: Mutex<SessionStore>)
    ensures
        first_sessions(r) == store@,
{
    Mutex::new(store)
}

/// Trusted: `Object::new` makes an object without properties of its own.
///
/// This and the functions below note a refusal in the record.  Setting a property can run a setter
/// that a script has put in its way, so they take the engine by `&mut` and say nothing of what is
/// written.
#[verifier::external_body]
pub(crate) fn new_object(engine: &mut Engine) -> (r: Result<JsObject, Error>)
    ensures
        r matches Ok(object) ==> object_contents(object) == Seq::<(Seq<char>, JsEntry)>::empty(),
        r is Ok ==> final(engine).contents() == old(engine).contents(),
        r matches Err(e) ==> final(engine).contents() == old(engine).contents().push(
            ContextEntry::Refused(e),
        ),
{
    engine.context.with(|c| Ok(Persistent::save(&c, Object::new(c.clone())?)))
}

/// Trusted: `Object::set` puts a text, a number or a truth value into a property.  A number of
/// more than 53 bits is rounded there, as JavaScript numbers are.
#[verifier::external_body]
pub(crate) fn set_value(
    engine: &mut Engine,
    object: &mut JsObject,
    key: &str,
    value: &JsValue,
) -> (r: Result<(), Error>)
    ensures
        r is Ok ==> object_contents(*final(object)) == object_contents(*old(object)).push(
            (key@, value.entry()),
        ),
        r is Ok ==> final(engine).contents() == old(engine).contents(),
        r matches Err(e) ==> final(engine).contents() == old(engine).contents().push(
            ContextEntry::Refused(e),
        ),
{
    engine.context.with(|c| {
        let o = object.clone().restore(&c)?;
        match value {
            JsValue::Text(t) => o.set(key, t.as_str()),
            JsValue::Number(n) => o.set(key, *n),
            JsValue::Flag(b) => o.set(key, *b),
        }
    })
}

/// Trusted: `Object::set` puts an object into a property.
#[verifier::external_body]
pub(crate) fn set_object(
    engine: &mut Engine,
    object: &mut JsObject,
    key: &str,
    value: JsObject,
) -> (r: Result<(), Error>)
    ensures
        r is Ok ==> object_contents(*final(object)) == object_contents(*old(object)).push(
            (key@, JsEntry::Object(object_contents(value))),
        ),
        r is Ok ==> final(engine).contents() == old(engine).contents(),
        r matches Err(e) ==> final(engine).contents() == old(engine).contents().push(
            ContextEntry::Refused(e),
        ),
{
    engine.context.with(|c| object.clone().restore(&c)?.set(key, value))
}

/// Trusted: `Object::set` on `Ctx::globals` makes an object a global variable.
#[verifier::external_body]
pub(crate) fn set_global(engine: &mut Engine, name: &str, object: JsObject) -> (r: Result<
    (),
    Error,
>)
    ensures
        r is Ok ==> final(engine).contents() == old(engine).contents().push(
            ContextEntry::Global(name@, JsEntry::Object(object_contents(object))),
        ),
        r matches Err(e) ==> final(engine).contents() == old(engine).contents().push(
            ContextEntry::Refused(e),
        ),
{
    engine.context.with(|c| c.globals().set(name, object))
}

/// Trusted: `Function::new` makes a JavaScript function of a Rust closure, and `Object::set` puts
/// it into a property.  The closure calls `ResponseState::set_status` under the lock.
#[verifier::external_body]
pub(crate) fn bind_status(
    engine: &mut Engine,
    object: &mut JsObject,
    key: &str,
    state: &Arc<Mutex<ResponseState>>,
) -> (r: Result<(), Error>)
    ensures
        r is Ok ==> object_contents(*final(object)) == object_contents(*old(object)).push(
            (key@, JsEntry::Function(HostFunction::SetStatus(*state))),
        ),
        r is Ok ==> final(engine).contents() == old(engine).contents(),
        r matches Err(e) ==> final(engine).contents() == old(engine).contents().push(
            ContextEntry::Refused(e),
        ),
{
    let state = state.clone();
    engine.context.with(|c| {
        let call = move |code: u16| {
            if let Ok(mut s) = state.lock() {
                s.set_status(code);
            }
        };
        object.clone().restore(&c)?.set(key, Function::new(c.clone(), call)?)
    })
}

/// Trusted: `Function::new` and `Object::set`, as above.  The closure calls
/// `set_response_text` under the lock.
#[verifier::external_body]
pub(crate) fn bind_response_map(
    engine: &mut Engine,
    object: &mut JsObject,
    key: &str,
    state: &Arc<Mutex<ResponseState>>,
    map: ResponseMap,
) -> (r: Result<(), Error>)
    ensures
        r is Ok ==> object_contents(*final(object)) == object_contents(*old(object)).push(
            (key@, JsEntry::Function(HostFunction::SetResponse(*state, map))),
        ),
        r is Ok ==> final(engine).contents() == old(engine).contents(),
        r matches Err(e) ==> final(engine).contents() == old(engine).contents().push(
            ContextEntry::Refused(e),
        ),
{
    let state = state.clone();
    engine.context.with(|c| {
        let call = move |k: String, v: String| {
            if let Ok(mut s) = state.lock() {
                set_response_text(&mut s, map, k, v);
            }
        };
        object.clone().restore(&c)?.set(key, Function::new(c.clone(), call)?)
    })
}

/// Trusted: `Function::new` and `Object::set`, as above.  The closure calls `cookie_get`.
#[verifier::external_body]
pub(crate) fn bind_cookie_get(
    engine: &mut Engine,
    object: &mut JsObject,
    key: &str,
    cookies: StringMap<String>,
) -> (r: Result<(), Error>)
    ensures
        r is Ok ==> object_contents(*final(object)) == object_contents(*old(object)).push(
            (key@, JsEntry::Function(HostFunction::GetCookie(texts(cookies@)))),
        ),
        r is Ok ==> final(engine).contents() == old(engine).contents(),
        r matches Err(e) ==> final(engine).contents() == old(engine).contents().push(
            ContextEntry::Refused(e),
        ),
{
    engine.context.with(|c| {
        let call = move |k: String| cookie_get(&cookies, k.as_str());
        object.clone().restore(&c)?.set(key, Function::new(c.clone(), call)?)
    })
}

/// Trusted: `Function::new` and `Object::set`, as above.  The closure calls `SessionStore::get`
/// under the lock.
#[verifier::external_body]
pub(crate) fn bind_session_get(
    engine: &mut Engine,
    object: &mut JsObject,
    key: &str,
    store: &Arc<Mutex<SessionStore>>,
    sid: String,
) -> (r: Result<(), Error>)
    ensures
        r is Ok ==> object_contents(*final(object)) == object_contents(*old(object)).push(
            (key@, JsEntry::Function(HostFunction::GetSession(*store, sid@))),
        ),
        r is Ok ==> final(engine).contents() == old(engine).contents(),
        r matches Err(e) ==> final(engine).contents() == old(engine).contents().push(
            ContextEntry::Refused(e),
        ),
{
    let store = store.clone();
    engine.context.with(|c| {
        let call = move |k: String| {
            store.lock().unwrap_or_else(|p| p.into_inner()).get(sid.as_str(), k.as_str())
        };
        object.clone().restore(&c)?.set(key, Function::new(c.clone(), call)?)
    })
}

/// Trusted: `Function::new` and `Object::set`, as above.  The closure calls `SessionStore::set`
/// under the lock.
#[verifier::external_body]
pub(crate) fn bind_session_set(
    engine: &mut Engine,
    object: &mut JsObject,
    key: &str,
    store: &Arc<Mutex<SessionStore>>,
    sid: String,
) -> (r: Result<(), Error>)
    ensures
        r is Ok ==> object_contents(*final(object)) == object_contents(*old(object)).push(
            (key@, JsEntry::Function(HostFunction::SetSession(*store, sid@))),
        ),
        r is Ok ==> final(engine).contents() == old(engine).contents(),
        r matches Err(e) ==> final(engine).contents() == old(engine).contents().push(
            ContextEntry::Refused(e),
        ),
{
    let store = store.clone();
    engine.context.with(|c| {
        let call = move |k: String, v: String| {
            store.lock().unwrap_or_else(|p| p.into_inner()).set(sid.as_str(), k, v)
        };
        object.clone().restore(&c)?.set(key, Function::new(c.clone(), call)?)
    })
}

/// Trusted: `Function::new` and `Object::set`, as above.  The closure calls `path_join`.
#[verifier::external_body]
pub(crate) fn bind_path_join(engine: &mut Engine, object: &mut JsObject, key: &str) -> (r: Result<
    (),
    Error,
>)
    ensures
        r is Ok ==> object_contents(*final(object)) == object_contents(*old(object)).push(
            (key@, JsEntry::Function(HostFunction::JoinPath)),
        ),
        r is Ok ==> final(engine).contents() == old(engine).contents(),
        r matches Err(e) ==> final(engine).contents() == old(engine).contents().push(
            ContextEntry::Refused(e),
        ),
{
    engine.context.with(|c| {
        let call = |a: String, b: String| path_join(a.as_str(), b.as_str());
        object.clone().restore(&c)?.set(key, Function::new(c.clone(), call)?)
    })
}

/// Trusted: `Function::new` and `Object::set`, as above.  The closure calls `path_part`.
#[verifier::external_body]
pub(crate) fn bind_path_part(
    engine: &mut Engine,
    object: &mut JsObject,
    key: &str,
    part: PathPart,
) -> (r: Result<(), Error>)
    ensures
        r is Ok ==> object_contents(*final(object)) == object_contents(*old(object)).push(
            (key@, JsEntry::Function(HostFunction::TakePath(part))),
        ),
        r is Ok ==> final(engine).contents() == old(engine).contents(),
        r matches Err(e) ==> final(engine).contents() == old(engine).contents().push(
            ContextEntry::Refused(e),
        ),
{
    engine.context.with(|c| {
        let call = move |p: String| path_part(part, p.as_str());
        object.clone().restore(&c)?.set(key, Function::new(c.clone(), call)?)
    })
}

/// Trusted: `Function::new` and `Object::set` on `Ctx::globals`.  The closure calls `append_text` on
/// the engine's buffer under the lock.
#[verifier::external_body]
pub(crate) fn bind_write(engine: &mut Engine, name: &str) -> (r: Result<(), Error>)
    ensures
        r is Ok ==> final(engine).contents() == old(engine).contents().push(
            ContextEntry::Global(name@, JsEntry::Function(HostFunction::Write)),
        ),
        r matches Err(e) ==> final(engine).contents() == old(engine).contents().push(
            ContextEntry::Refused(e),
        ),
{
    let output = engine.output.clone();
    engine.context.with(|c| {
        let call = move |text: String| {
            if let Ok(mut b) = output.lock() {
                append_text(&mut b, text.as_str());
            }
        };
        c.globals().set(name, Function::new(c.clone(), call)?)
    })
}

/// Trusted: `Ctx::eval` evaluates a script in the engine's context, as one global script, and
/// reports whether it ran to its end, threw, or failed otherwise; where it threw, `Ctx::catch` takes
/// the exception, whose text is reported if it is an error object.  What the script does, what it
/// writes, what it throws, and whether it ever comes to an end is up to the script and left open.
/// Getting the text of an exception can run more of the script's code, which belongs to the
/// evaluation too.
#[verifier::external_body]
pub(crate) fn eval(engine: &mut Engine, source: &str) -> (reply: EvalReply)
    ensures
        final(engine).contents() == old(engine).contents().push(
            ContextEntry::Script(
                Evaluation {
                    source: source@,
                    before: old(engine).written(),
                    reply,
                    after: final(engine).written(),
                },
            ),
        ),
{
    engine.context.with(|c| match c.eval::<(), _>(source) {
        Ok(()) => EvalReply::Completed,
        Err(Error::Exception) => {
            EvalReply::Thrown(c.catch().as_exception().map(|e| format!("{}", e)))
        },
        Err(e) => EvalReply::Failed(format!("{}", e)),
    })
}

/// Trusted: `String::clear` empties a buffer, under the lock.
#[verifier::external_body]
fn clear_buffer(buffer: &mut Arc<Mutex<String>>)
    ensures
        buffered_text(**final(buffer)) == Seq::<char>::empty(),
{
    buffer.lock().unwrap_or_else(|p| p.into_inner()).clear();
}

/// Trusted: `String::clone` copies the text in a buffer, under the lock.
#[verifier::external_body]
fn read_buffer(buffer: &Arc<Mutex<String>>) -> (r: String)
    ensures
        r@ == buffered_text(**buffer),
{
    buffer.lock().unwrap_or_else(|p| p.into_inner()).clone()
}

/// `__write`: puts a text behind what was written before.
pub fn append_text(written: &mut String, text: &str)
    ensures
        final(written)@ == old(written)@ + text@,
{
    written.append(text);
}

/// `RES.setHeader` and `COOKIE.set`: puts a text into one of the maps of the response.
pub fn set_response_text(state: &mut ResponseState, map: ResponseMap, name: String, value: String)
    ensures
        map is Headers ==> final(state).headers@ == old(state).headers@.insert(name@, value)
            && final(state).cookies == old(state).cookies,
        map is Cookies ==> final(state).cookies@ == old(state).cookies@.insert(name@, value)
            && final(state).headers == old(state).headers,
        final(state).status == old(state).status,
{
    match map {
        ResponseMap::Headers => state.set_header(name, value),
        ResponseMap::Cookies => state.set_cookie(name, value),
    }
}

/// `path.dirname`, `path.basename` and `path.extname`: one part of a path.
pub fn path_part(part: PathPart, path: &str) -> (r: String)
    ensures
        r@ == crate::paths::or_empty(
            match part {
                PathPart::Dirname => crate::paths::parent_path(path@),
                PathPart::Basename => crate::paths::final_name(path@),
                PathPart::Extname => crate::paths::extension_of(path@),
            },
        ),
{
    match part {
        PathPart::Dirname => path_dirname(path),
        PathPart::Basename => path_basename(path),
        PathPart::Extname => path_extname(path),
    }
}

/// `install` was given a context with these contents, and what it returned is one of the results
/// that it can have.
pub proof fn law_what_was_given<F: Fn(&Context) -> Result<(), Error>>(
    install: F,
    contents: Seq<ContextEntry>,
    r: Result<(), Error>,
)
    requires
        was_given(install, contents, r),
    ensures
        exists|c: &Context| #[trigger]
            call_ensures(install, (c,), r) && context_contents(*c) == contents,
{
}

/// A value stands in a property with the whole of its text, or with its number.
pub proof fn law_property_is_the_value(text: String, number: usize, flag: bool)
    ensures
        JsValue::Text(text).entry() == JsEntry::Text(text@),
        JsValue::Number(number).entry() == JsEntry::Number(number as nat),
        JsValue::Flag(flag).entry() == JsEntry::Flag(flag),
{
}

} // verus!
