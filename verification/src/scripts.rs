//! Running the server scripts of a page.
use crate::engine::{
    eval, first_response, first_sessions, new_response_lock, new_session_lock, was_given,
    ContextEntry, Engine, EvalReply, Evaluation, JsEntry,
};
use crate::globals::{
    cookie_entries, inject_server_globals, law_failed_set_up_runs_no_script, req_entries, request_cookies, server_globals, set_up,
    set_up_failed, PRELUDE,
};
use crate::host::{no_response, ResponseState, SessionStore};
use crate::moved::law_text_in_front_moves_the_scripts;
use crate::parts::law_page_around_one_tag;
use crate::route::text_of;
use crate::string_map::StringMap;
use crate::tags::{
    are_server_scripts, extract_server_scripts, law_rendering_is_local,
    law_server_tags_are_in_order, rendered, rendered_from, rendered_upto, replace_scripts,
    resume_at, script_texts, server_tags, texts_of, ScriptBlock,
};
use rquickjs::{Context, Error, Runtime};
use std::sync::{Arc, Mutex};
use vstd::prelude::*;
use vstd::string::*;

verus! {

/// A request as the scripts of a page see it.
#[derive(Debug, Clone)]
pub struct ServerRequest {
    pub method: String,
    pub url: String,
    pub headers: StringMap<String>,
    pub query: StringMap<String>,
    pub body: String,
    pub remote_addr: String,
    pub remote_port: u16,
    pub is_https: bool,
    pub protocol: String,
    pub content_length: usize,
    pub content_type: String,
    pub server_user: String,
    pub server_name: String,
    pub server_port: u16,
    pub server_home: String,
    pub server_addr: String,
}

/// Why a page could not be rendered.
#[derive(Debug)]
pub enum ScriptError {
    /// The engine could not be set up.
    Engine(Error),
    /// The script that prepares the engine failed, with this message.
    Script(String),
}

/// The result of something that the engine takes part in.
pub type JsResult<T> = Result<T, ScriptError>;

/// The engine's context was made in the runtime.
pub open spec fn made_in(engine: Engine, runtime: Runtime) -> bool {
    call_ensures(Context::full, (&runtime,), Ok::<Context, Error>(engine.context()))
}

/// `Runtime::new` gave the error `e`, or `Context::full` did.
pub open spec fn not_made(e: Error) -> bool {
    ||| call_ensures(Runtime::new, (), Err::<Runtime, Error>(e))
    ||| exists|runtime: Runtime| #[trigger]
        call_ensures(Context::full, (&runtime,), Err::<Context, Error>(e))
}

/// A runtime and an engine in it, into which nothing has been put and whose scripts have written
/// nothing yet.
pub fn create_js_context() -> (r: JsResult<(Runtime, Engine)>)
    ensures
        r matches Ok(made) ==> made_in(made.1, made.0),
        r matches Ok(made) ==> made.1.contents() == Seq::<ContextEntry>::empty(),
        r matches Ok(made) ==> made.1.written() == Seq::<char>::empty(),
        r matches Err(e) ==> e is Engine && not_made(e->Engine_0),
{
    let make_runtime = Runtime::new;
    let make_context = Context::full;
    let runtime = match make_runtime() {
        Ok(runtime) => runtime,
        Err(e) => return Err(ScriptError::Engine(e)),
    };
    let context = match make_context(&runtime) {
        Ok(context) => context,
        Err(e) => return Err(ScriptError::Engine(e)),
    };
    Ok((runtime, Engine::new(context)))
}

/// What a script that threw something else than an error object is said to have thrown.
pub const UNKNOWN_ERROR: &'static str = "Unknown JavaScript error";

/// The message of a script that failed, given what the engine reported.
pub open spec fn failure(reply: EvalReply) -> Option<Seq<char>> {
    match reply {
        EvalReply::Completed => None,
        EvalReply::Failed(message) => Some(message@),
        EvalReply::Thrown(Some(message)) => Some(message@),
        EvalReply::Thrown(None) => Some(UNKNOWN_ERROR@),
    }
}

/// What evaluating a script comes to, given what the engine reported.
pub open spec fn is_eval_result(reply: EvalReply, result: Result<(), String>) -> bool {
    match result {
        Ok(()) => failure(reply) is None,
        Err(message) => failure(reply) == Some(message@),
    }
}

/// What evaluating a script comes to.
pub fn eval_result(reply: EvalReply) -> (r: Result<(), String>)
    ensures
        is_eval_result(reply, r),
{
    match reply {
        EvalReply::Completed => Ok(()),
        EvalReply::Failed(message) => Err(message),
        EvalReply::Thrown(Some(message)) => Err(message),
        EvalReply::Thrown(None) => Err(UNKNOWN_ERROR.to_owned()),
    }
}

/// The engine was given one script more, which came to `result`.
pub open spec fn evaluated(
    before: Engine,
    after: Engine,
    source: Seq<char>,
    result: Result<(), String>,
) -> bool {
    &&& after.contents().len() == before.contents().len() + 1
    &&& after.contents().drop_last() == before.contents()
    &&& after.contents().last() matches ContextEntry::Script(e) && {
        &&& e.source == source
        &&& e.before == before.written()
        &&& e.after == after.written()
        &&& is_eval_result(e.reply, result)
    }
}

/// Evaluates a script in the engine.
pub fn better_eval_scripts(engine: &mut Engine, content: &str) -> (r: Result<(), String>)
    ensures
        evaluated(*old(engine), *final(engine), content@, r),
{
    let ghost before = engine.contents();
    let reply = eval(engine, content);
    assert(engine.contents().drop_last() == before);
    eval_result(reply)
}

/// What stands in the page for a script that failed.
pub const SCRIPT_ERROR: &'static str = "<!-- Server JS Error -->";

/// What stands in the page for a script: what it wrote, or a remark that it failed.
pub open spec fn replacement(run: Evaluation) -> Seq<char> {
    if run.reply is Completed {
        run.after
    } else {
        SCRIPT_ERROR@
    }
}

/// What stands in the page for each of the scripts.
pub open spec fn replacements(runs: Seq<Evaluation>) -> Seq<Seq<char>> {
    runs.map_values(|run: Evaluation| replacement(run))
}

/// The messages of those scripts that failed, in the order of the scripts.
pub open spec fn failures(runs: Seq<Evaluation>) -> Seq<Seq<char>>
    decreases runs.len(),
{
    if runs.len() == 0 {
        seq![]
    } else {
        match failure(runs.last().reply) {
            Some(message) => failures(runs.drop_last()).push(message),
            None => failures(runs.drop_last()),
        }
    }
}

/// `runs` are the runs of `sources`: of each one, in their order, and each beginning with nothing
/// written.
pub open spec fn are_runs_of(sources: Seq<Seq<char>>, runs: Seq<Evaluation>) -> bool {
    &&& runs.len() == sources.len()
    &&& forall|i: int|
        #![trigger runs[i]]
        0 <= i < runs.len() ==> runs[i].source == sources[i] && runs[i].before == Seq::<
            char,
        >::empty()
}

/// The runs as entries of an engine's record.
pub open spec fn run_entries(runs: Seq<Evaluation>) -> Seq<ContextEntry> {
    runs.map_values(|run: Evaluation| ContextEntry::Script(run))
}

/// What stands in the page for a script, given what evaluating it came to and what it wrote.
pub fn script_replacement(result: &Result<(), String>, output: String) -> (r: String)
    ensures
        result is Ok ==> r == output,
        result is Err ==> r@ == SCRIPT_ERROR@,
{
    match result {
        Ok(()) => output,
        Err(_) => SCRIPT_ERROR.to_owned(),
    }
}

/// Evaluates one script of a page with nothing written before.  Gives what stands for it, and the
/// message if it failed.
pub fn run_script(engine: &mut Engine, content: &str) -> (r: (String, Option<String>))
    ensures
        final(engine).contents().len() == old(engine).contents().len() + 1,
        final(engine).contents().drop_last() == old(engine).contents(),
        final(engine).contents().last() matches ContextEntry::Script(run) && {
            &&& run.source == content@
            &&& run.before == Seq::<char>::empty()
            &&& r.0@ == replacement(run)
            &&& run.reply is Completed ==> r.0@ == run.after && r.0@ == final(engine).written()
            &&& !(run.reply is Completed) ==> r.0@ == "<!-- Server JS Error -->"@
            &&& text_of(r.1) == failure(run.reply)
        },
{
    engine.clear_output();
    let result = better_eval_scripts(engine, content);
    let output = engine.read_output();
    let text = script_replacement(&result, output);
    match result {
        Ok(()) => (text, None),
        Err(message) => (text, Some(message)),
    }
}

/// The scripts' own texts in a list of blocks.
pub open spec fn contents_of(blocks: Seq<ScriptBlock>) -> Seq<Seq<char>> {
    blocks.map_values(|b: ScriptBlock| b.content@)
}

/// Evaluates the scripts one after another.  Gives what stands for each in the page, and the
/// messages of those that failed.
#[verifier::rlimit(30)]
pub fn run_scripts(engine: &mut Engine, blocks: &Vec<ScriptBlock>) -> (r: (
    Vec<String>,
    Vec<String>,
))
    ensures
        exists|runs: Seq<Evaluation>|
            {
                &&& #[trigger] are_runs_of(contents_of(blocks@), runs)
                &&& final(engine).contents() == old(engine).contents() + run_entries(runs)
                &&& texts_of(r.0@) == replacements(runs)
                &&& texts_of(r.1@) == failures(runs)
            },
{
    let ghost start = engine.contents();
    let ghost mut runs: Seq<Evaluation> = Seq::empty();
    let mut outputs: Vec<String> = Vec::new();
    let mut errors: Vec<String> = Vec::new();
    let mut i: usize = 0;
    assert(start + run_entries(runs) =~= start);
    assert(texts_of(outputs@) =~= replacements(runs));
    assert(texts_of(errors@) =~= failures(runs));
    while i < blocks.len()
        invariant
            i <= blocks@.len(),
            are_runs_of(contents_of(blocks@).take(i as int), runs),
            engine.contents() == start + run_entries(runs),
            texts_of(outputs@) == replacements(runs),
            texts_of(errors@) == failures(runs),
        decreases blocks@.len() - i,
    {
        let ghost before = engine.contents();
        let ghost given = outputs@;
        let ghost failed = errors@;
        let (output, error) = run_script(engine, blocks[i].content.as_str());
        outputs.push(output);
        match error {
            Some(message) => {
                errors.push(message);
                assert(texts_of(errors@) =~= texts_of(failed).push(message@));
            },
            None => {},
        }
        proof {
            let run = engine.contents().last()->Script_0;
            let all = contents_of(blocks@);
            assert(runs.push(run).drop_last() =~= runs);
            assert(engine.contents() =~= before.push(ContextEntry::Script(run)));
            assert(run_entries(runs.push(run)) =~= run_entries(runs).push(
                ContextEntry::Script(run),
            ));
            assert(before.push(ContextEntry::Script(run)) =~= start + run_entries(runs).push(
                ContextEntry::Script(run),
            ));
            assert(texts_of(outputs@) =~= texts_of(given).push(output@));
            assert(replacements(runs.push(run)) =~= replacements(runs).push(replacement(run)));
            assert forall|k: int|
                #![trigger runs.push(run)[k]]
                0 <= k <= i implies runs.push(run)[k].source == all.take(i + 1)[k] && runs.push(
                run,
            )[k].before == Seq::<char>::empty() by {
                if k < i {
                    assert(runs[k].source == all.take(i as int)[k]);
                }
            }
            runs = runs.push(run);
        }
        i = i + 1;
    }
    assert(contents_of(blocks@).take(i as int) =~= contents_of(blocks@));
    (outputs, errors)
}

/// What an engine is given when it renders a page: the variables for the request, the prelude, and
/// the scripts of the page.
pub open spec fn page_record(
    request: ServerRequest,
    state: Arc<Mutex<ResponseState>>,
    store: Arc<Mutex<SessionStore>>,
    prelude: Evaluation,
    runs: Seq<Evaluation>,
) -> Seq<ContextEntry> {
    server_globals(request, state, store).push(ContextEntry::Script(prelude)) + run_entries(runs)
}

/// A response of which nothing was asked, and a store without sessions, as they were made.
pub open spec fn starts_empty(
    state: Arc<Mutex<ResponseState>>,
    store: Arc<Mutex<SessionStore>>,
) -> bool {
    &&& first_response(*state) == no_response()
    &&& first_sessions(*store) == Map::<Seq<char>, Map<Seq<char>, Seq<char>>>::empty()
}

/// The engine was given what belongs to the request and then the scripts of `html`; `page` is
/// `html` with what they wrote, and `errors` are the messages of those that failed.
pub open spec fn rendered_in<
    F: Fn(&Context) -> Result<(), Error>,
    G: Fn(&Context) -> Result<(), Error>,
>(
    engine: Engine,
    html: Seq<char>,
    request: ServerRequest,
    install_fs: F,
    install_log: G,
    page: Seq<char>,
    errors: Seq<Seq<char>>,
) -> bool {
    exists|
        state: Arc<Mutex<ResponseState>>,
        store: Arc<Mutex<SessionStore>>,
        prelude: Evaluation,
        runs: Seq<Evaluation>,
    |
        {
            &&& engine.contents() == #[trigger] page_record(request, state, store, prelude, runs)
            &&& starts_empty(state, store)
            &&& set_up(seq![], server_globals(request, state, store), install_fs, install_log)
            &&& prelude.source == PRELUDE@
            &&& failure(prelude.reply) is None
            &&& are_runs_of(script_texts(html), runs)
            &&& page == rendered(html, server_tags(html), replacements(runs))
            &&& errors == failures(runs)
        }
}

/// The engine was given the variables for the request, and then its prelude failed with `message`.
/// Nothing of a page was run in it.
pub open spec fn prelude_failed_in<
    F: Fn(&Context) -> Result<(), Error>,
    G: Fn(&Context) -> Result<(), Error>,
>(
    engine: Engine,
    request: ServerRequest,
    install_fs: F,
    install_log: G,
    message: Seq<char>,
) -> bool {
    exists|
        state: Arc<Mutex<ResponseState>>,
        store: Arc<Mutex<SessionStore>>,
        prelude: Evaluation,
    |
        {
            &&& engine.contents() == #[trigger] page_record(request, state, store, prelude, seq![])
            &&& starts_empty(state, store)
            &&& set_up(seq![], server_globals(request, state, store), install_fs, install_log)
            &&& prelude.source == PRELUDE@
            &&& failure(prelude.reply) == Some(message)
        }
}

/// Putting the variables for the request into the engine failed with the error `e`.  No script was
/// run in it.
pub open spec fn set_up_failed_in<
    F: Fn(&Context) -> Result<(), Error>,
    G: Fn(&Context) -> Result<(), Error>,
>(
    engine: Engine,
    request: ServerRequest,
    install_fs: F,
    install_log: G,
    e: Error,
) -> bool {
    exists|state: Arc<Mutex<ResponseState>>, store: Arc<Mutex<SessionStore>>|
        {
            &&& #[trigger] starts_empty(state, store)
            &&& set_up_failed(
                seq![],
                engine.contents(),
                server_globals(request, state, store),
                install_fs,
                install_log,
                e,
            )
        }
}

/// A rendered page.
pub struct Rendering {
    /// The page with what stands for its scripts.
    pub page: String,
    /// The messages of those scripts that failed, in the order of the scripts.
    pub errors: Vec<String>,
}

/// Renders a page in an engine into which nothing has been put yet: puts in the variables for the
/// request, evaluates the prelude and then each script of the page once, and puts what stands for
/// each in its place.
///
/// Whatever the scripts do, an error comes only where putting in the variables failed or where the
/// prelude failed, and then no script of the page was run.
#[verifier::rlimit(30)]
pub fn render_page<
    F: Fn(&Context) -> Result<(), Error>,
    G: Fn(&Context) -> Result<(), Error>,
>(
    engine: &mut Engine,
    html: &str,
    blocks: &Vec<ScriptBlock>,
    request: &ServerRequest,
    install_fs: F,
    install_log: G,
) -> (r: JsResult<Rendering>)
    requires
        old(engine).contents() == Seq::<ContextEntry>::empty(),
        are_server_scripts(blocks@, html@),
        forall|c: &Context| call_requires(install_fs, (c,)),
        forall|c: &Context| call_requires(install_log, (c,)),
    ensures
        r matches Ok(x) ==> rendered_in(
            *final(engine),
            html@,
            *request,
            install_fs,
            install_log,
            x.page@,
            texts_of(x.errors@),
        ),
        r matches Err(ScriptError::Script(m)) ==> prelude_failed_in(
            *final(engine),
            *request,
            install_fs,
            install_log,
            m@,
        ),
        r matches Err(ScriptError::Engine(e)) ==> set_up_failed_in(
            *final(engine),
            *request,
            install_fs,
            install_log,
            e,
        ),
{
    let resp_state = Arc::new(new_response_lock(ResponseState::default()));
    let session_store = Arc::new(new_session_lock(SessionStore::new()));
    assert(starts_empty(resp_state, session_store));
    let ghost globals = server_globals(*request, resp_state, session_store);
    let injected = inject_server_globals(
        engine,
        request,
        &resp_state,
        &session_store,
        install_fs,
        install_log,
    );
    let ghost prelude = engine.contents().last()->Script_0;
    let ghost record = engine.contents();
    match injected {
        Ok(()) => {},
        Err(ScriptError::Engine(e)) => return Err(ScriptError::Engine(e)),
        Err(ScriptError::Script(m)) => {
            assert(record =~= page_record(*request, resp_state, session_store, prelude, seq![]));
            return Err(ScriptError::Script(m));
        },
    }
    assert(record =~= globals.push(ContextEntry::Script(prelude)));
    let (outputs, errors) = run_scripts(engine, blocks);
    let ghost runs = choose|runs: Seq<Evaluation>|
        {
            &&& #[trigger] are_runs_of(contents_of(blocks@), runs)
            &&& engine.contents() == record + run_entries(runs)
            &&& texts_of(outputs@) == replacements(runs)
            &&& texts_of(errors@) == failures(runs)
        };
    assert(texts_of(outputs@).len() == blocks@.len());
    let page = replace_scripts(html, blocks, &outputs);
    proof {
        assert(contents_of(blocks@) =~= script_texts(html@)) by {
            assert forall|k: int| 0 <= k < blocks@.len() implies contents_of(blocks@)[k]
                == #[trigger] script_texts(html@)[k] by {
                assert(blocks@[k].is_block(html@, server_tags(html@)[k]));
            }
        }
        assert(engine.contents() == page_record(
            *request,
            resp_state,
            session_store,
            prelude,
            runs,
        ));
    }
    Ok(Rendering { page, errors })
}

/// The page `html` with each server script replaced by what it wrote, or by a remark where it
/// failed.  A page without server scripts is given back as it is, and no engine is started; any
/// other is rendered by `render_page` in an engine of its own.
///
/// Whatever the scripts do, an error comes only where the engine could not be made, where putting
/// in the variables failed, or where the prelude failed.
///
/// `install_fs` and `install_log` put into the engine what reaches outside the program.
pub fn execute_server_scripts<
    F: Fn(&Context) -> Result<(), Error>,
    G: Fn(&Context) -> Result<(), Error>,
>(
    html: &str,
    request: &ServerRequest,
    install_fs: F,
    install_log: G,
) -> (r: JsResult<Rendering>)
    requires
        forall|c: &Context| call_requires(install_fs, (c,)),
        forall|c: &Context| call_requires(install_log, (c,)),
    ensures
        server_tags(html@).len() == 0 ==> r is Ok && r->Ok_0.page@ == html@
            && r->Ok_0.errors@.len() == 0,
        server_tags(html@).len() > 0 && r is Ok ==> exists|engine: Engine| #[trigger]
            rendered_in(
                engine,
                html@,
                *request,
                install_fs,
                install_log,
                r->Ok_0.page@,
                texts_of(r->Ok_0.errors@),
            ),
        r matches Err(ScriptError::Script(m)) ==> exists|engine: Engine| #[trigger]
            prelude_failed_in(engine, *request, install_fs, install_log, m@),
        r matches Err(ScriptError::Engine(e)) ==> not_made(e) || exists|engine: Engine| #[trigger]
            set_up_failed_in(engine, *request, install_fs, install_log, e),
{
    let blocks = extract_server_scripts(html);
    if blocks.len() == 0 {
        return Ok(Rendering { page: html.to_owned(), errors: Vec::new() });
    }
    let (_runtime, mut engine) = match create_js_context() {
        Ok(made) => made,
        Err(e) => return Err(e),
    };
    let r = render_page(&mut engine, html, &blocks, request, install_fs, install_log);
    proof {
        if r is Ok {
            assert(rendered_in(
                engine,
                html@,
                *request,
                install_fs,
                install_log,
                r->Ok_0.page@,
                texts_of(r->Ok_0.errors@),
            ));
        } else if r->Err_0 is Script {
            let m = r->Err_0->Script_0@;
            assert(prelude_failed_in(engine, *request, install_fs, install_log, m));
        } else {
            let e = r->Err_0->Engine_0;
            assert(set_up_failed_in(engine, *request, install_fs, install_log, e));
        }
    }
    r
}

/// Text without `<` in front of a page stands in front of the rendered page, and the same scripts
/// run in the same way.
pub proof fn law_text_in_front_stays_in_front<
    F: Fn(&Context) -> Result<(), Error>,
    G: Fn(&Context) -> Result<(), Error>,
>(
    engine: Engine,
    front: Seq<char>,
    html: Seq<char>,
    request: ServerRequest,
    install_fs: F,
    install_log: G,
    page: Seq<char>,
    errors: Seq<Seq<char>>,
)
    requires
        !front.contains('<'),
        rendered_in(engine, html, request, install_fs, install_log, page, errors),
    ensures
        rendered_in(engine, front + html, request, install_fs, install_log, front + page, errors),
{
    let (state, store, prelude, runs) = choose|
        state: Arc<Mutex<ResponseState>>,
        store: Arc<Mutex<SessionStore>>,
        prelude: Evaluation,
        runs: Seq<Evaluation>,
    |
        {
            &&& engine.contents() == #[trigger] page_record(request, state, store, prelude, runs)
            &&& starts_empty(state, store)
            &&& set_up(seq![], server_globals(request, state, store), install_fs, install_log)
            &&& prelude.source == PRELUDE@
            &&& failure(prelude.reply) is None
            &&& are_runs_of(script_texts(html), runs)
            &&& page == rendered(html, server_tags(html), replacements(runs))
            &&& errors == failures(runs)
        };
    law_text_in_front_moves_the_scripts(front, html, replacements(runs));
    assert(engine.contents() == page_record(request, state, store, prelude, runs));
}

/// The runs of a page's scripts in an engine that rendered it: what stands in the record behind the
/// variables and the prelude.
pub open spec fn page_runs(engine: Engine) -> Seq<Evaluation> {
    engine.contents().skip(7).map_values(|entry: ContextEntry| entry->Script_0)
}

proof fn lemma_page_runs<
    F: Fn(&Context) -> Result<(), Error>,
    G: Fn(&Context) -> Result<(), Error>,
>(
    engine: Engine,
    html: Seq<char>,
    request: ServerRequest,
    install_fs: F,
    install_log: G,
    page: Seq<char>,
    errors: Seq<Seq<char>>,
)
    requires
        rendered_in(engine, html, request, install_fs, install_log, page, errors),
    ensures
        are_runs_of(script_texts(html), page_runs(engine)),
        page == rendered(html, server_tags(html), replacements(page_runs(engine))),
        errors == failures(page_runs(engine)),
{
    let (state, store, prelude, runs) = choose|
        state: Arc<Mutex<ResponseState>>,
        store: Arc<Mutex<SessionStore>>,
        prelude: Evaluation,
        runs: Seq<Evaluation>,
    |
        {
            &&& engine.contents() == #[trigger] page_record(request, state, store, prelude, runs)
            &&& are_runs_of(script_texts(html), runs)
            &&& page == rendered(html, server_tags(html), replacements(runs))
            &&& errors == failures(runs)
        };
    assert(engine.contents().skip(7) =~= run_entries(runs));
    assert(page_runs(engine) =~= runs);
}

/// Two renderings of one page, for whatever requests and in whatever engines, whose scripts write
/// the same and of whose scripts the same fail, give the same page.
pub proof fn law_same_writing_gives_the_same_page<
    F: Fn(&Context) -> Result<(), Error>,
    G: Fn(&Context) -> Result<(), Error>,
>(
    html: Seq<char>,
    engine: Engine,
    request: ServerRequest,
    page: Seq<char>,
    errors: Seq<Seq<char>>,
    other_engine: Engine,
    other_request: ServerRequest,
    other_page: Seq<char>,
    other_errors: Seq<Seq<char>>,
    install_fs: F,
    install_log: G,
)
    requires
        rendered_in(engine, html, request, install_fs, install_log, page, errors),
        rendered_in(
            other_engine,
            html,
            other_request,
            install_fs,
            install_log,
            other_page,
            other_errors,
        ),
        replacements(page_runs(engine)) == replacements(page_runs(other_engine)),
    ensures
        page == other_page,
{
    lemma_page_runs(engine, html, request, install_fs, install_log, page, errors);
    lemma_page_runs(
        other_engine,
        html,
        other_request,
        install_fs,
        install_log,
        other_page,
        other_errors,
    );
}

/// What a script does depends on the scripts before it in the page and on nothing else: a run is
/// what `does` makes of the runs before it and of the script's source.
pub open spec fn depends_on_page_alone(
    does: spec_fn(Seq<Evaluation>, Seq<char>) -> Evaluation,
    runs: Seq<Evaluation>,
) -> bool {
    forall|i: int|
        0 <= i < runs.len() ==> #[trigger] runs[i] == does(runs.take(i), runs[i].source)
}

proof fn lemma_same_runs(
    does: spec_fn(Seq<Evaluation>, Seq<char>) -> Evaluation,
    sources: Seq<Seq<char>>,
    a: Seq<Evaluation>,
    b: Seq<Evaluation>,
    n: int,
)
    requires
        are_runs_of(sources, a),
        are_runs_of(sources, b),
        depends_on_page_alone(does, a),
        depends_on_page_alone(does, b),
        0 <= n <= sources.len(),
    ensures
        a.take(n) == b.take(n),
    decreases n,
{
    if n > 0 {
        lemma_same_runs(does, sources, a, b, n - 1);
        assert(a[n - 1] == does(a.take(n - 1), a[n - 1].source));
        assert(b[n - 1] == does(b.take(n - 1), b[n - 1].source));
        assert(a.take(n) =~= a.take(n - 1).push(a[n - 1]));
        assert(b.take(n) =~= b.take(n - 1).push(b[n - 1]));
    } else {
        assert(a.take(0) =~= b.take(0));
    }
}

/// A call leaves nothing for another: where what a script does for a request depends on the scripts
/// before it in the page alone, rendering the page for the request again, after whatever else was
/// rendered and in whatever engine, gives the same page and the same messages.
pub proof fn law_rendering_again_gives_the_same<
    F: Fn(&Context) -> Result<(), Error>,
    G: Fn(&Context) -> Result<(), Error>,
>(
    does: spec_fn(Seq<Evaluation>, Seq<char>) -> Evaluation,
    html: Seq<char>,
    request: ServerRequest,
    install_fs: F,
    install_log: G,
    engine: Engine,
    page: Seq<char>,
    errors: Seq<Seq<char>>,
    other_engine: Engine,
    other_page: Seq<char>,
    other_errors: Seq<Seq<char>>,
)
    requires
        rendered_in(engine, html, request, install_fs, install_log, page, errors),
        rendered_in(
            other_engine,
            html,
            request,
            install_fs,
            install_log,
            other_page,
            other_errors,
        ),
        depends_on_page_alone(does, page_runs(engine)),
        depends_on_page_alone(does, page_runs(other_engine)),
    ensures
        page == other_page,
        errors == other_errors,
{
    lemma_page_runs(engine, html, request, install_fs, install_log, page, errors);
    lemma_page_runs(
        other_engine,
        html,
        request,
        install_fs,
        install_log,
        other_page,
        other_errors,
    );
    let a = page_runs(engine);
    let b = page_runs(other_engine);
    lemma_same_runs(does, script_texts(html), a, b, a.len() as int);
    assert(a.take(a.len() as int) =~= a);
    assert(b.take(b.len() as int) =~= b);
}

/// An engine that rendered a page was given the variables of one request and the scripts of one
/// page: if the same engine rendered two, then what scripts see of the two requests is the same, and
/// so are the scripts.  So nothing of one call is left in the engine of a call for something else.
pub proof fn law_an_engine_renders_one_page<
    F: Fn(&Context) -> Result<(), Error>,
    G: Fn(&Context) -> Result<(), Error>,
>(
    engine: Engine,
    html: Seq<char>,
    request: ServerRequest,
    page: Seq<char>,
    errors: Seq<Seq<char>>,
    other_html: Seq<char>,
    other_request: ServerRequest,
    other_page: Seq<char>,
    other_errors: Seq<Seq<char>>,
    install_fs: F,
    install_log: G,
)
    requires
        rendered_in(engine, html, request, install_fs, install_log, page, errors),
        rendered_in(
            engine,
            other_html,
            other_request,
            install_fs,
            install_log,
            other_page,
            other_errors,
        ),
    ensures
        script_texts(html) == script_texts(other_html),
        req_entries(request) == req_entries(other_request),
        request_cookies(request) == request_cookies(other_request),
        errors == other_errors,
{
    let (state, store, prelude, runs) = choose|
        state: Arc<Mutex<ResponseState>>,
        store: Arc<Mutex<SessionStore>>,
        prelude: Evaluation,
        runs: Seq<Evaluation>,
    |
        {
            &&& engine.contents() == #[trigger] page_record(request, state, store, prelude, runs)
            &&& are_runs_of(script_texts(html), runs)
            &&& errors == failures(runs)
        };
    let (state2, store2, prelude2, runs2) = choose|
        state: Arc<Mutex<ResponseState>>,
        store: Arc<Mutex<SessionStore>>,
        prelude: Evaluation,
        runs: Seq<Evaluation>,
    |
        {
            &&& engine.contents() == #[trigger] page_record(
                other_request,
                state,
                store,
                prelude,
                runs,
            )
            &&& are_runs_of(script_texts(other_html), runs)
            &&& other_errors == failures(runs)
        };
    let a = page_record(request, state, store, prelude, runs);
    let b = page_record(other_request, state2, store2, prelude2, runs2);
    assert(a == b);
    let globals = server_globals(request, state, store);
    let globals2 = server_globals(other_request, state2, store2);
    assert(a[0] == globals[0] && b[0] == globals2[0]);
    assert(a[3] == globals[3] && b[3] == globals2[3]);
    let cookies = cookie_entries(state, request_cookies(request));
    let cookies2 = cookie_entries(state2, request_cookies(other_request));
    assert(globals[3] == ContextEntry::Global("COOKIE"@, JsEntry::Object(cookies)));
    assert(globals2[3] == ContextEntry::Global("COOKIE"@, JsEntry::Object(cookies2)));
    assert(cookies[1] == cookies2[1]);
    assert forall|i: int| 0 <= i < runs.len() implies runs[i] == runs2[i] by {
        assert(a[i + 7] == ContextEntry::Script(runs[i]));
        assert(b[i + 7] == ContextEntry::Script(runs2[i]));
    }
    assert(runs =~= runs2);
    assert forall|i: int| 0 <= i < runs.len() implies script_texts(html)[i]
        == script_texts(other_html)[i] by {
        assert(runs[i].source == script_texts(html)[i]);
        assert(runs2[i].source == script_texts(other_html)[i]);
    }
    assert(script_texts(html) =~= script_texts(other_html));
}

/// A script that fails shows as a remark in its own place, and the rest of the page is as if it
/// had run.
pub proof fn law_failure_stays_in_its_place(
    t: Seq<char>,
    runs: Seq<Evaluation>,
    k: int,
    failed: Evaluation,
)
    requires
        are_runs_of(script_texts(t), runs),
        0 <= k < runs.len(),
        !(failed.reply is Completed),
    ensures
        ({
            let tags = server_tags(t);
            let before = rendered_upto(t, tags, replacements(runs), k) + t.subrange(
                resume_at(tags, k),
                tags[k].start,
            );
            let after = rendered_from(t, tags, replacements(runs), k + 1);
            &&& rendered(t, tags, replacements(runs)) == before + replacement(runs[k]) + after
            &&& rendered(t, tags, replacements(runs.update(k, failed))) == before + SCRIPT_ERROR@
                + after
        }),
{
    law_rendering_is_local(t, server_tags(t), replacements(runs), k, SCRIPT_ERROR@);
    assert(replacements(runs.update(k, failed)) =~= replacements(runs).update(k, SCRIPT_ERROR@));
}

/// What stands in the page for a script: the whole of what was written when it was over, if it ran
/// to its end, and else the remark that it failed.
pub proof fn law_what_stands_for_a_script(run: Evaluation)
    ensures
        run.reply is Completed ==> replacement(run) == run.after,
        !(run.reply is Completed) ==> replacement(run) == "<!-- Server JS Error -->"@,
{
}

/// The message of a script that failed is the text that the engine reported, and `Unknown JavaScript
/// error` where it reported none.  A script that ran to its end has none.
pub proof fn law_message_of_a_script(message: String)
    ensures
        failure(EvalReply::Completed) is None,
        failure(EvalReply::Thrown(Some(message))) == Some(message@),
        failure(EvalReply::Thrown(None)) == Some("Unknown JavaScript error"@),
        failure(EvalReply::Failed(message)) == Some(message@),
{
}

/// Evaluating a script succeeds exactly when it ran to its end, and else fails with its message.
pub proof fn law_result_of_a_script(reply: EvalReply, result: Result<(), String>)
    requires
        is_eval_result(reply, result),
    ensures
        result is Ok <==> reply is Completed,
        result matches Err(message) ==> failure(reply) == Some(message@),
{
}

/// Evaluating a script hands exactly its source to the engine, once, and nothing else.
pub proof fn law_evaluating_hands_on_the_source(
    before: Engine,
    after: Engine,
    source: Seq<char>,
    result: Result<(), String>,
)
    requires
        evaluated(before, after, source, result),
    ensures
        exists|reply: EvalReply|
            {
                &&& after.contents() == before.contents().push(
                    ContextEntry::Script(
                        Evaluation {
                            source,
                            before: before.written(),
                            reply,
                            after: after.written(),
                        },
                    ),
                )
                &&& #[trigger] is_eval_result(reply, result)
            },
{
    let e = after.contents().last()->Script_0;
    assert(after.contents() =~= before.contents().push(after.contents().last()));
    assert(is_eval_result(e.reply, result));
}

/// The messages of a page's scripts are those of the ones that failed, in their order.
pub proof fn law_one_script_more(runs: Seq<Evaluation>, run: Evaluation)
    ensures
        failures(seq![]) == Seq::<Seq<char>>::empty(),
        run.reply is Completed ==> failures(runs.push(run)) == failures(runs),
        run.reply matches EvalReply::Failed(m) ==> failures(runs.push(run)) == failures(runs).push(
            m@,
        ),
        run.reply matches EvalReply::Thrown(Some(m)) ==> failures(runs.push(run)) == failures(
            runs,
        ).push(m@),
        run.reply matches EvalReply::Thrown(None) ==> failures(runs.push(run)) == failures(
            runs,
        ).push("Unknown JavaScript error"@),
{
    assert(runs.push(run).drop_last() =~= runs);
}

/// In a rendered page every script was run once, in its place among the others, with its own text and
/// with nothing written before, and the page shows for each the whole of what it wrote, or the remark
/// that it failed.  Before them the engine was given the variables for the request and the prelude,
/// which ran to its end, and nothing else; the response and the sessions began empty.
pub proof fn law_every_script_runs_and_shows<
    F: Fn(&Context) -> Result<(), Error>,
    G: Fn(&Context) -> Result<(), Error>,
>(
    engine: Engine,
    html: Seq<char>,
    request: ServerRequest,
    install_fs: F,
    install_log: G,
    page: Seq<char>,
    errors: Seq<Seq<char>>,
)
    requires
        rendered_in(engine, html, request, install_fs, install_log, page, errors),
    ensures
        ({
            let tags = server_tags(html);
            let n = tags.len();
            let record = engine.contents();
            &&& record.len() == 7 + n
            &&& forall|i: int|
                #![trigger tags[i]]
                0 <= i < n ==> {
                    &&& record[7 + i] is Script
                    &&& record[7 + i]->Script_0.source == html.subrange(tags[i].body, tags[i].close)
                    &&& record[7 + i]->Script_0.before == Seq::<char>::empty()
                }
            &&& page == rendered(
                html,
                tags,
                Seq::new(
                    n,
                    |i: int|
                        if record[7 + i]->Script_0.reply is Completed {
                            record[7 + i]->Script_0.after
                        } else {
                            "<!-- Server JS Error -->"@
                        },
                ),
            )
            &&& errors == failures(page_runs(engine))
            &&& page_runs(engine) == Seq::new(n, |i: int| record[7 + i]->Script_0)
            &&& record[6] is Script
            &&& record[6]->Script_0.source == PRELUDE@
            &&& record[6]->Script_0.reply is Completed
            &&& exists|state: Arc<Mutex<ResponseState>>, store: Arc<Mutex<SessionStore>>|
                {
                    &&& record.take(6) == #[trigger] server_globals(request, state, store)
                    &&& first_response(*state) == (
                        None::<u16>,
                        Map::<Seq<char>, Seq<char>>::empty(),
                        Map::<Seq<char>, Seq<char>>::empty(),
                    )
                    &&& first_sessions(*store) == Map::<
                        Seq<char>,
                        Map<Seq<char>, Seq<char>>,
                    >::empty()
                    &&& was_given(install_fs, record.take(2), Ok(()))
                    &&& was_given(install_log, record.take(6), Ok(()))
                }
        }),
{
    let (state, store, prelude, runs) = choose|
        state: Arc<Mutex<ResponseState>>,
        store: Arc<Mutex<SessionStore>>,
        prelude: Evaluation,
        runs: Seq<Evaluation>,
    |
        {
            &&& engine.contents() == #[trigger] page_record(request, state, store, prelude, runs)
            &&& starts_empty(state, store)
            &&& set_up(seq![], server_globals(request, state, store), install_fs, install_log)
            &&& prelude.source == PRELUDE@
            &&& failure(prelude.reply) is None
            &&& are_runs_of(script_texts(html), runs)
            &&& page == rendered(html, server_tags(html), replacements(runs))
            &&& errors == failures(runs)
        };
    let tags = server_tags(html);
    let n = tags.len();
    let record = engine.contents();
    let globals = server_globals(request, state, store);
    assert forall|i: int| #![trigger tags[i]] 0 <= i < n implies {
        &&& record[7 + i] == ContextEntry::Script(runs[i])
        &&& runs[i].source == html.subrange(tags[i].body, tags[i].close)
        &&& runs[i].before == Seq::<char>::empty()
    } by {
        assert(run_entries(runs)[i] == record[7 + i]);
        assert(runs[i].source == script_texts(html)[i]);
    }
    let texts = Seq::new(
        n,
        |i: int|
            if record[7 + i]->Script_0.reply is Completed {
                record[7 + i]->Script_0.after
            } else {
                "<!-- Server JS Error -->"@
            },
    );
    assert forall|i: int| 0 <= i < n implies #[trigger] replacements(runs)[i] == texts[i] by {
        assert(tags[i] == tags[i]);
        assert(record[7 + i] == ContextEntry::Script(runs[i]));
    }
    assert(replacements(runs) =~= texts);
    assert(record[6] == ContextEntry::Script(prelude));
    lemma_page_runs(engine, html, request, install_fs, install_log, page, errors);
    assert(page_runs(engine) =~= Seq::new(n, |i: int| record[7 + i]->Script_0));
    let none = Seq::<ContextEntry>::empty();
    assert(record.take(6) =~= globals);
    assert(none + globals =~= record.take(6));
    assert(none + globals.take(2) =~= record.take(2));
}

/// The page with one script is what stands before the script, the whole of what it wrote or the
/// remark that it failed, and what stands behind it.
pub proof fn law_page_of_one_script<
    F: Fn(&Context) -> Result<(), Error>,
    G: Fn(&Context) -> Result<(), Error>,
>(
    engine: Engine,
    html: Seq<char>,
    request: ServerRequest,
    install_fs: F,
    install_log: G,
    page: Seq<char>,
    errors: Seq<Seq<char>>,
)
    requires
        rendered_in(engine, html, request, install_fs, install_log, page, errors),
        server_tags(html).len() == 1,
    ensures
        ({
            let tag = server_tags(html)[0];
            let run = engine.contents()[7]->Script_0;
            &&& run.source == html.subrange(tag.body, tag.close)
            &&& run.reply is Completed ==> page == html.take(tag.start) + run.after + html.skip(
                tag.end,
            )
            &&& !(run.reply is Completed) ==> page == html.take(tag.start)
                + "<!-- Server JS Error -->"@ + html.skip(tag.end)
        }),
{
    law_every_script_runs_and_shows(
        engine,
        html,
        request,
        install_fs,
        install_log,
        page,
        errors,
    );
    law_server_tags_are_in_order(html);
    let tags = server_tags(html);
    let tag = tags[0];
    let run = engine.contents()[7]->Script_0;
    let text = if run.reply is Completed {
        run.after
    } else {
        "<!-- Server JS Error -->"@
    };
    assert(0 <= tag.start < tag.end <= html.len());
    law_page_around_one_tag(html, tag, text);
    assert(tags =~= seq![tag]);
    let record = engine.contents();
    assert(Seq::new(
        1,
        |i: int|
            if record[7 + i]->Script_0.reply is Completed {
                record[7 + i]->Script_0.after
            } else {
                "<!-- Server JS Error -->"@
            },
    ) =~= seq![text]);
}

/// The scripts' own texts are taken over as they are, one by one.
pub proof fn law_contents_of_blocks(blocks: Seq<ScriptBlock>, html: Seq<char>)
    ensures
        contents_of(blocks).len() == blocks.len(),
        forall|i: int|
            0 <= i < blocks.len() ==> #[trigger] contents_of(blocks)[i] == blocks[i].content@,
        script_texts(html).len() == server_tags(html).len(),
        forall|i: int|
            0 <= i < server_tags(html).len() ==> #[trigger] script_texts(html)[i] == html.subrange(
                server_tags(html)[i].body,
                server_tags(html)[i].close,
            ),
{
}

/// Runs of scripts are one for each script, in their order, each with the script's own text and with
/// nothing written before.
pub proof fn law_runs_are_of_the_scripts(sources: Seq<Seq<char>>, runs: Seq<Evaluation>)
    requires
        are_runs_of(sources, runs),
    ensures
        runs.len() == sources.len(),
        forall|i: int|
            0 <= i < runs.len() ==> (#[trigger] runs[i]).source == sources[i] && runs[i].before
                == Seq::<char>::empty(),
        run_entries(runs).len() == runs.len(),
        forall|i: int|
            0 <= i < runs.len() ==> #[trigger] run_entries(runs)[i] == ContextEntry::Script(
                runs[i],
            ),
        replacements(runs).len() == runs.len(),
        forall|i: int|
            0 <= i < runs.len() ==> #[trigger] replacements(runs)[i] == (
            if runs[i].reply is Completed {
                runs[i].after
            } else {
                "<!-- Server JS Error -->"@
            }),
{
}

/// Where the prelude failed, the engine was given the variables for the request and the prelude, and
/// nothing of a page; the message is that of the prelude.
pub proof fn law_failed_prelude_runs_no_page<
    F: Fn(&Context) -> Result<(), Error>,
    G: Fn(&Context) -> Result<(), Error>,
>(
    engine: Engine,
    request: ServerRequest,
    install_fs: F,
    install_log: G,
    message: Seq<char>,
)
    requires
        prelude_failed_in(engine, request, install_fs, install_log, message),
    ensures
        engine.contents().len() == 7,
        engine.contents()[6] is Script,
        engine.contents()[6]->Script_0.source == PRELUDE@,
        failure(engine.contents()[6]->Script_0.reply) == Some(message),
        exists|state: Arc<Mutex<ResponseState>>, store: Arc<Mutex<SessionStore>>|
            engine.contents().take(6) == #[trigger] server_globals(request, state, store),
{
    let (state, store, prelude) = choose|
        state: Arc<Mutex<ResponseState>>,
        store: Arc<Mutex<SessionStore>>,
        prelude: Evaluation,
    |
        {
            &&& engine.contents() == #[trigger] page_record(request, state, store, prelude, seq![])
            &&& prelude.source == PRELUDE@
            &&& failure(prelude.reply) == Some(message)
        };
    assert(engine.contents()[6] == ContextEntry::Script(prelude));
    assert(engine.contents().take(6) =~= server_globals(request, state, store));
}

/// Where putting in the variables for a request failed, no script was run in the engine.
pub proof fn law_failed_set_up_leaves_no_script<
    F: Fn(&Context) -> Result<(), Error>,
    G: Fn(&Context) -> Result<(), Error>,
>(
    engine: Engine,
    request: ServerRequest,
    install_fs: F,
    install_log: G,
    e: Error,
)
    requires
        set_up_failed_in(engine, request, install_fs, install_log, e),
    ensures
        forall|i: int|
            0 <= i < engine.contents().len() ==> !(#[trigger] engine.contents()[i] is Script),
        ({
            ||| engine.contents().len() > 0 && engine.contents().last() == ContextEntry::Refused(e)
            ||| was_given(install_fs, engine.contents(), Err(e))
            ||| was_given(install_log, engine.contents(), Err(e))
        }),
{
    let (state, store) = choose|state: Arc<Mutex<ResponseState>>, store: Arc<Mutex<SessionStore>>|
        {
            &&& #[trigger] starts_empty(state, store)
            &&& set_up_failed(
                seq![],
                engine.contents(),
                server_globals(request, state, store),
                install_fs,
                install_log,
                e,
            )
        };
    law_failed_set_up_runs_no_script(
        request,
        state,
        store,
        seq![],
        engine.contents(),
        install_fs,
        install_log,
        e,
    );
}

/// An engine made in a runtime holds a context that `Context::full` gave for that runtime, and an
/// error in making one is an error that `Runtime::new` or `Context::full` gave.
pub proof fn law_where_an_engine_is_made(engine: Engine, runtime: Runtime, e: Error)
    ensures
        made_in(engine, runtime) <==> call_ensures(
            Context::full,
            (&runtime,),
            Ok::<Context, Error>(engine.context()),
        ),
        not_made(e) ==> call_ensures(Runtime::new, (), Err::<Runtime, Error>(e)) || exists|
            other: Runtime,
        | #[trigger] call_ensures(Context::full, (&other,), Err::<Context, Error>(e)),
{
}

} // verus!
