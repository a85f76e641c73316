//! How a request for a file is answered, step by step.
//!
//! What touches the file system, the network or the script engine is asked for by an action and
//! reported back by an event; everything in between is decided here.
use crate::paths::{
    components, components_of, extension_of, is_within, joined_path, or_empty, parts_of,
    path_extname, path_join,
};
use crate::text::{
    ascii_lowered, ends_with_char, is_blank, is_white_space,
    law_reading_a_number_undoes_writing_it, lowercased, numeral, parse_u16, same_text, starts_with,
    to_lowercase, trim_start, trimmed_front, unsigned_value,
};
use vstd::prelude::*;
use vstd::string::*;
use vstd::utf8::*;

verus! {

/// The file that stands for a directory.
pub const INDEX_FILE: &'static str = "index.html";

/// Where the files are when nothing else is said.
pub const DEFAULT_STATIC_DIR: &'static str = "./public";

/// What a page begins with that has server scripts, in lower case.
pub const SERVER_DOCTYPE: &'static str = "<!doctype server>";

/// How far the answering of a request has come.  `T` is the type of a text.
pub enum ServeState<T> {
    /// Nothing has happened yet.
    Start,
    /// The file and the directory of files are being looked up.
    Locating { static_dir: T, path: T, url: T },
    /// A page is being read.
    Reading { url: T },
    /// The scripts of a page are being run.
    Rendering,
    /// Another file is being sent.
    Streaming,
    /// The answer is settled.
    Done,
}

/// What has happened.  `P` is the type of a path's components.
pub enum ServeEvent<T, P> {
    /// A file is asked for, and this is set as the directory of files.
    Requested { static_dir: Option<T>, file_path: T },
    /// The directory of files and the file were looked up: where they really are, if they exist.
    Located { root: Option<P>, full: Option<P> },
    /// A page was read, if that succeeded.
    PageRead(Option<T>),
    /// The scripts of a page were run and gave this page, if that succeeded.
    Rendered(Option<T>),
    /// A file was opened for sending, or that failed.
    Streamed(bool),
}

/// What is to be done next.
pub enum ServeAction<T> {
    /// Look up where the directory of files and the file really are.
    Locate { static_dir: T, path: T },
    /// Read a page.
    ReadPage { path: T },
    /// Run the scripts of a page for a request to `url`.
    Render { content: T, url: T },
    /// Send a file.
    Stream { path: T },
    /// Answer the request.
    Respond(Reply<T>),
}

/// The answer to a request.
pub enum Reply<T> {
    /// There is no such file.
    NotFound,
    /// The file is not below the directory of files.
    Forbidden,
    /// A page.
    Html(T),
    /// The scripts of a page could not be run.
    ScriptFailure,
    /// The file that was opened for sending.
    File,
    /// The file could not be sent.
    FileFailure,
}

impl View for ServeState<String> {
    type V = ServeState<Seq<char>>;

    open spec fn view(&self) -> ServeState<Seq<char>> {
        match self {
            ServeState::Start => ServeState::Start,
            ServeState::Locating { static_dir, path, url } => ServeState::Locating {
                static_dir: static_dir@,
                path: path@,
                url: url@,
            },
            ServeState::Reading { url } => ServeState::Reading { url: url@ },
            ServeState::Rendering => ServeState::Rendering,
            ServeState::Streaming => ServeState::Streaming,
            ServeState::Done => ServeState::Done,
        }
    }
}

/// The text of an optional string.
pub open spec fn text_of(s: Option<String>) -> Option<Seq<char>> {
    match s {
        Some(t) => Some(t@),
        None => None,
    }
}

/// The components of an optional path.
pub open spec fn opt_parts_of(p: Option<Vec<Vec<u8>>>) -> Option<Seq<Seq<u8>>> {
    match p {
        Some(parts) => Some(parts_of(parts@)),
        None => None,
    }
}

impl View for ServeEvent<String, Vec<Vec<u8>>> {
    type V = ServeEvent<Seq<char>, Seq<Seq<u8>>>;

    open spec fn view(&self) -> ServeEvent<Seq<char>, Seq<Seq<u8>>> {
        match self {
            ServeEvent::Requested { static_dir, file_path } => ServeEvent::Requested {
                static_dir: text_of(*static_dir),
                file_path: file_path@,
            },
            ServeEvent::Located { root, full } => ServeEvent::Located {
                root: opt_parts_of(*root),
                full: opt_parts_of(*full),
            },
            ServeEvent::PageRead(content) => ServeEvent::PageRead(text_of(*content)),
            ServeEvent::Rendered(page) => ServeEvent::Rendered(text_of(*page)),
            ServeEvent::Streamed(opened) => ServeEvent::Streamed(*opened),
        }
    }
}

impl View for Reply<String> {
    type V = Reply<Seq<char>>;

    open spec fn view(&self) -> Reply<Seq<char>> {
        match self {
            Reply::NotFound => Reply::NotFound,
            Reply::Forbidden => Reply::Forbidden,
            Reply::Html(page) => Reply::Html(page@),
            Reply::ScriptFailure => Reply::ScriptFailure,
            Reply::File => Reply::File,
            Reply::FileFailure => Reply::FileFailure,
        }
    }
}

impl View for ServeAction<String> {
    type V = ServeAction<Seq<char>>;

    open spec fn view(&self) -> ServeAction<Seq<char>> {
        match self {
            ServeAction::Locate { static_dir, path } => ServeAction::Locate {
                static_dir: static_dir@,
                path: path@,
            },
            ServeAction::ReadPage { path } => ServeAction::ReadPage { path: path@ },
            ServeAction::Render { content, url } => ServeAction::Render {
                content: content@,
                url: url@,
            },
            ServeAction::Stream { path } => ServeAction::Stream { path: path@ },
            ServeAction::Respond(reply) => ServeAction::Respond(reply@),
        }
    }
}

/// The action of an optional action.
pub open spec fn action_of(a: Option<ServeAction<String>>) -> Option<ServeAction<Seq<char>>> {
    match a {
        Some(action) => Some(action@),
        None => None,
    }
}

/// The directory of files that a request is answered from.
pub open spec fn directory_of(static_dir: Option<Seq<char>>) -> Seq<char> {
    match static_dir {
        Some(dir) => dir,
        None => DEFAULT_STATIC_DIR@,
    }
}

/// The components of the directory of files: where it really is, or as it is written where it does
/// not exist.
pub open spec fn base_of(root: Option<Seq<Seq<u8>>>, dir: Seq<char>) -> Seq<Seq<u8>> {
    match root {
        Some(parts) => parts,
        None => components_of(dir),
    }
}

/// A request for this path is a request for a directory.
pub open spec fn names_directory(file_path: Seq<char>) -> bool {
    file_path.len() == 0 || file_path.last() == '/'
}

/// The file that a request asks for.
pub open spec fn requested_file(static_dir: Seq<char>, file_path: Seq<char>) -> Seq<char> {
    if names_directory(file_path) {
        joined_path(joined_path(static_dir, file_path), INDEX_FILE@)
    } else {
        joined_path(static_dir, file_path)
    }
}

/// An extension that marks a page.
pub open spec fn is_page_extension(extension: Seq<char>) -> bool {
    extension == "html"@ || extension == "htm"@
}

/// A page in lower case, whose beginning says that it has server scripts.
pub open spec fn has_server_doctype(lowered: Seq<char>) -> bool {
    SERVER_DOCTYPE@.is_prefix_of(trimmed_front(lowered))
}

/// A page that has server scripts.
pub open spec fn is_server_page_text(content: Seq<char>) -> bool {
    has_server_doctype(lowercased(content))
}

/// One step of answering a request: the next state, and what is to be done next.  An event that
/// has no place in a state changes nothing.
pub open spec fn serve_step(
    state: ServeState<Seq<char>>,
    event: ServeEvent<Seq<char>, Seq<Seq<u8>>>,
) -> (ServeState<Seq<char>>, Option<ServeAction<Seq<char>>>) {
    match (state, event) {
        (ServeState::Start, ServeEvent::Requested { static_dir, file_path }) => {
            let dir = directory_of(static_dir);
            let path = requested_file(dir, file_path);
            (
                ServeState::Locating { static_dir: dir, path, url: "/"@ + file_path },
                Some(ServeAction::Locate { static_dir: dir, path }),
            )
        },
        (ServeState::Locating { static_dir, path, url }, ServeEvent::Located { root, full }) => {
            let base = base_of(root, static_dir);
            match full {
                None => (ServeState::Done, Some(ServeAction::Respond(Reply::NotFound))),
                Some(parts) => if !base.is_prefix_of(parts) {
                    (ServeState::Done, Some(ServeAction::Respond(Reply::Forbidden)))
                } else if is_page_extension(or_empty(extension_of(path))) {
                    (ServeState::Reading { url }, Some(ServeAction::ReadPage { path }))
                } else {
                    (ServeState::Streaming, Some(ServeAction::Stream { path }))
                },
            }
        },
        (ServeState::Reading { url }, ServeEvent::PageRead(content)) => match content {
            None => (ServeState::Done, Some(ServeAction::Respond(Reply::NotFound))),
            Some(content) => if is_server_page_text(content) {
                (ServeState::Rendering, Some(ServeAction::Render { content, url }))
            } else {
                (ServeState::Done, Some(ServeAction::Respond(Reply::Html(content))))
            },
        },
        (ServeState::Rendering, ServeEvent::Rendered(page)) => match page {
            Some(page) => (ServeState::Done, Some(ServeAction::Respond(Reply::Html(page)))),
            None => (ServeState::Done, Some(ServeAction::Respond(Reply::ScriptFailure))),
        },
        (ServeState::Streaming, ServeEvent::Streamed(opened)) => if opened {
            (ServeState::Done, Some(ServeAction::Respond(Reply::File)))
        } else {
            (ServeState::Done, Some(ServeAction::Respond(Reply::FileFailure)))
        },
        (state, _) => (state, None),
    }
}

proof fn lemma_trimmed_front_concat(a: Seq<char>, b: Seq<char>)
    requires
        trimmed_front(a).len() > 0,
    ensures
        trimmed_front(a + b) == trimmed_front(a) + b,
    decreases a.len(),
{
    if a.len() > 0 && is_white_space(a[0]) {
        assert((a + b).drop_first() == a.drop_first() + b);
        lemma_trimmed_front_concat(a.drop_first(), b);
    }
}

/// Whether a page in lower case begins as one with server scripts does.
pub fn begins_with_doctype(lowered: &str) -> (r: bool)
    ensures
        r == has_server_doctype(lowered@),
{
    starts_with(trim_start(lowered), SERVER_DOCTYPE)
}

/// Whether a page has server scripts: whether it begins with the server doctype, after white
/// space and in whatever case.  Where the beginning of the page is ASCII, that is whether the
/// doctype stands there when the letters `A` to `Z` are taken for `a` to `z`.
pub fn is_server_page(content: &str) -> (r: bool)
    ensures
        r == is_server_page_text(content@),
        forall|n: int|
            0 <= n <= content@.len() && is_ascii_chars(#[trigger] content@.take(n))
                && trimmed_front(ascii_lowered(content@.take(n))).len() >= 17 ==> r
                == has_server_doctype(ascii_lowered(content@.take(n))),
{
    let lowered = to_lowercase(content);
    let r = begins_with_doctype(lowered.as_str());
    proof {
        reveal_strlit("<!doctype server>");
        assert forall|n: int|
            0 <= n <= content@.len() && is_ascii_chars(#[trigger] content@.take(n))
                && trimmed_front(ascii_lowered(content@.take(n))).len() >= 17 implies r
            == has_server_doctype(ascii_lowered(content@.take(n))) by {
            let front = ascii_lowered(content@.take(n));
            let rest = lowered@.skip(front.len() as int);
            assert(lowered@ =~= front + rest);
            lemma_trimmed_front_concat(front, rest);
            assert((trimmed_front(front) + rest).subrange(0, 17) =~= trimmed_front(front).subrange(
                0,
                17,
            ));
        }
    }
    r
}

/// Whether a request for this path is a request for a directory.
pub fn asks_for_directory(file_path: &str) -> (r: bool)
    ensures
        r == names_directory(file_path@),
{
    ends_with_char(file_path, '/') || file_path.is_empty()
}

/// The file that a request asks for.
pub fn requested_path(static_dir: &str, file_path: &str) -> (r: String)
    ensures
        r@ == requested_file(static_dir@, file_path@),
{
    let path = path_join(static_dir, file_path);
    if asks_for_directory(file_path) {
        path_join(path.as_str(), INDEX_FILE)
    } else {
        path
    }
}

/// Whether an extension marks a page.
pub fn marks_page(extension: &str) -> (r: bool)
    ensures
        r == is_page_extension(extension@),
{
    same_text(extension, "html") || same_text(extension, "htm")
}

/// One step of answering a request for a file.
pub fn serve_file(state: ServeState<String>, event: ServeEvent<String, Vec<Vec<u8>>>) -> (r: (
    ServeState<String>,
    Option<ServeAction<String>>,
))
    ensures
        (r.0@, action_of(r.1)) == serve_step(state@, event@),
{
    match (state, event) {
        (ServeState::Start, ServeEvent::Requested { static_dir, file_path }) => {
            let dir = match static_dir {
                Some(dir) => dir,
                None => DEFAULT_STATIC_DIR.to_owned(),
            };
            let path = requested_path(dir.as_str(), file_path.as_str());
            let mut url = "/".to_owned();
            url.append(file_path.as_str());
            let action = ServeAction::Locate { static_dir: dir.clone(), path: path.clone() };
            (ServeState::Locating { static_dir: dir, path, url }, Some(action))
        },
        (ServeState::Locating { static_dir, path, url }, ServeEvent::Located { root, full }) => {
            let base = match root {
                Some(parts) => parts,
                None => components(static_dir.as_str()),
            };
            match full {
                None => (ServeState::Done, Some(ServeAction::Respond(Reply::NotFound))),
                Some(parts) => if !is_within(&parts, &base) {
                    (ServeState::Done, Some(ServeAction::Respond(Reply::Forbidden)))
                } else if marks_page(path_extname(path.as_str()).as_str()) {
                    (ServeState::Reading { url }, Some(ServeAction::ReadPage { path }))
                } else {
                    (ServeState::Streaming, Some(ServeAction::Stream { path }))
                },
            }
        },
        (ServeState::Reading { url }, ServeEvent::PageRead(content)) => match content {
            None => (ServeState::Done, Some(ServeAction::Respond(Reply::NotFound))),
            Some(content) => if is_server_page(content.as_str()) {
                (ServeState::Rendering, Some(ServeAction::Render { content, url }))
            } else {
                (ServeState::Done, Some(ServeAction::Respond(Reply::Html(content))))
            },
        },
        (ServeState::Rendering, ServeEvent::Rendered(page)) => match page {
            Some(page) => (ServeState::Done, Some(ServeAction::Respond(Reply::Html(page)))),
            None => (ServeState::Done, Some(ServeAction::Respond(Reply::ScriptFailure))),
        },
        (ServeState::Streaming, ServeEvent::Streamed(opened)) => if opened {
            (ServeState::Done, Some(ServeAction::Respond(Reply::File)))
        } else {
            (ServeState::Done, Some(ServeAction::Respond(Reply::FileFailure)))
        },
        (state, _) => (state, None),
    }
}

/// The status code of an answer; a file is sent with the status that it was opened with.
pub open spec fn status_of(reply: Reply<Seq<char>>) -> Option<u16> {
    match reply {
        Reply::NotFound => Some(404u16),
        Reply::Forbidden => Some(403u16),
        Reply::Html(_) => Some(200u16),
        Reply::ScriptFailure => Some(500u16),
        Reply::File => None,
        Reply::FileFailure => Some(500u16),
    }
}

/// The text of an answer; a file is sent as it is.
pub open spec fn message_of(reply: Reply<Seq<char>>) -> Option<Seq<char>> {
    match reply {
        Reply::NotFound => Some(seq![]),
        Reply::Forbidden => Some("Forbidden"@),
        Reply::Html(page) => Some(page),
        Reply::ScriptFailure => Some("Server Js Error"@),
        Reply::File => None,
        Reply::FileFailure => Some(seq![]),
    }
}

/// The status code of an answer.
pub fn reply_status(reply: &Reply<String>) -> (r: Option<u16>)
    ensures
        r == status_of(reply@),
{
    match reply {
        Reply::NotFound => Some(404),
        Reply::Forbidden => Some(403),
        Reply::Html(_) => Some(200),
        Reply::ScriptFailure => Some(500),
        Reply::File => None,
        Reply::FileFailure => Some(500),
    }
}

/// The text of an answer.
pub fn reply_message(reply: Reply<String>) -> (r: Option<String>)
    ensures
        text_of(r) == message_of(reply@),
{
    match reply {
        Reply::NotFound => Some(String::new()),
        Reply::Forbidden => Some("Forbidden".to_owned()),
        Reply::Html(page) => Some(page),
        Reply::ScriptFailure => Some("Server Js Error".to_owned()),
        Reply::File => None,
        Reply::FileFailure => Some(String::new()),
    }
}

/// The port to listen on: the one that is set, or 3000 where that is no port number.
pub open spec fn port_of(setting: Option<Seq<char>>) -> nat {
    match setting {
        Some(text) => match unsigned_value(text) {
            Some(v) => if v <= u16::MAX {
                v
            } else {
                3000
            },
            None => 3000,
        },
        None => 3000,
    }
}

/// The port to listen on.
pub fn listen_port(setting: Option<String>) -> (r: u16)
    ensures
        r == port_of(text_of(setting)),
{
    match setting {
        Some(text) => match parse_u16(text.as_str()) {
            Some(v) => v,
            None => 3000,
        },
        None => 3000,
    }
}

/// Where the answering of a request stands after some events, and what was done on the way.
pub open spec fn serve_run(events: Seq<ServeEvent<Seq<char>, Seq<Seq<u8>>>>) -> (
    ServeState<Seq<char>>,
    Seq<ServeAction<Seq<char>>>,
)
    decreases events.len(),
{
    if events.len() == 0 {
        (ServeState::Start, seq![])
    } else {
        let (state, actions) = serve_run(events.drop_last());
        let (next, action) = serve_step(state, events.last());
        match action {
            Some(a) => (next, actions.push(a)),
            None => (next, actions),
        }
    }
}

/// The action opens a file, or hands it on to be opened.
pub open spec fn opens(action: ServeAction<Seq<char>>, path: Seq<char>) -> bool {
    ||| action == ServeAction::ReadPage { path }
    ||| action == ServeAction::Stream { path }
}

/// The event asks for the file `path` in the directory `dir`.
pub open spec fn asks_for(
    event: ServeEvent<Seq<char>, Seq<Seq<u8>>>,
    dir: Seq<char>,
    path: Seq<char>,
) -> bool {
    event matches ServeEvent::Requested { static_dir, file_path } && dir == directory_of(static_dir)
        && path == requested_file(dir, file_path)
}

/// The event says that what was looked up is below the directory of files, wherever that really
/// is, or below `dir` as it is written where it does not exist.
pub open spec fn finds_below(
    event: ServeEvent<Seq<char>, Seq<Seq<u8>>>,
    dir: Seq<char>,
) -> bool {
    event matches ServeEvent::Located { root, full } && full is Some && base_of(
        root,
        dir,
    ).is_prefix_of(full->0)
}

proof fn lemma_located_was_requested(events: Seq<ServeEvent<Seq<char>, Seq<Seq<u8>>>>)
    ensures
        serve_run(events).0 matches ServeState::Locating { static_dir, path, url } ==> exists|
            k: int,
        |
            0 <= k < events.len() && #[trigger] asks_for(events[k], static_dir, path),
    decreases events.len(),
{
    if events.len() > 0 {
        let front = events.drop_last();
        lemma_located_was_requested(front);
        let state = serve_run(front).0;
        if let ServeState::Locating { static_dir, path, url } = serve_run(events).0 {
            if state is Start {
                assert(asks_for(events[events.len() - 1], static_dir, path));
            } else {
                let k = choose|k: int|
                    0 <= k < front.len() && #[trigger] asks_for(front[k], static_dir, path);
                assert(asks_for(events[k], static_dir, path));
            }
        }
    }
}

/// Whatever happens, a file is opened only if it was asked for and was found to be below the
/// directory of files.
pub proof fn law_only_files_below_the_directory_are_opened(
    events: Seq<ServeEvent<Seq<char>, Seq<Seq<u8>>>>,
    i: int,
    path: Seq<char>,
)
    requires
        0 <= i < serve_run(events).1.len(),
        opens(serve_run(events).1[i], path),
    ensures
        exists|j: int, k: int, dir: Seq<char>|
            0 <= j < events.len() && 0 <= k < events.len() && #[trigger] asks_for(
                events[k],
                dir,
                path,
            ) && #[trigger] finds_below(events[j], dir),
    decreases events.len(),
{
    let front = events.drop_last();
    let (state, actions) = serve_run(front);
    if i < actions.len() {
        law_only_files_below_the_directory_are_opened(front, i, path);
        let (j, k, dir) = choose|j: int, k: int, dir: Seq<char>|
            0 <= j < front.len() && 0 <= k < front.len() && #[trigger] asks_for(
                front[k],
                dir,
                path,
            ) && #[trigger] finds_below(front[j], dir);
        assert(asks_for(events[k], dir, path));
        assert(finds_below(events[j], dir));
    } else {
        lemma_located_was_requested(front);
        let last = events.len() - 1;
        if let ServeState::Locating { static_dir, path: p, url } = state {
            assert(finds_below(events[last], static_dir));
            let k = choose|k: int|
                0 <= k < front.len() && #[trigger] asks_for(front[k], static_dir, p);
            assert(asks_for(events[k], static_dir, p));
        }
    }
}

/// Once a request is answered, nothing more is done for it.
pub proof fn law_an_answer_is_final(event: ServeEvent<Seq<char>, Seq<Seq<u8>>>)
    ensures
        serve_step(ServeState::Done, event) == (
            ServeState::<Seq<char>>::Done,
            None::<ServeAction<Seq<char>>>,
        ),
{
}

/// Whatever happens, a request is answered at most once: of all that is done only the last can be
/// an answer, and it is one exactly when the answer is settled.
pub proof fn law_a_request_is_answered_once(events: Seq<ServeEvent<Seq<char>, Seq<Seq<u8>>>>)
    ensures
        forall|i: int|
            0 <= i < serve_run(events).1.len() - 1 ==> !(
            #[trigger] serve_run(events).1[i] is Respond),
        serve_run(events).0 is Done <==> (serve_run(events).1.len() > 0 && serve_run(
            events,
        ).1.last() is Respond),
    decreases events.len(),
{
    if events.len() > 0 {
        law_a_request_is_answered_once(events.drop_last());
    }
}

/// The event is the one that is awaited in the state.
pub open spec fn awaits(
    state: ServeState<Seq<char>>,
    event: ServeEvent<Seq<char>, Seq<Seq<u8>>>,
) -> bool {
    match state {
        ServeState::Start => event is Requested,
        ServeState::Locating { .. } => event is Located,
        ServeState::Reading { .. } => event is PageRead,
        ServeState::Rendering => event is Rendered,
        ServeState::Streaming => event is Streamed,
        ServeState::Done => false,
    }
}

/// How many events at most are still to come.
pub open spec fn events_left(state: ServeState<Seq<char>>) -> nat {
    match state {
        ServeState::Start => 4,
        ServeState::Locating { .. } => 3,
        ServeState::Reading { .. } => 2,
        ServeState::Rendering => 1,
        ServeState::Streaming => 1,
        ServeState::Done => 0,
    }
}

/// An awaited event leads to something being done and brings the answer nearer; so a request is
/// answered after four events at most.  Any other event changes nothing.
pub proof fn law_awaited_events_lead_to_an_answer(
    state: ServeState<Seq<char>>,
    event: ServeEvent<Seq<char>, Seq<Seq<u8>>>,
)
    ensures
        awaits(state, event) ==> serve_step(state, event).1 is Some && events_left(
            serve_step(state, event).0,
        ) < events_left(state),
        !awaits(state, event) ==> serve_step(state, event) == (
            state,
            None::<ServeAction<Seq<char>>>,
        ),
        events_left(state) == 0 <==> state is Done,
{
}

proof fn lemma_run_longer(
    events: Seq<ServeEvent<Seq<char>, Seq<Seq<u8>>>>,
    event: ServeEvent<Seq<char>, Seq<Seq<u8>>>,
)
    ensures
        serve_run(events.push(event)) == ({
            let (state, actions) = serve_run(events);
            let (next, action) = serve_step(state, event);
            match action {
                Some(a) => (next, actions.push(a)),
                None => (next, actions),
            }
        }),
{
    assert(events.push(event).drop_last() =~= events);
}

proof fn lemma_run_of_request(static_dir: Option<Seq<char>>, file_path: Seq<char>)
    ensures
        ({
            let dir = directory_of(static_dir);
            let path = requested_file(dir, file_path);
            serve_run(seq![ServeEvent::Requested { static_dir, file_path }]) == (
                ServeState::Locating { static_dir: dir, path, url: "/"@ + file_path },
                seq![ServeAction::Locate { static_dir: dir, path }],
            )
        }),
{
    let none = Seq::<ServeEvent<Seq<char>, Seq<Seq<u8>>>>::empty();
    let first = ServeEvent::Requested { static_dir, file_path };
    lemma_run_longer(none, first);
    assert(none.push(first) =~= seq![first]);
    assert(serve_run(none).1 =~= seq![]);
    let dir = directory_of(static_dir);
    let path = requested_file(dir, file_path);
    let locate = ServeAction::Locate { static_dir: dir, path };
    assert(Seq::<ServeAction<Seq<char>>>::empty().push(locate) =~= seq![locate]);
}

/// A request for a file that does not exist is answered with 404, and nothing is opened.
pub proof fn law_missing_file_is_not_found(
    static_dir: Option<Seq<char>>,
    file_path: Seq<char>,
    root: Option<Seq<Seq<u8>>>,
)
    ensures
        ({
            let dir = directory_of(static_dir);
            let path = requested_file(dir, file_path);
            serve_run(
                seq![
                    ServeEvent::Requested { static_dir, file_path },
                    ServeEvent::Located { root, full: None },
                ],
            ) == (
                ServeState::<Seq<char>>::Done,
                seq![
                    ServeAction::Locate { static_dir: dir, path },
                    ServeAction::Respond(Reply::NotFound),
                ],
            )
        }),
        status_of(Reply::NotFound) == Some(404u16),
{
    let first = ServeEvent::Requested { static_dir, file_path };
    let second = ServeEvent::Located { root, full: None };
    lemma_run_of_request(static_dir, file_path);
    lemma_run_longer(seq![first], second);
    assert(seq![first].push(second) =~= seq![first, second]);
    let dir = directory_of(static_dir);
    let locate = ServeAction::Locate { static_dir: dir, path: requested_file(dir, file_path) };
    let respond = ServeAction::Respond(Reply::NotFound);
    assert(seq![locate].push(respond) =~= seq![locate, respond]);
}

/// A request for a file that is not below the directory of files is answered with 403, and nothing
/// is opened.
pub proof fn law_file_outside_is_refused(
    static_dir: Option<Seq<char>>,
    file_path: Seq<char>,
    root: Option<Seq<Seq<u8>>>,
    full: Seq<Seq<u8>>,
)
    requires
        !base_of(root, directory_of(static_dir)).is_prefix_of(full),
    ensures
        ({
            let dir = directory_of(static_dir);
            let path = requested_file(dir, file_path);
            serve_run(
                seq![
                    ServeEvent::Requested { static_dir, file_path },
                    ServeEvent::Located { root, full: Some(full) },
                ],
            ) == (
                ServeState::<Seq<char>>::Done,
                seq![
                    ServeAction::Locate { static_dir: dir, path },
                    ServeAction::Respond(Reply::Forbidden),
                ],
            )
        }),
        status_of(Reply::Forbidden) == Some(403u16),
        message_of(Reply::Forbidden) == Some("Forbidden"@),
{
    let first = ServeEvent::Requested { static_dir, file_path };
    let second = ServeEvent::Located { root, full: Some(full) };
    lemma_run_of_request(static_dir, file_path);
    lemma_run_longer(seq![first], second);
    assert(seq![first].push(second) =~= seq![first, second]);
    let dir = directory_of(static_dir);
    let locate = ServeAction::Locate { static_dir: dir, path: requested_file(dir, file_path) };
    let respond = ServeAction::Respond(Reply::Forbidden);
    assert(seq![locate].push(respond) =~= seq![locate, respond]);
}

/// A page with the server doctype, below the directory of files, is rendered for the path that was
/// asked for, and the rendered page is sent; where rendering fails, the answer is 500.
pub proof fn law_server_page_is_rendered(
    static_dir: Option<Seq<char>>,
    file_path: Seq<char>,
    root: Option<Seq<Seq<u8>>>,
    full: Seq<Seq<u8>>,
    content: Seq<char>,
    page: Option<Seq<char>>,
)
    requires
        base_of(root, directory_of(static_dir)).is_prefix_of(full),
        is_page_extension(
            or_empty(extension_of(requested_file(directory_of(static_dir), file_path))),
        ),
        is_server_page_text(content),
    ensures
        ({
            let dir = directory_of(static_dir);
            let path = requested_file(dir, file_path);
            serve_run(
                seq![
                    ServeEvent::Requested { static_dir, file_path },
                    ServeEvent::Located { root, full: Some(full) },
                    ServeEvent::PageRead(Some(content)),
                    ServeEvent::Rendered(page),
                ],
            ) == (
                ServeState::<Seq<char>>::Done,
                seq![
                    ServeAction::Locate { static_dir: dir, path },
                    ServeAction::ReadPage { path },
                    ServeAction::Render { content, url: "/"@ + file_path },
                    ServeAction::Respond(
                        match page {
                            Some(page) => Reply::Html(page),
                            None => Reply::ScriptFailure,
                        },
                    ),
                ],
            )
        }),
        status_of(Reply::ScriptFailure) == Some(500u16),
{
    let first = ServeEvent::Requested { static_dir, file_path };
    let second = ServeEvent::Located { root, full: Some(full) };
    let third = ServeEvent::PageRead(Some(content));
    let fourth = ServeEvent::Rendered(page);
    lemma_run_of_request(static_dir, file_path);
    lemma_run_longer(seq![first], second);
    assert(seq![first].push(second) =~= seq![first, second]);
    lemma_run_longer(seq![first, second], third);
    assert(seq![first, second].push(third) =~= seq![first, second, third]);
    lemma_run_longer(seq![first, second, third], fourth);
    assert(seq![first, second, third].push(fourth) =~= seq![first, second, third, fourth]);
    let dir = directory_of(static_dir);
    let path = requested_file(dir, file_path);
    let locate = ServeAction::Locate { static_dir: dir, path };
    let read = ServeAction::ReadPage { path };
    let render = ServeAction::Render { content, url: "/"@ + file_path };
    let respond = ServeAction::Respond(
        match page {
            Some(page) => Reply::Html(page),
            None => Reply::ScriptFailure,
        },
    );
    assert(seq![locate].push(read).push(render).push(respond) =~= seq![
        locate,
        read,
        render,
        respond,
    ]);
}

proof fn lemma_answer_of_a_page(
    static_dir: Option<Seq<char>>,
    file_path: Seq<char>,
    root: Option<Seq<Seq<u8>>>,
    full: Option<Seq<Seq<u8>>>,
    content: Option<Seq<char>>,
)
    requires
        is_page_extension(
            or_empty(extension_of(requested_file(directory_of(static_dir), file_path))),
        ),
        content matches Some(text) ==> !is_server_page_text(text),
    ensures
        serve_run(
            seq![
                ServeEvent::Requested { static_dir, file_path },
                ServeEvent::Located { root, full },
                ServeEvent::PageRead(content),
            ],
        ).1.last() == ServeAction::Respond(
            match full {
                None => Reply::NotFound,
                Some(parts) => if !base_of(root, directory_of(static_dir)).is_prefix_of(parts) {
                    Reply::Forbidden
                } else {
                    match content {
                        None => Reply::NotFound,
                        Some(text) => Reply::Html(text),
                    }
                },
            },
        ),
{
    let first = ServeEvent::Requested { static_dir, file_path };
    let second = ServeEvent::Located { root, full };
    let third = ServeEvent::PageRead(content);
    lemma_run_of_request(static_dir, file_path);
    lemma_run_longer(seq![first], second);
    assert(seq![first].push(second) =~= seq![first, second]);
    lemma_run_longer(seq![first, second], third);
    assert(seq![first, second].push(third) =~= seq![first, second, third]);
}

/// A request for a directory and a request for its index file are answered alike, where both lead
/// to the same file, both names have the extension of a page, and the page has no server scripts.
pub proof fn law_index_page_stands_for_its_directory(
    static_dir: Option<Seq<char>>,
    directory: Seq<char>,
    root: Option<Seq<Seq<u8>>>,
    full: Option<Seq<Seq<u8>>>,
    content: Option<Seq<char>>,
)
    requires
        names_directory(directory),
        is_page_extension(
            or_empty(extension_of(requested_file(directory_of(static_dir), directory))),
        ),
        is_page_extension(
            or_empty(
                extension_of(requested_file(directory_of(static_dir), directory + INDEX_FILE@)),
            ),
        ),
        content matches Some(text) ==> !is_server_page_text(text),
    ensures
        serve_run(
            seq![
                ServeEvent::Requested { static_dir, file_path: directory },
                ServeEvent::Located { root, full },
                ServeEvent::PageRead(content),
            ],
        ).1.last() == serve_run(
            seq![
                ServeEvent::Requested { static_dir, file_path: directory + INDEX_FILE@ },
                ServeEvent::Located { root, full },
                ServeEvent::PageRead(content),
            ],
        ).1.last(),
{
    lemma_answer_of_a_page(static_dir, directory, root, full, content);
    lemma_answer_of_a_page(static_dir, directory + INDEX_FILE@, root, full, content);
}

/// A page without the server doctype is sent as it was read.
pub proof fn law_plain_page_is_sent_as_it_is(url: Seq<char>, content: Seq<char>)
    requires
        !is_server_page_text(content),
    ensures
        serve_step(ServeState::Reading { url }, ServeEvent::PageRead(Some(content))) == (
            ServeState::<Seq<char>>::Done,
            Some(ServeAction::Respond(Reply::Html(content))),
        ),
{
}

/// Scripts are run only of a page that was read and has the server doctype.
pub proof fn law_only_server_pages_run_scripts(
    state: ServeState<Seq<char>>,
    event: ServeEvent<Seq<char>, Seq<Seq<u8>>>,
)
    requires
        serve_step(state, event).1 matches Some(ServeAction::Render { content, url }),
    ensures
        event matches ServeEvent::PageRead(Some(content)) && is_server_page_text(content),
{
}

/// A file that is no page is sent, however deep below the directory of files it lies: exactly these
/// things are done, and nothing is read or rendered.  Where it cannot be sent, the answer is 500.
pub proof fn law_other_file_is_sent(
    static_dir: Option<Seq<char>>,
    file_path: Seq<char>,
    root: Option<Seq<Seq<u8>>>,
    full: Seq<Seq<u8>>,
    opened: bool,
)
    requires
        base_of(root, directory_of(static_dir)).is_prefix_of(full),
        extension_of(requested_file(directory_of(static_dir), file_path)) != Some("html"@),
        extension_of(requested_file(directory_of(static_dir), file_path)) != Some("htm"@),
    ensures
        ({
            let dir = directory_of(static_dir);
            let path = requested_file(dir, file_path);
            serve_run(
                seq![
                    ServeEvent::Requested { static_dir, file_path },
                    ServeEvent::Located { root, full: Some(full) },
                    ServeEvent::Streamed(opened),
                ],
            ) == (
                ServeState::<Seq<char>>::Done,
                seq![
                    ServeAction::Locate { static_dir: dir, path },
                    ServeAction::Stream { path },
                    ServeAction::Respond(
                        if opened {
                            Reply::File
                        } else {
                            Reply::FileFailure
                        },
                    ),
                ],
            )
        }),
{
    let first = ServeEvent::Requested { static_dir, file_path };
    let second = ServeEvent::Located { root, full: Some(full) };
    let third = ServeEvent::Streamed(opened);
    let dir = directory_of(static_dir);
    let path = requested_file(dir, file_path);
    reveal_strlit("html");
    reveal_strlit("htm");
    assert(!is_page_extension(or_empty(extension_of(path)))) by {
        assert(or_empty(None).len() == 0);
    }
    lemma_run_of_request(static_dir, file_path);
    lemma_run_longer(seq![first], second);
    assert(seq![first].push(second) =~= seq![first, second]);
    lemma_run_longer(seq![first, second], third);
    assert(seq![first, second].push(third) =~= seq![first, second, third]);
    let locate = ServeAction::Locate { static_dir: dir, path };
    let stream = ServeAction::Stream { path };
    let respond = ServeAction::Respond(
        if opened {
            Reply::File
        } else {
            Reply::FileFailure
        },
    );
    assert(seq![locate].push(stream).push(respond) =~= seq![locate, stream, respond]);
}

/// A page without the server doctype, however deep below the directory of files it lies, is sent as
/// it was read, and one that cannot be read is not found.
pub proof fn law_plain_page_is_sent(
    static_dir: Option<Seq<char>>,
    file_path: Seq<char>,
    root: Option<Seq<Seq<u8>>>,
    full: Seq<Seq<u8>>,
    content: Option<Seq<char>>,
)
    requires
        base_of(root, directory_of(static_dir)).is_prefix_of(full),
        ({
            let extension = extension_of(requested_file(directory_of(static_dir), file_path));
            extension == Some("html"@) || extension == Some("htm"@)
        }),
        content matches Some(text) ==> !is_server_page_text(text),
    ensures
        ({
            let dir = directory_of(static_dir);
            let path = requested_file(dir, file_path);
            serve_run(
                seq![
                    ServeEvent::Requested { static_dir, file_path },
                    ServeEvent::Located { root, full: Some(full) },
                    ServeEvent::PageRead(content),
                ],
            ) == (
                ServeState::<Seq<char>>::Done,
                seq![
                    ServeAction::Locate { static_dir: dir, path },
                    ServeAction::ReadPage { path },
                    ServeAction::Respond(
                        match content {
                            Some(text) => Reply::Html(text),
                            None => Reply::NotFound,
                        },
                    ),
                ],
            )
        }),
{
    let first = ServeEvent::Requested { static_dir, file_path };
    let second = ServeEvent::Located { root, full: Some(full) };
    let third = ServeEvent::PageRead(content);
    let dir = directory_of(static_dir);
    let path = requested_file(dir, file_path);
    lemma_run_of_request(static_dir, file_path);
    lemma_run_longer(seq![first], second);
    assert(seq![first].push(second) =~= seq![first, second]);
    lemma_run_longer(seq![first, second], third);
    assert(seq![first, second].push(third) =~= seq![first, second, third]);
    let locate = ServeAction::Locate { static_dir: dir, path };
    let read = ServeAction::ReadPage { path };
    let respond = ServeAction::Respond(
        match content {
            Some(text) => Reply::Html(text),
            None => Reply::NotFound,
        },
    );
    assert(seq![locate].push(read).push(respond) =~= seq![locate, read, respond]);
}

/// The extensions of pages are `html` and `htm`, and no others.
pub proof fn law_extensions_of_pages(extension: Seq<char>)
    ensures
        is_page_extension(extension) <==> extension == "html"@ || extension == "htm"@,
{
}

/// The file that a request asks for is the path below the directory of files; where the path is
/// empty or ends with `/`, it is the `index.html` in it.
pub proof fn law_file_that_is_asked_for(dir: Seq<char>, file_path: Seq<char>)
    ensures
        requested_file(dir, seq![]) == joined_path(joined_path(dir, seq![]), "index.html"@),
        requested_file(dir, file_path.push('/')) == joined_path(
            joined_path(dir, file_path.push('/')),
            "index.html"@,
        ),
        file_path.len() > 0 && file_path.last() != '/' ==> requested_file(dir, file_path)
            == joined_path(dir, file_path),
        names_directory(file_path) <==> file_path.len() == 0 || file_path.last() == '/',
{
}

/// The directory of files is the one that is set, or `./public`; it counts as where it really is, or
/// as it is written where it does not exist.
pub proof fn law_directory_of_files(dir: Seq<char>, parts: Seq<Seq<u8>>)
    ensures
        directory_of(Some(dir)) == dir,
        directory_of(None) == "./public"@,
        base_of(Some(parts), dir) == parts,
        base_of(None, dir) == components_of(dir),
{
}

proof fn lemma_trimmed_front_of(s: Seq<char>, n: int)
    requires
        0 <= n <= s.len(),
        is_blank(s.take(n)),
        n < s.len() ==> !is_white_space(s[n]),
    ensures
        trimmed_front(s) == s.skip(n),
    decreases n,
{
    if n > 0 {
        assert(is_white_space(s.take(n)[0]));
        let rest = s.drop_first();
        assert forall|i: int| 0 <= i < n - 1 implies is_white_space(#[trigger] rest.take(n - 1)[i]) by {
            assert(rest.take(n - 1)[i] == s.take(n)[i + 1]);
        }
        lemma_trimmed_front_of(rest, n - 1);
        assert(rest.skip(n - 1) =~= s.skip(n));
    } else {
        assert(s.skip(0) =~= s);
    }
}

proof fn lemma_white_space_in_front(s: Seq<char>) -> (n: int)
    ensures
        0 <= n <= s.len(),
        is_blank(s.take(n)),
        n < s.len() ==> !is_white_space(s[n]),
    decreases s.len(),
{
    if s.len() > 0 && is_white_space(s[0]) {
        let rest = s.drop_first();
        let n = lemma_white_space_in_front(rest);
        assert forall|i: int| 0 <= i < n + 1 implies is_white_space(#[trigger] s.take(n + 1)[i]) by {
            if i > 0 {
                assert(s.take(n + 1)[i] == rest.take(n)[i - 1]);
            }
        }
        n + 1
    } else {
        0
    }
}

/// A page in lower case has server scripts exactly when `<!doctype server>` stands in it with nothing
/// but white space before it.
pub proof fn law_server_doctype_stands_in_front(lowered: Seq<char>)
    ensures
        has_server_doctype(lowered) <==> exists|n: int|
            0 <= n <= lowered.len() && is_blank(#[trigger] lowered.take(n))
                && "<!doctype server>"@.is_prefix_of(lowered.skip(n)),
{
    reveal_strlit("<!doctype server>");
    let doctype = "<!doctype server>"@;
    let n = lemma_white_space_in_front(lowered);
    lemma_trimmed_front_of(lowered, n);
    if has_server_doctype(lowered) {
        assert(is_blank(lowered.take(n)) && doctype.is_prefix_of(lowered.skip(n)));
    }
    if exists|n: int|
        0 <= n <= lowered.len() && is_blank(#[trigger] lowered.take(n)) && doctype.is_prefix_of(
            lowered.skip(n),
        ) {
        let m = choose|n: int|
            0 <= n <= lowered.len() && is_blank(#[trigger] lowered.take(n)) && doctype.is_prefix_of(
                lowered.skip(n),
            );
        assert(lowered.skip(m).subrange(0, doctype.len() as int)[0] == '<');
        assert(lowered[m] == '<');
        lemma_trimmed_front_of(lowered, m);
    }
}

/// Whether a page has server scripts is decided by its lower case.
pub proof fn law_server_page_in_whatever_case(content: Seq<char>)
    ensures
        is_server_page_text(content) <==> has_server_doctype(lowercased(content)),
{
}

/// The status codes and the texts of the answers.
pub proof fn law_what_is_answered(page: Seq<char>)
    ensures
        status_of(Reply::Html(page)) == Some(200u16) && message_of(Reply::Html(page)) == Some(page),
        status_of(Reply::NotFound) == Some(404u16) && message_of(Reply::NotFound) == Some(
            Seq::<char>::empty(),
        ),
        status_of(Reply::Forbidden) == Some(403u16) && message_of(Reply::Forbidden) == Some(
            "Forbidden"@,
        ),
        status_of(Reply::ScriptFailure) == Some(500u16) && message_of(Reply::ScriptFailure) == Some(
            "Server Js Error"@,
        ),
        status_of(Reply::FileFailure) == Some(500u16) && message_of(Reply::FileFailure) == Some(
            Seq::<char>::empty(),
        ),
        status_of(Reply::File) is None && message_of(Reply::File) is None,
{
}

/// The port is the number that is set, if it is one that a port can have, and else 3000.
pub proof fn law_port_to_listen_on(n: nat, text: Seq<char>)
    ensures
        n <= 65535 ==> port_of(Some(numeral(n))) == n,
        n > 65535 ==> port_of(Some(numeral(n))) == 3000,
        unsigned_value(text) is None ==> port_of(Some(text)) == 3000,
        unsigned_value(text) matches Some(v) ==> port_of(Some(text)) == (if v <= 65535 {
            v
        } else {
            3000
        }),
        port_of(None) == 3000,
{
    law_reading_a_number_undoes_writing_it(n);
}

/// States, events, actions and answers are seen with the whole of their texts.
pub proof fn law_nothing_is_lost_on_the_way(a: String, b: String, c: String, parts: Vec<Vec<u8>>)
    ensures
        (ServeState::Locating { static_dir: a, path: b, url: c })@ == (ServeState::Locating {
            static_dir: a@,
            path: b@,
            url: c@,
        }),
        (ServeState::Reading { url: a })@ == (ServeState::Reading { url: a@ }),
        (ServeEvent::<String, Vec<Vec<u8>>>::Requested { static_dir: Some(a), file_path: b })@ == (
        ServeEvent::<Seq<char>, Seq<Seq<u8>>>::Requested {
            static_dir: Some(a@),
            file_path: b@,
        }),
        (ServeEvent::<String, Vec<Vec<u8>>>::Requested { static_dir: None, file_path: b })@ == (
        ServeEvent::<Seq<char>, Seq<Seq<u8>>>::Requested { static_dir: None, file_path: b@ }),
        opt_parts_of(Some(parts)) == Some(parts_of(parts@)),
        opt_parts_of(None) is None,
        (ServeEvent::<String, Vec<Vec<u8>>>::PageRead(Some(a)))@ == ServeEvent::<
            Seq<char>,
            Seq<Seq<u8>>,
        >::PageRead(Some(a@)),
        (ServeEvent::<String, Vec<Vec<u8>>>::Rendered(Some(a)))@ == ServeEvent::<
            Seq<char>,
            Seq<Seq<u8>>,
        >::Rendered(Some(a@)),
        (ServeAction::Locate { static_dir: a, path: b })@ == (ServeAction::Locate {
            static_dir: a@,
            path: b@,
        }),
        (ServeAction::ReadPage { path: a })@ == (ServeAction::ReadPage { path: a@ }),
        (ServeAction::Render { content: a, url: b })@ == (ServeAction::Render {
            content: a@,
            url: b@,
        }),
        (ServeAction::Stream { path: a })@ == (ServeAction::Stream { path: a@ }),
        ServeAction::Respond(Reply::Html(a))@ == ServeAction::Respond(Reply::Html(a@)),
        text_of(Some(a)) == Some(a@),
{
}

/// The variants of states, events, actions and answers are told apart.
pub proof fn law_variants_are_told_apart(
    state: ServeState<String>,
    event: ServeEvent<String, Vec<Vec<u8>>>,
    action: ServeAction<String>,
    reply: Reply<String>,
    root: Option<Vec<Vec<u8>>>,
    full: Option<Vec<Vec<u8>>>,
)
    ensures
        state@ is Start <==> state is Start,
        state@ is Locating <==> state is Locating,
        state@ is Reading <==> state is Reading,
        state@ is Rendering <==> state is Rendering,
        state@ is Streaming <==> state is Streaming,
        state@ is Done <==> state is Done,
        event@ is Requested <==> event is Requested,
        event@ is Located <==> event is Located,
        event@ is PageRead <==> event is PageRead,
        event@ is Rendered <==> event is Rendered,
        event@ is Streamed <==> event is Streamed,
        (ServeEvent::<String, Vec<Vec<u8>>>::Located { root, full })@ == (ServeEvent::<
            Seq<char>,
            Seq<Seq<u8>>,
        >::Located { root: opt_parts_of(root), full: opt_parts_of(full) }),
        event matches ServeEvent::Streamed(opened) ==> event@ == ServeEvent::<
            Seq<char>,
            Seq<Seq<u8>>,
        >::Streamed(opened),
        event matches ServeEvent::PageRead(None) ==> event@ == ServeEvent::<
            Seq<char>,
            Seq<Seq<u8>>,
        >::PageRead(None),
        event matches ServeEvent::Rendered(None) ==> event@ == ServeEvent::<
            Seq<char>,
            Seq<Seq<u8>>,
        >::Rendered(None),
        ServeAction::Respond(reply)@ == ServeAction::Respond(reply@),
        reply@ is NotFound <==> reply is NotFound,
        reply@ is Forbidden <==> reply is Forbidden,
        reply@ is Html <==> reply is Html,
        reply@ is ScriptFailure <==> reply is ScriptFailure,
        reply@ is File <==> reply is File,
        reply@ is FileFailure <==> reply is FileFailure,
        action_of(Some(action)) == Some(action@),
        action_of(None) is None,
{
}

/// What one event more comes to is the step that it makes from where the events before it led, and
/// without events nothing is done.
pub proof fn law_run_goes_step_by_step(
    events: Seq<ServeEvent<Seq<char>, Seq<Seq<u8>>>>,
    event: ServeEvent<Seq<char>, Seq<Seq<u8>>>,
)
    ensures
        serve_run(seq![]) == (ServeState::<Seq<char>>::Start, Seq::<ServeAction<Seq<char>>>::empty()),
        serve_run(events.push(event)).0 == serve_step(serve_run(events).0, event).0,
        serve_step(serve_run(events).0, event).1 matches Some(action) ==> serve_run(
            events.push(event),
        ).1 == serve_run(events).1.push(action),
        serve_step(serve_run(events).0, event).1 is None ==> serve_run(events.push(event)).1
            == serve_run(events).1,
{
    lemma_run_longer(events, event);
}

} // verus!
