//! The server's decisions: what each request does to the state and what is
//! replied. Accepting connections, threads and writing files are done by
//! the caller, which hands the outcome of a write back to `after_persist`.

use vstd::prelude::*;
use vstd::string::*;
use crate::error::KvError;
use crate::persistence::{encode_snapshot, json_pretty_text, reads_back_as, Persistence};
use crate::protocol::{
    err_view, ok_view, Request, RequestView, Response, ResponseView, StatusInfo, StatusView,
};
use crate::store::{distinct_keys, keys_of, ordered_pairs, pairs_map, pairs_view, Store};
use crate::text::seq_trim;

verus! {

/// How the server is started.
pub struct Config {
    /// The address to listen on.
    pub addr: String,
    /// The path of the data file.
    pub data_file: String,
}

impl Config {
    /// A configuration listening on `addr` and keeping its data in `data_file`.
    pub fn new(addr: String, data_file: String) -> (c: Self)
        ensures
            c.addr == addr,
            c.data_file == data_file,
    {
        Config { addr, data_file }
    }
}

/// The state that every connection of the server shares.
#[derive(Debug)]
pub struct ServerState {
    /// The table.
    pub store: Store,
    /// Where the table is saved.
    pub persistence: Persistence,
    /// The address the server listens on.
    pub addr: String,
}

/// The state of the server, as the decisions see it.
pub struct ServerView {
    /// The table.
    pub store: Map<Seq<char>, Seq<char>>,
    /// The number of connected clients.
    pub clients: usize,
    /// The address the server listens on.
    pub addr: Seq<char>,
    /// The path of the data file.
    pub data_file: Seq<char>,
}

impl View for ServerState {
    type V = ServerView;

    open spec fn view(&self) -> ServerView {
        ServerView {
            store: self.store@,
            clients: self.store.clients(),
            addr: self.addr@,
            data_file: self.persistence.path_view(),
        }
    }
}

/// What the server does next for a request.
#[derive(Debug)]
pub enum Step {
    /// Send this reply.
    Reply(Response),
    /// Save the table first; then send `success`, or, if saving failed,
    /// a failure whose reason is `failure` followed by what went wrong.
    Persist { success: Response, failure: String },
}

/// A step, each string taken as its characters.
pub enum StepView {
    Reply(ResponseView),
    Persist { success: ResponseView, failure: Seq<char> },
}

impl View for Step {
    type V = StepView;

    open spec fn view(&self) -> StepView {
        match self {
            Step::Reply(r) => StepView::Reply(r@),
            Step::Persist { success, failure } => StepView::Persist {
                success: success@,
                failure: failure@,
            },
        }
    }
}

/// The reply for a key that the table does not hold.
pub open spec fn missing_key_view(key: Seq<char>) -> ResponseView {
    err_view("键 \""@ + key + "\" 不存在"@)
}

/// The state after a request, and what the server does next.
pub open spec fn request_outcome(s: ServerView, req: RequestView) -> (ServerView, StepView) {
    match req {
        RequestView::Put { key, value } => (
            ServerView { store: s.store.insert(key, value), ..s },
            StepView::Persist {
                success: ResponseView { value: Some(value), ..ok_view() },
                failure: "数据已写入内存，但持久化失败: "@,
            },
        ),
        RequestView::Get { key } => (
            s,
            if s.store.contains_key(key) {
                StepView::Reply(ResponseView { value: Some(s.store[key]), ..ok_view() })
            } else {
                StepView::Reply(missing_key_view(key))
            },
        ),
        RequestView::Del { key } => if s.store.contains_key(key) {
            (
                ServerView { store: s.store.remove(key), ..s },
                StepView::Persist { success: ok_view(), failure: "数据已删除，但持久化失败: "@ },
            )
        } else {
            (s, StepView::Reply(missing_key_view(key)))
        },
        RequestView::List => (
            s,
            StepView::Reply(
                ResponseView { keys: Some(keys_of(ordered_pairs(s.store))), ..ok_view() },
            ),
        ),
        RequestView::Status => (
            s,
            StepView::Reply(
                ResponseView {
                    status: Some(
                        StatusView {
                            key_count: s.store.len() as usize,
                            client_count: s.clients,
                            listen_addr: s.addr,
                            data_file: s.data_file,
                        },
                    ),
                    ..ok_view()
                },
            ),
        ),
    }
}

/// `a`, `b` and `c`, one after another.
fn concat3(a: &str, b: &str, c: &str) -> (r: String)
    ensures
        r@ == a@ + b@ + c@,
{
    let mut s = a.to_owned();
    s.append(b);
    s.append(c);
    s
}

impl ServerState {
    /// The state of a server started with `config`, whose table was
    /// restored to the pairs `initial`, with no client connected.
    pub fn start(config: Config, initial: Vec<(String, String)>) -> (s: Self)
        requires
            distinct_keys(pairs_view(initial@)),
        ensures
            s@.store == pairs_map(pairs_view(initial@)),
            s@.clients == 0,
            s@.addr == config.addr@,
            s@.data_file == config.data_file@,
    {
        let mut store = Store::new();
        store.load(initial);
        ServerState { store, persistence: Persistence::new(config.data_file), addr: config.addr }
    }
}

/// Carries out one request on the shared state and says what to do next.
pub fn handle_request(state: &mut ServerState, request: Request) -> (step: Step)
    ensures
        (final(state)@, step@) == request_outcome(old(state)@, request@),
{
    match request {
        Request::Put { key, value } => {
            state.store.set(key.as_str(), value.as_str());
            let success = Response::ok().with_value(value);
            Step::Persist { success, failure: "数据已写入内存，但持久化失败: ".to_owned() }
        },
        Request::Get { key } => match state.store.get(key.as_str()) {
            Some(value) => Step::Reply(Response::ok().with_value(value)),
            None => Step::Reply(Response::err(concat3("键 \"", key.as_str(), "\" 不存在"))),
        },
        Request::Del { key } => match state.store.del(key.as_str()) {
            Some(_) => Step::Persist {
                success: Response::ok(),
                failure: "数据已删除，但持久化失败: ".to_owned(),
            },
            None => {
                assert(old(state)@.store.remove(key@) =~= old(state)@.store);
                Step::Reply(Response::err(concat3("键 \"", key.as_str(), "\" 不存在")))
            },
        },
        Request::List => Step::Reply(Response::ok().with_keys(state.store.keys())),
        Request::Status => {
            let status = StatusInfo {
                key_count: state.store.len(),
                client_count: state.store.client_count(),
                listen_addr: state.addr.clone(),
                data_file: state.persistence.path().to_owned(),
            };
            Step::Reply(Response::ok().with_status(status))
        },
    }
}

/// The text of the snapshot to save for the current table.
pub fn persist(state: &ServerState) -> (r: Result<String, KvError>)
    ensures
        r matches Ok(t) && {
            &&& t@ == json_pretty_text(ordered_pairs(state@.store))
            &&& reads_back_as(t@, state@.store)
            &&& seq_trim(t@).len() > 0
        },
{
    let snapshot = state.store.snapshot();
    encode_snapshot(&snapshot)
}

/// The reply once saving is over: `success` when it went well (`problem`
/// is `None`), else a failure whose reason is `failure` followed by the
/// description of the problem.
pub fn after_persist(success: Response, failure: String, problem: Option<String>) -> (r: Response)
    ensures
        match problem {
            None => r@ == success@,
            Some(p) => r@ == err_view(failure@ + p@),
        },
{
    match problem {
        None => success,
        Some(p) => {
            let mut msg = failure;
            msg.append(p.as_str());
            Response::err(msg)
        },
    }
}

/// The reply to a line that is not a valid request; `detail` says why.
pub fn unparsable_request(detail: String) -> (r: Response)
    ensures
        r@ == err_view("无法解析请求: "@ + detail@),
{
    let mut msg = "无法解析请求: ".to_owned();
    msg.append(detail.as_str());
    Response::err(msg)
}

} // verus!
