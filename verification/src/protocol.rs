//! The wire protocol: request and response values, and the line framing
//! of messages (one JSON document per line).

use vstd::prelude::*;
use vstd::string::*;
use crate::store::strs_view;

verus! {

/// A request that a client sends to the server.
#[derive(Debug, Clone, PartialEq, Eq)]
pub enum Request {
    /// Set a key to a value (the `set` command), overwriting any earlier value.
    Put { key: String, value: String },
    /// Look a key up.
    Get { key: String },
    /// Remove a key.
    Del { key: String },
    /// List all keys.
    List,
    /// Ask for the state of the server.
    Status,
}

/// A request, each string taken as its characters.
pub enum RequestView {
    Put { key: Seq<char>, value: Seq<char> },
    Get { key: Seq<char> },
    Del { key: Seq<char> },
    List,
    Status,
}

impl View for Request {
    type V = RequestView;

    open spec fn view(&self) -> RequestView {
        match self {
            Request::Put { key, value } => RequestView::Put { key: key@, value: value@ },
            Request::Get { key } => RequestView::Get { key: key@ },
            Request::Del { key } => RequestView::Del { key: key@ },
            Request::List => RequestView::List,
            Request::Status => RequestView::Status,
        }
    }
}

/// The state of the server, as reported to a client.
#[derive(Debug, Clone, PartialEq, Eq)]
pub struct StatusInfo {
    pub key_count: usize,
    pub client_count: usize,
    pub listen_addr: String,
    pub data_file: String,
}

/// Server state, each string taken as its characters.
pub struct StatusView {
    pub key_count: usize,
    pub client_count: usize,
    pub listen_addr: Seq<char>,
    pub data_file: Seq<char>,
}

impl View for StatusInfo {
    type V = StatusView;

    open spec fn view(&self) -> StatusView {
        StatusView {
            key_count: self.key_count,
            client_count: self.client_count,
            listen_addr: self.listen_addr@,
            data_file: self.data_file@,
        }
    }
}

/// The server's reply to one request.
#[derive(Debug, Clone, PartialEq, Eq)]
pub struct Response {
    /// Whether the request succeeded.
    pub ok: bool,
    /// Why it failed.
    pub error: Option<String>,
    /// The value that was asked for.
    pub value: Option<String>,
    /// The list of keys.
    pub keys: Option<Vec<String>>,
    /// The state of the server.
    pub status: Option<StatusInfo>,
}

/// A reply, each string taken as its characters.
pub struct ResponseView {
    pub ok: bool,
    pub error: Option<Seq<char>>,
    pub value: Option<Seq<char>>,
    pub keys: Option<Seq<Seq<char>>>,
    pub status: Option<StatusView>,
}

/// An optional string, taken as its characters.
pub open spec fn opt_view(o: Option<String>) -> Option<Seq<char>> {
    match o {
        Some(s) => Some(s@),
        None => None,
    }
}

impl View for Response {
    type V = ResponseView;

    open spec fn view(&self) -> ResponseView {
        ResponseView {
            ok: self.ok,
            error: opt_view(self.error),
            value: opt_view(self.value),
            keys: match self.keys {
                Some(ks) => Some(strs_view(ks@)),
                None => None,
            },
            status: match self.status {
                Some(st) => Some(st@),
                None => None,
            },
        }
    }
}

/// A successful reply that carries nothing.
pub open spec fn ok_view() -> ResponseView {
    ResponseView { ok: true, error: None, value: None, keys: None, status: None }
}

/// A failed reply with the reason `msg`.
pub open spec fn err_view(msg: Seq<char>) -> ResponseView {
    ResponseView { ok: false, error: Some(msg), value: None, keys: None, status: None }
}

impl Response {
    /// A successful reply that carries nothing.
    pub fn ok() -> (r: Self)
        ensures
            r@ == ok_view(),
    {
        Response { ok: true, error: None, value: None, keys: None, status: None }
    }

    /// A failed reply with the reason `msg`.
    pub fn err(msg: String) -> (r: Self)
        ensures
            r@ == err_view(msg@),
    {
        Response { ok: false, error: Some(msg), value: None, keys: None, status: None }
    }

    /// This reply, carrying `value`.
    pub fn with_value(self, value: String) -> (r: Self)
        ensures
            r@ == (ResponseView { value: Some(value@), ..self@ }),
    {
        Response { value: Some(value), ..self }
    }

    /// This reply, carrying the list `keys`.
    pub fn with_keys(self, keys: Vec<String>) -> (r: Self)
        ensures
            r@ == (ResponseView { keys: Some(strs_view(keys@)), ..self@ }),
    {
        Response { keys: Some(keys), ..self }
    }

    /// This reply, carrying the server state `status`.
    pub fn with_status(self, status: StatusInfo) -> (r: Self)
        ensures
            r@ == (ResponseView { status: Some(status@), ..self@ }),
    {
        Response { status: Some(status), ..self }
    }
}

/// A line without its line ending: one final `"\n"`, and then one `"\r"`
/// before it, are dropped.
pub open spec fn strip_line_end(s: Seq<char>) -> Seq<char> {
    if s.len() > 0 && s.last() == '\n' {
        let t = s.drop_last();
        if t.len() > 0 && t.last() == '\r' {
            t.drop_last()
        } else {
            t
        }
    } else {
        s
    }
}

/// What one read of a line yields: nothing at the end of the stream (an
/// empty read), else the line without its line ending.
pub open spec fn raw_line(read: Seq<char>) -> Option<Seq<char>> {
    if read.len() == 0 {
        None
    } else {
        Some(strip_line_end(read))
    }
}

/// Turns what one `read_line` call appended to an empty buffer into a line:
/// `None` at the end of the stream, else the text without its trailing
/// `"\n"` or `"\r\n"`.
pub fn read_raw_line(raw: String) -> (r: Option<String>)
    ensures
        opt_view(r) == raw_line(raw@),
{
    let s = raw.as_str();
    let n = s.unicode_len();
    if n == 0 {
        return None;
    }
    let mut end = n;
    if s.get_char(n - 1) == '\n' {
        end = n - 1;
        if end > 0 && s.get_char(end - 1) == '\r' {
            end = end - 1;
        }
    }
    let line = s.substring_char(0, end);
    assert(line@ =~= strip_line_end(raw@));
    Some(line.to_owned())
}

} // verus!
