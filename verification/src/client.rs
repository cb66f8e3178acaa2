//! The command-line client's logic: parsing what the user types into a
//! command, and turning a server reply into the lines to show.

use vstd::prelude::*;
use vstd::string::*;
use crate::protocol::{Request, RequestView, Response, ResponseView};
use crate::store::strs_view;
use crate::text::{
    decimal, find_whitespace, is_ws, lemma_lead_run, lemma_tail_run, lemma_tail_run_bound, same_text,
    seq_find_ws, seq_trim, seq_trim_end, seq_trim_start, tail_run, to_decimal, trim, trim_start,
};

verus! {

/// A command typed at the client's prompt.
#[derive(Debug)]
pub enum Command {
    /// A request to send to the server.
    Request(Request),
    /// Leave the client.
    Quit,
    /// Show the list of commands.
    Help,
}

/// A command, each string taken as its characters.
pub enum CommandView {
    Request(RequestView),
    Quit,
    Help,
}

impl View for Command {
    type V = CommandView;

    open spec fn view(&self) -> CommandView {
        match self {
            Command::Request(r) => CommandView::Request(r@),
            Command::Quit => CommandView::Quit,
            Command::Help => CommandView::Help,
        }
    }
}

/// A parse result, each string taken as its characters.
pub open spec fn command_result_view(r: Result<Command, String>) -> Result<CommandView, Seq<char>> {
    match r {
        Ok(c) => Ok(c@),
        Err(e) => Err(e@),
    }
}

/// What `str::to_lowercase` makes of `s` (full Unicode lower-casing).
pub uninterp spec fn lowercase(s: Seq<char>) -> Seq<char>;

/// `c`, with an ASCII capital letter turned into its small letter.
pub open spec fn ascii_lower(c: char) -> char {
    if 65 <= (c as int) <= 90 {
        ((c as int) + 32) as char
    } else {
        c
    }
}

/// Every character of `s` is ASCII.
pub open spec fn is_ascii_text(s: Seq<char>) -> bool {
    forall|i: int| 0 <= i < s.len() ==> (#[trigger] s[i] as int) < 128
}

/// `s` with each ASCII capital letter turned into its small letter.
pub open spec fn ascii_lowercase(s: Seq<char>) -> Seq<char> {
    s.map_values(|c: char| ascii_lower(c))
}

/// The lower-cased form of a command word. It depends on the word only
/// through its ASCII lowering: for ASCII text it is that lowering, otherwise
/// the full Unicode lower-casing of it.
pub open spec fn command_word(w: Seq<char>) -> Seq<char> {
    let f = ascii_lowercase(w);
    if is_ascii_text(f) {
        f
    } else {
        lowercase(f)
    }
}

/// ASCII lowering keeps a text ASCII, and a text that is not ASCII stays so.
pub proof fn lemma_ascii_lowercase_ascii(w: Seq<char>)
    ensures
        is_ascii_text(ascii_lowercase(w)) == is_ascii_text(w),
{
    let f = ascii_lowercase(w);
    assert forall|i: int| 0 <= i < w.len() implies ((#[trigger] f[i] as int) < 128) == ((w[i] as int)
        < 128) by {
        assert(f[i] == ascii_lower(w[i]));
    }
    if is_ascii_text(w) {
        assert forall|i: int| 0 <= i < f.len() implies (#[trigger] f[i] as int) < 128 by {
            assert((w[i] as int) < 128);
        }
    }
    if is_ascii_text(f) {
        assert forall|i: int| 0 <= i < w.len() implies (#[trigger] w[i] as int) < 128 by {
            assert((f[i] as int) < 128);
        }
    }
}

/// Lower-cases `s` with `str::to_lowercase`. Claimed: the result is
/// `lowercase(s@)`, a function of the characters of `s` alone. As the
/// Unicode lower-case mapping of ASCII characters is the ASCII one: for
/// ASCII text it turns each capital letter into its small letter and keeps
/// every other character; and lowering the ASCII letters of `s` first gives
/// the same result (each character is mapped on its own, and the one rule
/// that looks at neighbours, the final sigma, asks only whether they are
/// cased letters, which ASCII letters of either case are).
#[verifier::external_body]
fn to_lowercase(s: &str) -> (r: String)
    ensures
        r@ == lowercase(s@),
        r@ == lowercase(ascii_lowercase(s@)),
        is_ascii_text(s@) ==> r@ == ascii_lowercase(s@),
{
    s.to_lowercase()
}

/// The key and the value of `set <key> <value>`, from the text after the
/// command word: the key runs up to the first whitespace, the value is the
/// rest without its leading whitespace; both must be non-empty.
pub open spec fn key_value_of(rest: Seq<char>) -> Option<(Seq<char>, Seq<char>)> {
    let p = seq_find_ws(rest) as int;
    if p == rest.len() {
        None
    } else {
        let key = seq_trim(rest.take(p));
        let value = seq_trim_start(rest.skip(p));
        if key.len() == 0 || value.len() == 0 {
            None
        } else {
            Some((key, value))
        }
    }
}

/// The command that the lower-cased command word `cmd` and the text after
/// it, `rest`, stand for, or the message that says why there is none.
pub open spec fn command_for(cmd: Seq<char>, rest: Seq<char>) -> Result<CommandView, Seq<char>> {
    if cmd == "set"@ {
        match key_value_of(rest) {
            Some(kv) => Ok(CommandView::Request(RequestView::Put { key: kv.0, value: kv.1 })),
            None => Err("缺少键或值"@),
        }
    } else if cmd == "get"@ {
        if rest.len() == 0 {
            Err("缺少键"@)
        } else {
            Ok(CommandView::Request(RequestView::Get { key: rest }))
        }
    } else if cmd == "del"@ {
        if rest.len() == 0 {
            Err("缺少键"@)
        } else {
            Ok(CommandView::Request(RequestView::Del { key: rest }))
        }
    } else if cmd == "list"@ {
        Ok(CommandView::Request(RequestView::List))
    } else if cmd == "status"@ {
        Ok(CommandView::Request(RequestView::Status))
    } else if cmd == "quit"@ || cmd == "exit"@ {
        Ok(CommandView::Quit)
    } else if cmd == "help"@ {
        Ok(CommandView::Help)
    } else {
        Err("未知命令: "@ + cmd)
    }
}

/// The command that a typed line stands for: the line is trimmed, its
/// first word (up to the first whitespace) is lower-cased and names the
/// command, and the rest, without leading whitespace, gives the arguments.
pub open spec fn parsed_command(line: Seq<char>) -> Result<CommandView, Seq<char>> {
    let t = seq_trim(line);
    if t.len() == 0 {
        Err("空命令"@)
    } else {
        let p = seq_find_ws(t) as int;
        command_for(command_word(t.take(p)), seq_trim_start(t.skip(p)))
    }
}

/// A line made of a word without whitespace and a rest that is empty or
/// starts with whitespace names its command with that word, and takes its
/// arguments from the rest alone.
pub proof fn lemma_parse_word_and_rest(w: Seq<char>, rest: Seq<char>)
    requires
        w.len() > 0,
        forall|i: int| 0 <= i < w.len() ==> !is_ws(#[trigger] w[i]),
        rest.len() == 0 || is_ws(rest[0]),
    ensures
        parsed_command(w + rest) == command_for(
            command_word(w),
            seq_trim_start(seq_trim_end(rest)),
        ),
{
    let s = w + rest;
    assert(s[0] == w[0]);
    lemma_lead_run(s, true, 0);
    assert(seq_trim_start(s) =~= s);
    let tr = tail_run(rest, true) as int;
    lemma_tail_run_bound(rest, true);
    assert forall|j: int| s.len() - tr <= j < s.len() implies is_ws(#[trigger] s[j]) by {
        assert(s[j] == rest[j - w.len()]);
    }
    if tr < rest.len() {
        assert(s[s.len() - 1 - tr] == rest[rest.len() - 1 - tr]);
    } else {
        assert(s[s.len() - 1 - tr] == w[w.len() - 1]);
    }
    lemma_tail_run(s, true, tr);
    let te = seq_trim_end(rest);
    let t = seq_trim(s);
    assert(t =~= w + te);
    assert forall|j: int| 0 <= j < w.len() implies is_ws(#[trigger] t[j]) == false by {
        assert(t[j] == w[j]);
    }
    if w.len() < t.len() {
        assert(t[w.len() as int] == rest[0]);
    }
    lemma_lead_run(t, false, w.len() as int);
    assert(t.take(w.len() as int) =~= w);
    assert(t.skip(w.len() as int) =~= te);
}

/// Splits the arguments of `set` into a key and a value.
pub fn split_key_value(rest: &str) -> (r: Option<(String, String)>)
    ensures
        match r {
            Some(kv) => key_value_of(rest@) == Some((kv.0@, kv.1@)),
            None => key_value_of(rest@) is None,
        },
{
    let n = rest.unicode_len();
    let p = find_whitespace(rest);
    if p == n {
        return None;
    }
    let key = trim(rest.substring_char(0, p));
    if key.is_empty() {
        return None;
    }
    let value = trim_start(rest.substring_char(p, n));
    if value.is_empty() {
        return None;
    }
    proof {
        assert(rest@.take(p as int) =~= rest@.subrange(0, p as int));
        assert(rest@.skip(p as int) =~= rest@.subrange(p as int, n as int));
    }
    Some((key.to_owned(), value.to_owned()))
}

/// The command named by the lower-cased word `cmd`, with the arguments
/// `rest`.
pub fn interpret_command(cmd: &str, rest: &str) -> (r: Result<Command, String>)
    ensures
        command_result_view(r) == command_for(cmd@, rest@),
{
    if same_text(cmd, "set") {
        match split_key_value(rest) {
            Some((key, value)) => Ok(Command::Request(Request::Put { key, value })),
            None => Err("缺少键或值".to_owned()),
        }
    } else if same_text(cmd, "get") {
        if rest.is_empty() {
            Err("缺少键".to_owned())
        } else {
            Ok(Command::Request(Request::Get { key: rest.to_owned() }))
        }
    } else if same_text(cmd, "del") {
        if rest.is_empty() {
            Err("缺少键".to_owned())
        } else {
            Ok(Command::Request(Request::Del { key: rest.to_owned() }))
        }
    } else if same_text(cmd, "list") {
        Ok(Command::Request(Request::List))
    } else if same_text(cmd, "status") {
        Ok(Command::Request(Request::Status))
    } else if same_text(cmd, "quit") || same_text(cmd, "exit") {
        Ok(Command::Quit)
    } else if same_text(cmd, "help") {
        Ok(Command::Help)
    } else {
        let mut msg = "未知命令: ".to_owned();
        msg.append(cmd);
        Err(msg)
    }
}

/// Parses a line typed at the prompt.
pub fn parse_command(line: &str) -> (r: Result<Command, String>)
    ensures
        command_result_view(r) == parsed_command(line@),
{
    let t = trim(line);
    if t.is_empty() {
        return Err("空命令".to_owned());
    }
    let n = t.unicode_len();
    let p = find_whitespace(t);
    let word = t.substring_char(0, p);
    let cmd = to_lowercase(word);
    let rest = trim_start(t.substring_char(p, n));
    proof {
        assert(word@ =~= t@.take(p as int));
        assert(t@.subrange(p as int, n as int) =~= t@.skip(p as int));
        lemma_ascii_lowercase_ascii(word@);
        assert(cmd@ == command_word(word@));
    }
    interpret_command(cmd.as_str(), rest)
}

/// What `format!("{:?}", items)` writes for a list of strings.
pub uninterp spec fn debug_text(items: Seq<Seq<char>>) -> Seq<char>;

/// Formats a list of strings with `{:?}` (the `Debug` format of
/// `Vec<String>`). Claimed: the result is `debug_text` of the strings.
#[verifier::external_body]
fn debug_strings(items: &Vec<String>) -> (r: String)
    ensures
        r@ == debug_text(strs_view(items@)),
{
    format!("{:?}", items)
}

/// The lines to show for a reply, and whether they go to standard error.
#[derive(Debug)]
pub struct Rendered {
    /// The lines go to standard error (else to standard output).
    pub to_stderr: bool,
    /// The lines, each without its line ending.
    pub lines: Vec<String>,
}

/// The lines to show for a reply, and whether they go to standard error.
pub open spec fn rendered(r: ResponseView) -> (bool, Seq<Seq<char>>) {
    if r.ok {
        match r.value {
            Some(v) => (false, seq![v]),
            None => match r.keys {
                Some(ks) => if ks.len() == 0 {
                    (false, seq!["(空)"@])
                } else {
                    (false, seq!["keys: "@ + debug_text(ks)])
                },
                None => match r.status {
                    Some(st) => (
                        false,
                        seq![
                            "键数量: "@ + decimal(st.key_count as nat),
                            "客户端连接数: "@ + decimal(st.client_count as nat),
                            "监听地址: "@ + st.listen_addr,
                            "数据文件: "@ + st.data_file,
                        ],
                    ),
                    None => (false, seq!["OK"@]),
                },
            },
        }
    } else {
        match r.error {
            Some(e) => (true, seq!["错误: "@ + e]),
            None => (true, seq!["操作失败"@]),
        }
    }
}

/// `prefix` followed by `tail`.
fn joined(prefix: &str, tail: &str) -> (r: String)
    ensures
        r@ == prefix@ + tail@,
{
    let mut s = prefix.to_owned();
    s.append(tail);
    s
}

/// The lines that the client shows for a reply: the value, the list of
/// keys, the server state or `OK` on success; the reason on failure.
pub fn render_response(response: &Response) -> (r: Rendered)
    ensures
        (r.to_stderr, strs_view(r.lines@)) == rendered(response@),
{
    let mut lines: Vec<String> = Vec::new();
    let mut to_stderr = false;
    if response.ok {
        if let Some(value) = &response.value {
            lines.push(value.clone());
        } else if let Some(keys) = &response.keys {
            if keys.len() == 0 {
                lines.push("(空)".to_owned());
            } else {
                let text = debug_strings(keys);
                lines.push(joined("keys: ", text.as_str()));
            }
        } else if let Some(status) = &response.status {
            let kc = to_decimal(status.key_count);
            let cc = to_decimal(status.client_count);
            lines.push(joined("键数量: ", kc.as_str()));
            lines.push(joined("客户端连接数: ", cc.as_str()));
            lines.push(joined("监听地址: ", status.listen_addr.as_str()));
            lines.push(joined("数据文件: ", status.data_file.as_str()));
        } else {
            lines.push("OK".to_owned());
        }
    } else {
        to_stderr = true;
        if let Some(err) = &response.error {
            lines.push(joined("错误: ", err.as_str()));
        } else {
            lines.push("操作失败".to_owned());
        }
    }
    let r = Rendered { to_stderr, lines };
    assert((r.to_stderr, strs_view(r.lines@)) =~= rendered(response@));
    r
}

/// What the client does with a line typed at the prompt.
#[derive(Debug)]
pub enum ClientStep {
    /// Nothing was typed: prompt again.
    Skip,
    /// Send this request and show the reply.
    Send(Request),
    /// Leave the client.
    Quit,
    /// Show the list of commands.
    Help,
    /// Tell the user that the line is not a command, and why.
    Complain(String),
}

/// A client step, each string taken as its characters.
pub enum ClientStepView {
    Skip,
    Send(RequestView),
    Quit,
    Help,
    Complain(Seq<char>),
}

impl View for ClientStep {
    type V = ClientStepView;

    open spec fn view(&self) -> ClientStepView {
        match self {
            ClientStep::Skip => ClientStepView::Skip,
            ClientStep::Send(r) => ClientStepView::Send(r@),
            ClientStep::Quit => ClientStepView::Quit,
            ClientStep::Help => ClientStepView::Help,
            ClientStep::Complain(m) => ClientStepView::Complain(m@),
        }
    }
}

/// What the client does with the typed line `input`.
pub open spec fn client_step_for(input: Seq<char>) -> ClientStepView {
    if seq_trim(input).len() == 0 {
        ClientStepView::Skip
    } else {
        match parsed_command(input) {
            Ok(CommandView::Request(r)) => ClientStepView::Send(r),
            Ok(CommandView::Quit) => ClientStepView::Quit,
            Ok(CommandView::Help) => ClientStepView::Help,
            Err(m) => ClientStepView::Complain(m),
        }
    }
}

/// Decides what to do with a line typed at the prompt.
pub fn client_step(input: &str) -> (r: ClientStep)
    ensures
        r@ == client_step_for(input@),
{
    if trim(input).is_empty() {
        return ClientStep::Skip;
    }
    match parse_command(input) {
        Ok(Command::Request(r)) => ClientStep::Send(r),
        Ok(Command::Quit) => ClientStep::Quit,
        Ok(Command::Help) => ClientStep::Help,
        Err(m) => ClientStep::Complain(m),
    }
}

/// How one exchange with the server went.
#[derive(Debug)]
pub enum Exchange {
    /// The server replied.
    Reply(Response),
    /// The server closed the connection instead of replying.
    Closed,
    /// The request could not be sent; the text says why.
    SendFailed(String),
    /// The reply could not be read; the text says why.
    ReceiveFailed(String),
}

/// What the client shows after an exchange, and whether it then stops.
#[derive(Debug)]
pub struct Reaction {
    /// The lines go to standard error (else to standard output).
    pub to_stderr: bool,
    /// The lines to show.
    pub lines: Vec<String>,
    /// The client leaves after showing them.
    pub stop: bool,
}

/// What the client shows after an exchange and whether it stops: only a
/// closed connection stops it.
pub fn react(exchange: Exchange) -> (r: Reaction)
    ensures
        match exchange {
            Exchange::Reply(resp) => (r.to_stderr, strs_view(r.lines@)) == rendered(resp@) && !r.stop,
            Exchange::Closed => !r.to_stderr && strs_view(r.lines@) == seq!["服务器关闭连接"@]
                && r.stop,
            Exchange::SendFailed(e) => r.to_stderr && strs_view(r.lines@) == seq![
                "发送请求失败: "@ + e@,
            ] && !r.stop,
            Exchange::ReceiveFailed(e) => r.to_stderr && strs_view(r.lines@) == seq![
                "接收响应失败: "@ + e@,
            ] && !r.stop,
        },
{
    let mut lines: Vec<String> = Vec::new();
    match exchange {
        Exchange::Reply(resp) => {
            let shown = render_response(&resp);
            Reaction { to_stderr: shown.to_stderr, lines: shown.lines, stop: false }
        },
        Exchange::Closed => {
            lines.push("服务器关闭连接".to_owned());
            assert(strs_view(lines@) =~= seq!["服务器关闭连接"@]);
            Reaction { to_stderr: false, lines, stop: true }
        },
        Exchange::SendFailed(e) => {
            lines.push(joined("发送请求失败: ", e.as_str()));
            assert(strs_view(lines@) =~= seq!["发送请求失败: "@ + e@]);
            Reaction { to_stderr: true, lines, stop: false }
        },
        Exchange::ReceiveFailed(e) => {
            lines.push(joined("接收响应失败: ", e.as_str()));
            assert(strs_view(lines@) =~= seq!["接收响应失败: "@ + e@]);
            Reaction { to_stderr: true, lines, stop: false }
        },
    }
}

} // verus!
