//! Properties of the library as a whole, each proved from the contracts of
//! the functions it speaks of.

use vstd::prelude::*;
use crate::client::{
    ascii_lowercase, debug_text, lemma_parse_word_and_rest, parsed_command, rendered, CommandView,
};
use crate::persistence::{lemma_saved_text_restores, reads_back_as, restored};
use vstd::utf8::{decode_utf8, encode_utf8, valid_utf8};
use crate::persistence::json_string_map;
use crate::protocol::{ok_view, raw_line, RequestView, ResponseView};
use crate::server::{missing_key_view, request_outcome, ServerView, StepView};
use crate::store::{
    has_key, is_sorted_key_list, keys_of, lemma_ordered_pairs_exist, lemma_pairs_map_at,
    lemma_sorted_distinct, ordered_pairs, pairs_map,
};
use crate::text::{
    is_ws, lemma_lead_run, lemma_lex_irreflexive, lemma_tail_run, lemma_trim_ends, lemma_trim_idempotent, seq_trim,
    seq_trim_end, seq_trim_start,
};

verus! {

/// A `get` of a key answers with the value that the last `set` of that key
/// wrote, whatever the state was before the `set`.
pub proof fn law_get_after_set(s: ServerView, key: Seq<char>, value: Seq<char>)
    ensures
        request_outcome(
            request_outcome(s, RequestView::Put { key, value }).0,
            RequestView::Get { key },
        ).1 == StepView::Reply(ResponseView { value: Some(value), ..ok_view() }),
{
}

/// A `set` of one key leaves what a `get` of any other key answers as it was.
pub proof fn law_set_keeps_other_keys(
    s: ServerView,
    key: Seq<char>,
    value: Seq<char>,
    other: Seq<char>,
)
    requires
        key != other,
    ensures
        request_outcome(
            request_outcome(s, RequestView::Put { key, value }).0,
            RequestView::Get { key: other },
        ).1 == request_outcome(s, RequestView::Get { key: other }).1,
{
}

/// After a `del` of a key, a `get` of it reports the key as missing.
pub proof fn law_get_after_del(s: ServerView, key: Seq<char>)
    ensures
        request_outcome(request_outcome(s, RequestView::Del { key }).0, RequestView::Get { key }).1
            == StepView::Reply(missing_key_view(key)),
{
}

/// A second `del` of the same key reports it as missing and changes nothing.
pub proof fn law_del_twice(s: ServerView, key: Seq<char>)
    ensures
        ({
            let s1 = request_outcome(s, RequestView::Del { key }).0;
            request_outcome(s1, RequestView::Del { key }) == (s1, StepView::Reply(
                missing_key_view(key),
            ))
        }),
{
}

/// `get`, `list` and `status` leave the state as it was.
pub proof fn law_reads_keep_state(s: ServerView, req: RequestView)
    requires
        req is Get || req is List || req is Status,
    ensures
        request_outcome(s, req).0 == s,
{
}

/// Only `set` and `del` of a key that exists ask for the table to be saved.
pub proof fn law_saves_only_after_changes(s: ServerView, req: RequestView)
    ensures
        request_outcome(s, req).1 is Persist <==> (req is Put || (req matches RequestView::Del {
            key,
        } && s.store.contains_key(key))),
{
}

/// The list of keys holds each key once, so it is as long as the table.
pub proof fn law_key_list_length(ks: Seq<Seq<char>>, m: Map<Seq<char>, Seq<char>>)
    requires
        m.dom().finite(),
        is_sorted_key_list(ks, m),
    ensures
        ks.len() == m.len(),
{
    assert(ks.no_duplicates()) by {
        assert forall|i: int, j: int| 0 <= i < ks.len() && 0 <= j < ks.len() && i != j implies ks[i]
            != ks[j] by {
            lemma_lex_irreflexive(ks[i]);
        }
    }
    assert(ks.to_set() =~= m.dom());
    ks.unique_seq_to_set();
}

/// A value that a `set` wrote, once saved, is what the key holds after the
/// server starts again from the saved file.
pub proof fn law_set_survives_restart(
    s: ServerView,
    key: Seq<char>,
    value: Seq<char>,
    saved: Seq<char>,
)
    requires
        reads_back_as(saved, request_outcome(s, RequestView::Put { key, value }).0.store),
        seq_trim(saved).len() > 0,
    ensures
        restored(Some(encode_utf8(saved))) matches Ok(m) && m.contains_key(key) && m[key] == value,
{
    lemma_saved_text_restores(saved, request_outcome(s, RequestView::Put { key, value }).0.store);
}

/// The text that is saved for a table, written to the data file, restores
/// that same table when the server starts again.
pub proof fn law_restart_restores(table: Map<Seq<char>, Seq<char>>, saved: Seq<char>)
    requires
        reads_back_as(saved, table),
        seq_trim(saved).len() > 0,
    ensures
        (restored(Some(encode_utf8(saved))) matches Ok(x) && x == table),
{
    lemma_saved_text_restores(saved, table);
}

/// A first start, with no data file, begins with an empty table; so does a
/// data file of only whitespace.
pub proof fn law_empty_start(text: Seq<char>)
    requires
        seq_trim(text).len() == 0,
    ensures
        (restored(None) matches Ok(x) && x == Map::<Seq<char>, Seq<char>>::empty()),
        (restored(Some(encode_utf8(text))) matches Ok(x) && x == Map::<Seq<char>, Seq<char>>::empty()),
{
    vstd::utf8::encode_utf8_valid_utf8(text);
    vstd::utf8::encode_utf8_decode_utf8(text);
}

/// A data file is never taken for an empty table unless it is empty or
/// blank: a corrupted file gives its reason instead.
pub proof fn law_corrupted_is_never_empty(bytes: Seq<u8>)
    requires
        !valid_utf8(bytes) || (seq_trim(decode_utf8(bytes)).len() > 0 && json_string_map(
            decode_utf8(bytes),
        ) is Err),
    ensures
        restored(Some(bytes)) is Err,
{
}

/// A client that connects and then disconnects leaves the count as it was.
pub proof fn law_connect_then_disconnect(count: usize)
    ensures
        count.wrapping_add(1).wrapping_sub(1) == count,
{
}

/// Whitespace around a typed line does not change the command it stands for.
pub proof fn law_parse_ignores_surrounding_whitespace(line: Seq<char>)
    ensures
        parsed_command(seq_trim(line)) == parsed_command(line),
{
    lemma_trim_idempotent(line);
}

/// The command word is read without regard to the case of its ASCII
/// letters, while the arguments keep theirs: two lines whose trimmed texts
/// differ only in the case of the ASCII letters of their first word (the
/// text up to the first whitespace) stand for the same command.
pub proof fn law_command_word_ignores_ascii_case(
    line1: Seq<char>,
    line2: Seq<char>,
    w1: Seq<char>,
    w2: Seq<char>,
    rest: Seq<char>,
)
    requires
        seq_trim(line1) == w1 + rest,
        seq_trim(line2) == w2 + rest,
        w1.len() > 0,
        w2.len() > 0,
        ascii_lowercase(w1) == ascii_lowercase(w2),
        forall|i: int| 0 <= i < w1.len() ==> !is_ws(#[trigger] w1[i]),
        forall|i: int| 0 <= i < w2.len() ==> !is_ws(#[trigger] w2[i]),
        rest.len() == 0 || is_ws(rest[0]),
    ensures
        parsed_command(line1) == parsed_command(line2),
{
    lemma_trim_idempotent(line1);
    lemma_trim_idempotent(line2);
    lemma_parse_word_and_rest(w1, rest);
    lemma_parse_word_and_rest(w2, rest);
}

/// A message written as one line, ending in `"\n"` or `"\r\n"`, reads back
/// as the same text, provided the text itself does not end in `"\r"`.
pub proof fn law_line_framing(text: Seq<char>)
    requires
        text.len() == 0 || text.last() != '\r',
    ensures
        raw_line(text.push('\n')) == Some(text),
        raw_line(text.push('\r').push('\n')) == Some(text),
{
    assert(text.push('\n').drop_last() =~= text);
    assert(text.push('\r').push('\n').drop_last().drop_last() =~= text);
}

/// A status reply counts the keys of the table and the connected clients,
/// names the listen address and the data file, and changes nothing.
pub proof fn law_status_reports_the_state(s: ServerView)
    requires
        s.store.dom().finite(),
        s.store.len() <= usize::MAX,
    ensures
        request_outcome(s, RequestView::Status).0 == s,
        ({
            &&& request_outcome(s, RequestView::Status).1 matches StepView::Reply(r)
            &&& r.ok
            &&& r.status matches Some(st)
            &&& st.key_count == s.store.len()
            &&& st.client_count == s.clients
            &&& st.listen_addr == s.addr
            &&& st.data_file == s.data_file
        }),
{
}

/// A list reply holds every key of the table, each once, in increasing
/// order; so it is exactly as long as the table.
pub proof fn law_list_reply_holds_every_key(s: ServerView)
    requires
        s.store.dom().finite(),
    ensures
        request_outcome(s, RequestView::List).0 == s,
        ({
            &&& request_outcome(s, RequestView::List).1 matches StepView::Reply(r)
            &&& r.ok
            &&& r.keys matches Some(ks)
            &&& is_sorted_key_list(ks, s.store)
            &&& ks.len() == s.store.len()
        }),
{
    let m = s.store;
    lemma_ordered_pairs_exist(m);
    let p = ordered_pairs(m);
    let ks = keys_of(p);
    lemma_sorted_distinct(p);
    assert forall|k: Seq<char>| m.contains_key(k) <==> ks.contains(k) by {
        if m.contains_key(k) {
            assert(has_key(p, k));
            let i = choose|i: int| 0 <= i < p.len() && #[trigger] p[i].0 == k;
            assert(ks[i] == k);
        }
        if ks.contains(k) {
            let i = choose|i: int| 0 <= i < ks.len() && ks[i] == k;
            assert(p[i].0 == k);
            lemma_pairs_map_at(p, i);
        }
    }
    law_key_list_length(ks, m);
}

/// A `del` of one key leaves what a `get` of any other key answers as it was.
pub proof fn law_del_keeps_other_keys(s: ServerView, key: Seq<char>, other: Seq<char>)
    requires
        key != other,
    ensures
        request_outcome(request_outcome(s, RequestView::Del { key }).0, RequestView::Get {
            key: other,
        }).1 == request_outcome(s, RequestView::Get { key: other }).1,
{
}

/// The arguments of a typed line are those of its trimmed text after the
/// command word, without their leading whitespace, as they were typed.
proof fn lemma_arguments_as_typed(line: Seq<char>, w: Seq<char>, rest: Seq<char>)
    requires
        seq_trim(line) == w + rest,
        w.len() > 0,
        forall|i: int| 0 <= i < w.len() ==> !is_ws(#[trigger] w[i]),
        rest.len() > 0,
        is_ws(rest[0]),
    ensures
        parsed_command(line) == parsed_command(w + rest),
        seq_trim_start(seq_trim_end(rest)) == seq_trim_start(rest),
{
    lemma_trim_idempotent(line);
    lemma_trim_ends(line);
    assert(seq_trim(line).last() == rest.last());
    lemma_tail_run(rest, true, 0);
    assert(seq_trim_end(rest) =~= rest);
}

/// `get` looks up its argument exactly as it was typed: only the command
/// word is read without regard to ASCII case, never the key.
pub proof fn law_get_key_as_typed(line: Seq<char>, w: Seq<char>, rest: Seq<char>)
    requires
        seq_trim(line) == w + rest,
        w.len() > 0,
        forall|i: int| 0 <= i < w.len() ==> !is_ws(#[trigger] w[i]),
        ascii_lowercase(w) == "get"@,
        rest.len() > 0,
        is_ws(rest[0]),
        seq_trim_start(rest).len() > 0,
    ensures
        parsed_command(line) matches Ok(CommandView::Request(RequestView::Get { key })) && key
            == seq_trim_start(rest),
{
    lemma_arguments_as_typed(line, w, rest);
    lemma_parse_word_and_rest(w, rest);
    reveal_strlit("get");
    reveal_strlit("set");
    assert("get"@[0] != "set"@[0]);
}

/// `del` removes its argument exactly as it was typed: only the command
/// word is read without regard to ASCII case, never the key.
pub proof fn law_del_key_as_typed(line: Seq<char>, w: Seq<char>, rest: Seq<char>)
    requires
        seq_trim(line) == w + rest,
        w.len() > 0,
        forall|i: int| 0 <= i < w.len() ==> !is_ws(#[trigger] w[i]),
        ascii_lowercase(w) == "del"@,
        rest.len() > 0,
        is_ws(rest[0]),
        seq_trim_start(rest).len() > 0,
    ensures
        parsed_command(line) matches Ok(CommandView::Request(RequestView::Del { key })) && key
            == seq_trim_start(rest),
{
    lemma_arguments_as_typed(line, w, rest);
    lemma_parse_word_and_rest(w, rest);
    reveal_strlit("del");
    reveal_strlit("get");
    reveal_strlit("set");
    assert("del"@[0] != "set"@[0]);
    assert("del"@[0] != "get"@[0]);
}

/// A successful list reply shows `(空)` exactly when the list is empty, and
/// otherwise shows the keys; it goes to standard output.
pub proof fn law_key_list_rendering(r: ResponseView, ks: Seq<Seq<char>>)
    requires
        r.ok,
        r.value is None,
        r.keys == Some(ks),
    ensures
        !rendered(r).0,
        (rendered(r).1 == seq!["(空)"@]) <==> ks.len() == 0,
        ks.len() > 0 ==> rendered(r).1 == seq!["keys: "@ + debug_text(ks)],
{
    if ks.len() > 0 {
        reveal_strlit("keys: ");
        reveal_strlit("(空)");
        if rendered(r).1 == seq!["(空)"@] {
            assert(rendered(r).1[0] == "(空)"@);
            assert(("keys: "@ + debug_text(ks)).len() >= 6);
        }
    }
}

/// `set` takes its key and value exactly as they were typed: the key is the
/// first word of the arguments and the value all that follows the
/// whitespace after it, inner whitespace included.
pub proof fn law_set_key_and_value_as_typed(
    line: Seq<char>,
    w: Seq<char>,
    rest: Seq<char>,
    k: Seq<char>,
    gap: Seq<char>,
    v: Seq<char>,
)
    requires
        seq_trim(line) == w + rest,
        w.len() > 0,
        forall|i: int| 0 <= i < w.len() ==> !is_ws(#[trigger] w[i]),
        ascii_lowercase(w) == "set"@,
        rest.len() > 0,
        is_ws(rest[0]),
        seq_trim_start(rest) == k + gap + v,
        k.len() > 0,
        forall|i: int| 0 <= i < k.len() ==> !is_ws(#[trigger] k[i]),
        gap.len() > 0,
        forall|i: int| 0 <= i < gap.len() ==> is_ws(#[trigger] gap[i]),
        v.len() > 0,
        !is_ws(v[0]),
    ensures
        parsed_command(line) matches Ok(CommandView::Request(RequestView::Put { key, value }))
            && key == k && value == v,
{
    lemma_arguments_as_typed(line, w, rest);
    lemma_parse_word_and_rest(w, rest);
    reveal_strlit("set");
    let a = k + gap + v;
    assert forall|j: int| 0 <= j < k.len() implies is_ws(#[trigger] a[j]) == false by {
        assert(a[j] == k[j]);
    }
    assert(a[k.len() as int] == gap[0]);
    lemma_lead_run(a, false, k.len() as int);
    let head = a.take(k.len() as int);
    assert(head =~= k);
    lemma_lead_run(k, true, 0);
    assert(seq_trim_start(k) =~= k);
    lemma_tail_run(k, true, 0);
    assert(seq_trim_end(k) =~= k);
    let tail = a.skip(k.len() as int);
    assert(tail =~= gap + v);
    assert forall|j: int| 0 <= j < gap.len() implies is_ws(#[trigger] tail[j]) by {
        assert(tail[j] == gap[j]);
    }
    assert(tail[gap.len() as int] == v[0]);
    lemma_lead_run(tail, true, gap.len() as int);
    assert(seq_trim_start(tail) =~= v);
}

/// A reply that carries a value shows just that value on standard output;
/// a failed reply shows its reason on standard error.
pub proof fn law_value_and_error_rendering(r: ResponseView)
    ensures
        r.ok && r.value is Some ==> rendered(r) == (false, seq![r.value->0]),
        !r.ok && r.error is Some ==> rendered(r) == (true, seq!["错误: "@ + r.error->0]),
{
}

} // verus!
