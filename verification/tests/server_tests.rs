use kvstore::persistence::{decode_snapshot, FileRead};
use kvstore::protocol::{Request, Response};
use kvstore::server::{
    after_persist, handle_request, persist, unparsable_request, Config, ServerState, Step,
};

fn fresh() -> ServerState {
    ServerState::start(Config::new("127.0.0.1:7878".into(), "data/kv.json".into()), Vec::new())
}

/// Carries out a request the way a connection does when saving succeeds.
fn request(state: &mut ServerState, req: Request) -> Response {
    match handle_request(state, req) {
        Step::Reply(r) => r,
        Step::Persist { success, failure } => {
            persist(state).unwrap();
            after_persist(success, failure, None)
        }
    }
}

#[test]
fn end_to_end_basic_flow() {
    let mut state = fresh();
    let resp = request(
        &mut state,
        Request::Put { key: "课程名称".into(), value: "Rust程序设计".into() },
    );
    assert!(resp.ok, "写入应成功: {:?}", resp);

    let resp = request(&mut state, Request::Get { key: "课程名称".into() });
    assert!(resp.ok);
    assert_eq!(resp.value.as_deref(), Some("Rust程序设计"));

    request(
        &mut state,
        Request::Put { key: "课程名称".into(), value: "Rust程序设计(第二版)".into() },
    );
    let resp = request(&mut state, Request::Get { key: "课程名称".into() });
    assert_eq!(resp.value.as_deref(), Some("Rust程序设计(第二版)"));

    let resp = request(&mut state, Request::Del { key: "课程名称".into() });
    assert!(resp.ok, "删除应成功: {:?}", resp);

    let resp = request(&mut state, Request::Get { key: "课程名称".into() });
    assert!(!resp.ok, "查询不存在的键应失败");
    assert!(resp.error.is_some(), "应给出明确的错误提示");

    let resp = request(&mut state, Request::List);
    assert!(resp.ok);
    let resp = request(&mut state, Request::Status);
    assert!(resp.ok);
    assert!(resp.status.is_some());
}

#[test]
fn eight_clients_each_set_one_key() {
    let mut state = fresh();
    for i in 0..8 {
        state.store.client_connected();
        let resp = request(
            &mut state,
            Request::Put { key: format!("key{}", i), value: format!("value{}", i) },
        );
        assert!(resp.ok, "写入应成功: {:?}", resp);
    }
    let resp = request(&mut state, Request::List);
    assert!(resp.ok);
    let keys = resp.keys.expect("应返回键列表");
    assert_eq!(keys.len(), 8, "应恰好有 8 个键，实际是 {:?}", keys);
    let resp = request(&mut state, Request::Status);
    let status = resp.status.unwrap();
    assert_eq!(status.key_count, 8);
    assert_eq!(status.client_count, 8);
    assert_eq!(status.listen_addr, "127.0.0.1:7878");
    assert_eq!(status.data_file, "data/kv.json");
}

#[test]
fn persistence_across_restart() {
    let mut state = fresh();
    let resp = request(
        &mut state,
        Request::Put { key: "课程名称".into(), value: "Rust程序设计".into() },
    );
    assert!(resp.ok, "写入应成功: {:?}", resp);
    let saved = persist(&state).unwrap();

    let restored = decode_snapshot(FileRead::Contents(saved.into_bytes())).unwrap();
    let mut state2 = ServerState::start(Config::new("127.0.0.1:7879".into(), "data/kv.json".into()), restored);
    let resp = request(&mut state2, Request::Get { key: "课程名称".into() });
    assert!(resp.ok, "重启后应能查询到数据: {:?}", resp);
    assert_eq!(resp.value.as_deref(), Some("Rust程序设计"));
}

#[test]
fn missing_key_messages() {
    let mut state = fresh();
    let resp = request(&mut state, Request::Get { key: "k".into() });
    assert_eq!(resp.error.as_deref(), Some("键 \"k\" 不存在"));
    let resp = request(&mut state, Request::Del { key: "k".into() });
    assert_eq!(resp.error.as_deref(), Some("键 \"k\" 不存在"));
}

#[test]
fn set_asks_to_save_and_reports_failures() {
    let mut state = fresh();
    match handle_request(&mut state, Request::Put { key: "a".into(), value: "1".into() }) {
        Step::Persist { success, failure } => {
            assert_eq!(success.value.as_deref(), Some("1"));
            let r = after_persist(success, failure, Some("I/O 错误: 磁盘已满".into()));
            assert!(!r.ok);
            assert_eq!(r.error.as_deref(), Some("数据已写入内存，但持久化失败: I/O 错误: 磁盘已满"));
        }
        other => panic!("unexpected {:?}", other),
    }
    match handle_request(&mut state, Request::Del { key: "a".into() }) {
        Step::Persist { success, failure } => {
            assert!(success.ok && success.value.is_none());
            let r = after_persist(success, failure, Some("x".into()));
            assert_eq!(r.error.as_deref(), Some("数据已删除，但持久化失败: x"));
        }
        other => panic!("unexpected {:?}", other),
    }
}

#[test]
fn list_is_sorted_and_reads_change_nothing() {
    let mut state = fresh();
    request(&mut state, Request::Put { key: "b".into(), value: "2".into() });
    request(&mut state, Request::Put { key: "a".into(), value: "1".into() });
    let resp = request(&mut state, Request::List);
    assert_eq!(resp.keys, Some(vec!["a".to_string(), "b".to_string()]));
    assert_eq!(state.store.len(), 2);
}

#[test]
fn unparsable_request_reply() {
    let r = unparsable_request("expected value at line 1 column 1".into());
    assert!(!r.ok);
    assert_eq!(r.error.as_deref(), Some("无法解析请求: expected value at line 1 column 1"));
}

#[test]
fn persisted_text_restores_the_table() {
    let mut state = fresh();
    request(&mut state, Request::Put { key: "x".into(), value: "1".into() });
    request(&mut state, Request::Put { key: "y".into(), value: "2".into() });
    request(&mut state, Request::Del { key: "x".into() });
    let saved = persist(&state).unwrap();
    assert_eq!(saved, "{\n  \"y\": \"2\"\n}");
    let restored = decode_snapshot(FileRead::Contents(saved.into_bytes())).unwrap();
    assert_eq!(restored, vec![("y".to_string(), "2".to_string())]);
}

#[test]
fn set_keeps_other_keys() {
    let mut state = fresh();
    request(&mut state, Request::Put { key: "a".into(), value: "1".into() });
    let before = request(&mut state, Request::Get { key: "b".into() });
    request(&mut state, Request::Put { key: "c".into(), value: "3".into() });
    let after = request(&mut state, Request::Get { key: "b".into() });
    assert_eq!(before, after);
    assert_eq!(request(&mut state, Request::Get { key: "a".into() }).value.as_deref(), Some("1"));
}

#[test]
fn only_changes_ask_to_save() {
    let mut state = fresh();
    assert!(matches!(handle_request(&mut state, Request::Get { key: "a".into() }), Step::Reply(_)));
    assert!(matches!(handle_request(&mut state, Request::Del { key: "a".into() }), Step::Reply(_)));
    assert!(matches!(handle_request(&mut state, Request::List), Step::Reply(_)));
    assert!(matches!(handle_request(&mut state, Request::Status), Step::Reply(_)));
    assert!(matches!(
        handle_request(&mut state, Request::Put { key: "a".into(), value: "1".into() }),
        Step::Persist { .. }
    ));
    assert!(matches!(handle_request(&mut state, Request::Del { key: "a".into() }), Step::Persist { .. }));
}
