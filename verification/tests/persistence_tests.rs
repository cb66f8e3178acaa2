use kvstore::error::KvError;
use kvstore::persistence::{decode_snapshot, encode_snapshot, FileRead, Persistence};

fn pairs(v: &[(&str, &str)]) -> Vec<(String, String)> {
    v.iter().map(|(k, v)| (k.to_string(), v.to_string())).collect()
}

#[test]
fn save_and_load_roundtrip() {
    let data = pairs(&[("课程名称", "Rust程序设计"), ("学分", "3")]);
    let text = encode_snapshot(&data).unwrap();
    let mut loaded = decode_snapshot(FileRead::Contents(text.into_bytes())).unwrap();
    loaded.sort();
    let mut expected = data.clone();
    expected.sort();
    assert_eq!(loaded, expected);
}

#[test]
fn load_missing_file_returns_empty() {
    let loaded = decode_snapshot(FileRead::Missing).unwrap();
    assert!(loaded.is_empty());
}

#[test]
fn load_corrupted_file_errors() {
    let result = decode_snapshot(FileRead::Contents("这不是合法的 JSON {{{".as_bytes().to_vec()));
    assert!(result.is_err());
    match result {
        Err(KvError::CorruptedData(_)) => {}
        other => panic!("应返回 CorruptedData 错误，实际是 {:?}", other),
    }
}

#[test]
fn load_empty_file_returns_empty() {
    let loaded = decode_snapshot(FileRead::Contents(Vec::new())).unwrap();
    assert!(loaded.is_empty());
    let loaded = decode_snapshot(FileRead::Contents(" \n\t ".as_bytes().to_vec())).unwrap();
    assert!(loaded.is_empty());
}

#[test]
fn load_rejects_non_string_values() {
    let result = decode_snapshot(FileRead::Contents("{\"a\": 1}".as_bytes().to_vec()));
    assert!(matches!(result, Err(KvError::CorruptedData(_))));
    let result = decode_snapshot(FileRead::Contents("[\"a\"]".as_bytes().to_vec()));
    assert!(matches!(result, Err(KvError::CorruptedData(_))));
}

#[test]
fn encoded_snapshot_is_pretty_json_in_key_order() {
    let data = pairs(&[("b", "2"), ("a", "1")]);
    let text = encode_snapshot(&data).unwrap();
    assert_eq!(text, "{\n  \"a\": \"1\",\n  \"b\": \"2\"\n}");
    let empty = encode_snapshot(&Vec::new()).unwrap();
    assert_eq!(empty, "{}");
}

#[test]
fn roundtrip_of_awkward_strings() {
    let data = pairs(&[("引号\"与\\反斜杠", "换行\n制表\t"), ("", "空键")]);
    let text = encode_snapshot(&data).unwrap();
    let mut loaded = decode_snapshot(FileRead::Contents(text.into_bytes())).unwrap();
    loaded.sort();
    let mut expected = data.clone();
    expected.sort();
    assert_eq!(loaded, expected);
}

#[test]
fn persistence_keeps_its_path() {
    let p = Persistence::new("data/kv.json".to_string());
    assert_eq!(p.path(), "data/kv.json");
}

#[test]
fn load_non_utf8_file_is_corrupted() {
    let result = decode_snapshot(FileRead::Contents(vec![b'{', 0xff, 0xfe, b'}']));
    match result {
        Err(KvError::CorruptedData(msg)) => assert_eq!(msg, "数据文件不是合法的 UTF-8 文本"),
        other => panic!("unexpected {:?}", other),
    }
}

#[test]
fn corrupted_reason_is_serde_json_message() {
    let text = "{\"a\": 1}";
    let expected = serde_json::from_str::<std::collections::BTreeMap<String, String>>(text)
        .unwrap_err()
        .to_string();
    match decode_snapshot(FileRead::Contents(text.as_bytes().to_vec())) {
        Err(KvError::CorruptedData(msg)) => assert_eq!(msg, expected),
        other => panic!("unexpected {:?}", other),
    }
}

#[test]
fn encoding_always_succeeds() {
    assert!(encode_snapshot(&pairs(&[("\u{0}", "\u{1f600}"), ("k", "")])).is_ok());
}

#[test]
fn encoded_snapshot_escapes_as_stated() {
    let data = pairs(&[("q\"\\\u{1}\n\u{8}\u{c}\r\t\u{1f}", "值/\u{7f}")]);
    let text = encode_snapshot(&data).unwrap();
    assert_eq!(
        text,
        "{\n  \"q\\\"\\\\\\u0001\\n\\b\\f\\r\\t\\u001f\": \"值/\u{7f}\"\n}"
    );
}
