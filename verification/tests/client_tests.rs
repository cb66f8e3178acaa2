use kvstore::client::{
    client_step, interpret_command, parse_command, react, render_response, split_key_value,
    ClientStep, Command, Exchange,
};
use kvstore::protocol::{Request, Response, StatusInfo};

#[test]
fn parse_set_with_spaces_in_value() {
    let cmd = parse_command("set 课程名称 Rust 程序设计").unwrap();
    match cmd {
        Command::Request(Request::Put { key, value }) => {
            assert_eq!(key, "课程名称");
            assert_eq!(value, "Rust 程序设计");
        }
        other => panic!("应解析为 Set 命令，实际是 {:?}", other),
    }
}

#[test]
fn parse_get_and_del() {
    assert!(matches!(
        parse_command("get 课程名称").unwrap(),
        Command::Request(Request::Get { .. })
    ));
    assert!(matches!(
        parse_command("del 课程名称").unwrap(),
        Command::Request(Request::Del { .. })
    ));
}

#[test]
fn parse_list_status_quit() {
    assert!(matches!(
        parse_command("list").unwrap(),
        Command::Request(Request::List)
    ));
    assert!(matches!(
        parse_command("status").unwrap(),
        Command::Request(Request::Status)
    ));
    assert!(matches!(parse_command("quit").unwrap(), Command::Quit));
    assert!(matches!(parse_command("exit").unwrap(), Command::Quit));
}

#[test]
fn parse_missing_args_errors() {
    assert!(parse_command("set 只有键").is_err());
    assert!(parse_command("get").is_err());
    assert!(parse_command("del").is_err());
}

#[test]
fn parse_unknown_command_errors() {
    assert!(parse_command("foobar").is_err());
}

#[test]
fn parse_error_messages() {
    assert_eq!(parse_command("   ").unwrap_err(), "空命令");
    assert_eq!(parse_command("set 只有键").unwrap_err(), "缺少键或值");
    assert_eq!(parse_command("get").unwrap_err(), "缺少键");
    assert_eq!(parse_command("DEL").unwrap_err(), "缺少键");
    assert_eq!(parse_command("FooBar x").unwrap_err(), "未知命令: foobar");
}

#[test]
fn parse_command_word_is_case_insensitive() {
    assert!(matches!(parse_command("HELP").unwrap(), Command::Help));
    assert!(matches!(parse_command("LiSt").unwrap(), Command::Request(Request::List)));
    match parse_command("  GET   k1  ").unwrap() {
        Command::Request(Request::Get { key }) => assert_eq!(key, "k1"),
        other => panic!("unexpected {:?}", other),
    }
}

#[test]
fn parse_get_keeps_inner_whitespace_of_key() {
    match parse_command("get a b").unwrap() {
        Command::Request(Request::Get { key }) => assert_eq!(key, "a b"),
        other => panic!("unexpected {:?}", other),
    }
}

#[test]
fn parse_set_with_tabs_and_unicode_spaces() {
    match parse_command("\tset\u{3000}k\t v w ").unwrap() {
        Command::Request(Request::Put { key, value }) => {
            assert_eq!(key, "k");
            assert_eq!(value, "v w");
        }
        other => panic!("unexpected {:?}", other),
    }
}

#[test]
fn split_key_value_cases() {
    assert_eq!(split_key_value("k v"), Some(("k".to_string(), "v".to_string())));
    assert_eq!(split_key_value("k   v  w"), Some(("k".to_string(), "v  w".to_string())));
    assert_eq!(split_key_value("k"), None);
    assert_eq!(split_key_value(" v"), None);
    assert_eq!(split_key_value("k   "), None);
}

#[test]
fn interpret_command_takes_the_lowered_word() {
    assert!(matches!(interpret_command("exit", ""), Ok(Command::Quit)));
    assert!(matches!(interpret_command("help", "ignored"), Ok(Command::Help)));
    assert_eq!(interpret_command("SET", "k v").unwrap_err(), "未知命令: SET");
}

#[test]
fn render_value_and_ok() {
    let r = render_response(&Response::ok().with_value("你好".to_string()));
    assert!(!r.to_stderr);
    assert_eq!(r.lines, vec!["你好"]);
    let r = render_response(&Response::ok());
    assert_eq!(r.lines, vec!["OK"]);
}

#[test]
fn render_keys() {
    let r = render_response(&Response::ok().with_keys(vec![]));
    assert_eq!(r.lines, vec!["(空)"]);
    let r = render_response(&Response::ok().with_keys(vec!["a".to_string(), "b\"".to_string()]));
    assert_eq!(r.lines, vec!["keys: [\"a\", \"b\\\"\"]"]);
}

#[test]
fn render_status() {
    let st = StatusInfo {
        key_count: 120,
        client_count: 0,
        listen_addr: "127.0.0.1:7878".to_string(),
        data_file: "data/kv.json".to_string(),
    };
    let r = render_response(&Response::ok().with_status(st));
    assert!(!r.to_stderr);
    assert_eq!(
        r.lines,
        vec![
            "键数量: 120",
            "客户端连接数: 0",
            "监听地址: 127.0.0.1:7878",
            "数据文件: data/kv.json"
        ]
    );
}

#[test]
fn render_errors_go_to_stderr() {
    let r = render_response(&Response::err("坏了".to_string()));
    assert!(r.to_stderr);
    assert_eq!(r.lines, vec!["错误: 坏了"]);
    let mut bare = Response::err(String::new());
    bare.error = None;
    let r = render_response(&bare);
    assert!(r.to_stderr);
    assert_eq!(r.lines, vec!["操作失败"]);
}

#[test]
fn parse_ignores_surrounding_whitespace() {
    for line in ["set k v", "list", "get", "bogus 1"] {
        let padded = format!(" \t{}\u{3000}\n", line);
        assert_eq!(format!("{:?}", parse_command(&padded)), format!("{:?}", parse_command(line)));
    }
}

#[test]
fn command_word_ignores_ascii_case() {
    for (a, b) in [("SET K V", "set K V"), ("Get Key", "gEt Key"), ("QUIT", "quit"), ("FooBar x", "foobar x")] {
        assert_eq!(format!("{:?}", parse_command(a)), format!("{:?}", parse_command(b)));
    }
    match parse_command("  SET K V ").unwrap() {
        Command::Request(Request::Put { key, value }) => {
            assert_eq!(key, "K");
            assert_eq!(value, "V");
        }
        other => panic!("unexpected {:?}", other),
    }
}

#[test]
fn client_steps() {
    assert!(matches!(client_step(" \n"), ClientStep::Skip));
    assert!(matches!(client_step("list\n"), ClientStep::Send(Request::List)));
    assert!(matches!(client_step("exit"), ClientStep::Quit));
    assert!(matches!(client_step("help"), ClientStep::Help));
    match client_step("nope") {
        ClientStep::Complain(m) => assert_eq!(m, "未知命令: nope"),
        other => panic!("unexpected {:?}", other),
    }
}

#[test]
fn reactions_to_exchanges() {
    let r = react(Exchange::Closed);
    assert!(r.stop && !r.to_stderr);
    assert_eq!(r.lines, vec!["服务器关闭连接"]);
    let r = react(Exchange::SendFailed("断开".into()));
    assert!(!r.stop && r.to_stderr);
    assert_eq!(r.lines, vec!["发送请求失败: 断开"]);
    let r = react(Exchange::ReceiveFailed("乱码".into()));
    assert!(!r.stop && r.to_stderr);
    assert_eq!(r.lines, vec!["接收响应失败: 乱码"]);
    let r = react(Exchange::Reply(Response::ok()));
    assert!(!r.stop && !r.to_stderr);
    assert_eq!(r.lines, vec!["OK"]);
}

#[test]
fn command_word_ignores_ascii_case_in_non_ascii_words() {
    for (a, b) in [("AΣ x", "aΣ x"), ("ΣA", "Σa"), ("SeTΣ k v", "setΣ k v"), ("İGET", "İget")] {
        assert_eq!(format!("{:?}", parse_command(a)), format!("{:?}", parse_command(b)));
    }
    for s in ["AΣ", "ΣA", "A.Σ", "XΣY", "İI", "ǅA", "ẞS"] {
        assert_eq!(s.to_lowercase(), s.to_ascii_lowercase().to_lowercase(), "{:?}", s);
    }
}
