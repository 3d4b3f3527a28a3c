use mcp_server_gdb::engine::{ReaderAction, GDB};
use mcp_server_gdb::output::{
    AsyncClass, AsyncKind, BreakPointEvent, OutOfBandRecord, Output, ResultClass, ResultRecord,
    StreamKind, ThreadEvent,
};
use mcp_server_gdb::value::MiValue;

fn s(x: &str) -> MiValue {
    MiValue::Str(x.to_string())
}

#[test]
fn test_output() {
    let output = Output::parse("=library-loaded,ranges=[{}]\n");
    if let Output::OutOfBand(record) = output {
        if let OutOfBandRecord::AsyncRecord { kind, class, results, .. } = record {
            assert_eq!(kind, AsyncKind::Notify);
            assert_eq!(class, AsyncClass::LibraryLoaded);
            assert_eq!(
                results.get("ranges"),
                Some(&MiValue::List(vec![MiValue::Tuple(vec![])]))
            );
        } else {
            panic!("output is not a out of band record");
        }
    } else {
        panic!("output is not a out of band record");
    }
}

#[test]
fn test_result_record() {
    let output = Output::parse(
        "^done,bkpt={number=\"1\",type=\"breakpoint\",disp=\"keep\",enabled=\"y\",addr=\"0x0000000000018fdf\",\
                  func=\"test_app::main::{async_block#0}\",file=\"src/bin/test_app.rs\",fullname=\"mcp_server_gdb/src/bin/test_app.rs\",\
                  line=\"5\",thread-groups=[\"i1\"],times=\"0\",original-location=\"test_app.rs:5\"}\n",
    );
    if let Output::Result(result) = output {
        assert_eq!(result.token, None);
        assert_eq!(result.class, ResultClass::Done);
        if let Some(bkpt) = result.results.get("bkpt") {
            assert_eq!(bkpt.get("number"), Some(&s("1")));
            assert_eq!(bkpt.get("type"), Some(&s("breakpoint")));
            assert_eq!(bkpt.get("disp"), Some(&s("keep")));
            assert_eq!(bkpt.get("enabled"), Some(&s("y")));
            assert_eq!(bkpt.get("addr"), Some(&s("0x0000000000018fdf")));
            assert_eq!(bkpt.get("thread-groups"), Some(&MiValue::List(vec![s("i1")])));
        } else {
            panic!("bkpt is not found");
        }
    } else {
        panic!("output is not a result record");
    }
}

#[test]
fn test_async_record() {
    let output = Output::parse(
        "*stopped,reason=\"breakpoint-hit\",disp=\"keep\",bkptno=\"1\",frame={addr=\"0x000055555557003f\",\
            func=\"test_app::main::{async_block#0}\",args=[],file=\"src/bin/test_app.rs\",\
            fullname=\"/mcp_server_gdb/src/bin/test_app.rs\",line=\"5\",arch=\"i386:x86-64\"},\
            thread-id=\"1\",stopped-threads=\"all\",core=\"6\"\n",
    );
    if let Output::OutOfBand(record) = output {
        if let OutOfBandRecord::AsyncRecord { kind, class, results, .. } = record {
            assert_eq!(kind, AsyncKind::Exec);
            assert_eq!(class, AsyncClass::Stopped);
            assert_eq!(results.get("reason"), Some(&s("breakpoint-hit")));
            assert_eq!(results.get("disp"), Some(&s("keep")));
            assert_eq!(results.get("bkptno"), Some(&s("1")));
            if let Some(frame) = results.get("frame") {
                assert_eq!(frame.get("addr"), Some(&s("0x000055555557003f")));
                assert_eq!(frame.get("func"), Some(&s("test_app::main::{async_block#0}")));
                assert_eq!(frame.get("args"), Some(&MiValue::List(vec![])));
                assert_eq!(frame.get("file"), Some(&s("src/bin/test_app.rs")));
                assert_eq!(frame.get("fullname"), Some(&s("/mcp_server_gdb/src/bin/test_app.rs")));
                assert_eq!(frame.get("line"), Some(&s("5")));
                assert_eq!(frame.get("arch"), Some(&s("i386:x86-64")));
            } else {
                panic!("frame is not found");
            }
            assert_eq!(results.get("thread-id"), Some(&s("1")));
            assert_eq!(results.get("stopped-threads"), Some(&s("all")));
            assert_eq!(results.get("core"), Some(&s("6")));
        } else {
            panic!("output is not a out of band record");
        }
    } else {
        panic!("output is not a out of band record");
    }
}

#[test]
fn token_extraction() {
    let output = Output::parse("123^done\n");
    assert_eq!(
        output,
        Output::Result(ResultRecord {
            token: Some(123),
            class: ResultClass::Done,
            results: MiValue::Tuple(vec![]),
        })
    );
}

#[test]
fn console_escape_newline() {
    let output = Output::parse("~\"a\\nb\"\n");
    assert_eq!(
        output,
        Output::OutOfBand(OutOfBandRecord::StreamRecord {
            kind: StreamKind::Console,
            data: "a\nb".to_string(),
        })
    );
}

#[test]
fn all_escapes() {
    let output = Output::parse("&\"\\t\\r\\b\\f\\\\\\/\\\"\\u{41}\\u{1F600}x\\   y\"\n");
    assert_eq!(
        output,
        Output::OutOfBand(OutOfBandRecord::StreamRecord {
            kind: StreamKind::Log,
            data: "\t\r\u{8}\u{c}\\/\"A\u{1F600}xy".to_string(),
        })
    );
}

#[test]
fn target_stream_and_crlf() {
    let output = Output::parse("@\"out\"\r\n");
    assert_eq!(
        output,
        Output::OutOfBand(OutOfBandRecord::StreamRecord {
            kind: StreamKind::Target,
            data: "out".to_string(),
        })
    );
}

#[test]
fn unparseable_lines_kept_verbatim() {
    for line in [
        "hello world\n",
        "^bogus\n",
        "^done,garbage\n",
        "~\"unterminated\n",
        "~\"bad escape \\q\"\n",
        "^done",
        "99999999999999999999^done\n",
        "=\n",
        "",
    ] {
        assert_eq!(Output::parse(line), Output::SomethingElse(line.to_string()), "{:?}", line);
    }
}

#[test]
fn unparseable_line_becomes_target_stream() {
    let mut gdb = GDB::new("gdb".to_string(), vec![]);
    let action = gdb.on_output(Output::parse("Reading symbols...\n"));
    assert_eq!(
        action,
        ReaderAction::ToOutOfBand(OutOfBandRecord::StreamRecord {
            kind: StreamKind::Target,
            data: "Reading symbols...\n".to_string(),
        })
    );
}

#[test]
fn prompt_line() {
    assert_eq!(Output::parse("(gdb) \n"), Output::GDBLine);
    let mut gdb = GDB::new("gdb".to_string(), vec![]);
    assert_eq!(gdb.on_output(Output::GDBLine), ReaderAction::Nothing);
}

#[test]
fn buggy_list_forms() {
    let lib = Output::parse("=library-loaded,ranges=[{}]\n");
    match lib {
        Output::OutOfBand(OutOfBandRecord::AsyncRecord { results, .. }) => {
            assert_eq!(results.get("ranges"), Some(&MiValue::List(vec![MiValue::Tuple(vec![])])));
        }
        other => panic!("unexpected {:?}", other),
    }
    let dup = Output::parse("^done,a=\"x\",a=\"y\"\n");
    match dup {
        Output::Result(r) => {
            assert_eq!(
                r.results,
                MiValue::Tuple(vec![("a".to_string(), MiValue::List(vec![s("x"), s("y")]))])
            );
        }
        other => panic!("unexpected {:?}", other),
    }
}

#[test]
fn repeated_name_three_times_and_order_kept() {
    let out = Output::parse("^done,a=\"1\",b=\"2\",a=\"3\",a=\"4\"\n");
    match out {
        Output::Result(r) => assert_eq!(
            r.results,
            MiValue::Tuple(vec![
                ("a".to_string(), MiValue::List(vec![s("1"), s("3"), s("4")])),
                ("b".to_string(), s("2")),
            ])
        ),
        other => panic!("unexpected {:?}", other),
    }
}

#[test]
fn bare_value_list_and_named_list() {
    let out = Output::parse("^done,a=\"x\",\"y\",l=[k=\"1\",k=\"2\"]\n");
    match out {
        Output::Result(r) => assert_eq!(
            r.results,
            MiValue::Tuple(vec![
                ("a".to_string(), MiValue::List(vec![s("x"), s("y")])),
                ("l".to_string(), MiValue::List(vec![s("1"), s("2")])),
            ])
        ),
        other => panic!("unexpected {:?}", other),
    }
}

#[test]
fn async_classes_and_kinds() {
    let cases = [
        ("*running,thread-id=\"all\"\n", AsyncKind::Exec, AsyncClass::Running),
        ("=thread-created,id=\"1\"\n", AsyncKind::Notify, AsyncClass::Thread(ThreadEvent::Created)),
        ("=thread-group-started,id=\"i1\"\n", AsyncKind::Notify, AsyncClass::Thread(ThreadEvent::GroupStarted)),
        ("=thread-exited,id=\"1\"\n", AsyncKind::Notify, AsyncClass::Thread(ThreadEvent::Exited)),
        ("=thread-group-exited,id=\"i1\"\n", AsyncKind::Notify, AsyncClass::Thread(ThreadEvent::GroupExited)),
        ("=thread-selected,id=\"1\"\n", AsyncKind::Notify, AsyncClass::Thread(ThreadEvent::Selected)),
        ("=cmd-param-changed,param=\"x\"\n", AsyncKind::Notify, AsyncClass::CmdParamChanged),
        ("=breakpoint-created,bkpt={}\n", AsyncKind::Notify, AsyncClass::BreakPoint(BreakPointEvent::Created)),
        ("=breakpoint-deleted,id=\"1\"\n", AsyncKind::Notify, AsyncClass::BreakPoint(BreakPointEvent::Deleted)),
        ("=breakpoint-modified,bkpt={}\n", AsyncKind::Notify, AsyncClass::BreakPoint(BreakPointEvent::Modified)),
        ("+download,section=\".text\"\n", AsyncKind::Status, AsyncClass::Other("download".to_string())),
        ("=thread-group-added,id=\"i1\"\n", AsyncKind::Notify, AsyncClass::Other("thread-group-added".to_string())),
    ];
    for (line, k, c) in cases {
        match Output::parse(line) {
            Output::OutOfBand(OutOfBandRecord::AsyncRecord { kind, class, .. }) => {
                assert_eq!(kind, k, "{}", line);
                assert_eq!(class, c, "{}", line);
            }
            other => panic!("{}: unexpected {:?}", line, other),
        }
    }
}

#[test]
fn result_classes() {
    for (line, c) in [
        ("^done\n", ResultClass::Done),
        ("^running\n", ResultClass::Running),
        ("^connected\n", ResultClass::Connected),
        ("^error,msg=\"No symbol table is loaded.\"\n", ResultClass::Error),
        ("^exit\n", ResultClass::Exit),
    ] {
        match Output::parse(line) {
            Output::Result(r) => assert_eq!(r.class, c),
            other => panic!("{}: unexpected {:?}", line, other),
        }
    }
}

#[test]
fn token_on_async_record() {
    match Output::parse("42*stopped\n") {
        Output::OutOfBand(OutOfBandRecord::AsyncRecord { token, class, .. }) => {
            assert_eq!(token, Some(42));
            assert_eq!(class, AsyncClass::Stopped);
        }
        other => panic!("unexpected {:?}", other),
    }
}

#[test]
fn largest_token() {
    match Output::parse("18446744073709551615^done\n") {
        Output::Result(r) => assert_eq!(r.token, Some(u64::MAX)),
        other => panic!("unexpected {:?}", other),
    }
}

#[test]
fn dump_as_json() {
    match Output::parse("^done,a=\"x\\\"y\",l=[\"1\",{b=\"2\"}],t={}\n") {
        Output::Result(r) => assert_eq!(r.results.dump(), "{\"a\":\"x\\\"y\",\"l\":[\"1\",{\"b\":\"2\"}],\"t\":{}}"),
        other => panic!("unexpected {:?}", other),
    }
    let v = MiValue::Str("a\nb\u{1}".to_string());
    assert_eq!(v.dump(), "\"a\\nb\\u0001\"");
    assert_eq!(MiValue::List(vec![]).dump(), "[]");
}
