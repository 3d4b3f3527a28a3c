use mcp_server_gdb::error::AppError;
use mcp_server_gdb::models::GDBSessionStatus;
use mcp_server_gdb::output::{Output, ResultRecord};
use mcp_server_gdb::registry::{next_status, SessionRegistry};
use mcp_server_gdb::tools::{
    breakpoint_from_result, breakpoint_set_text, breakpoints_from_table, closed_session_text, created_session_text,
    frames_from_result, parse_breakpoint_list, variables_from_result, Config,
};
use mcp_server_gdb::commands::{BreakPointNumber, MiCommand};

fn record(line: &str) -> ResultRecord {
    match Output::parse(line) {
        Output::Result(r) => r,
        other => panic!("not a result: {:?}", other),
    }
}

fn is_uuid(s: &str) -> bool {
    s.len() == 36
        && s.chars().enumerate().all(|(i, c)| {
            if i == 8 || i == 13 || i == 18 || i == 23 {
                c == '-'
            } else {
                c.is_ascii_digit() || ('a'..='f').contains(&c)
            }
        })
}

#[test]
fn create_and_close() {
    let mut reg = SessionRegistry::new();
    let id = reg.create_session(1700000000).unwrap();
    assert!(is_uuid(&id));
    let text = created_session_text(&id);
    assert!(text.starts_with("Created GDB session: "));
    assert!(is_uuid(&text["Created GDB session: ".len()..]));
    let s = reg.get_session(&id).unwrap();
    assert_eq!(s.status, GDBSessionStatus::Created);
    assert_eq!(s.created_at, 1700000000);
    assert!(reg.close_session(&id));
    assert_eq!(closed_session_text(), "Closed GDB session");
    assert!(matches!(reg.get_session(&id), Err(AppError::NotFound(_))));
    assert!(!reg.close_session(&id));
}

#[test]
fn sessions_are_distinct_and_listed() {
    let mut reg = SessionRegistry::new();
    let a = reg.create_session(1).unwrap();
    let b = reg.create_session(2).unwrap();
    assert_ne!(a, b);
    let all = reg.get_all_sessions();
    assert_eq!(all.len(), 2);
    assert_eq!(all[0].id, a);
    assert_eq!(all[1].id, b);
    reg.set_status(&b, GDBSessionStatus::Running);
    assert_eq!(reg.get_session(&b).unwrap().status, GDBSessionStatus::Running);
    assert_eq!(reg.get_session(&a).unwrap().status, GDBSessionStatus::Created);
    assert!(matches!(reg.get_session("nope"), Err(AppError::NotFound(_))));
}

#[test]
fn set_breakpoint_scenario() {
    let cmd = MiCommand::insert_breakpoint(mcp_server_gdb::commands::BreakPointLocation::Line(
        "test_app.rs".to_string(),
        5,
    ));
    assert_eq!(cmd.encode(1), "1-break-insert test_app.rs:5\n");
    let rec = record("1^done,bkpt={number=\"1\",type=\"breakpoint\",disp=\"keep\",enabled=\"y\",addr=\"0x0000000000018fdf\",func=\"main\",file=\"test_app.rs\",fullname=\"/p/src/bin/test_app.rs\",line=\"5\",thread-groups=[\"i1\"],times=\"0\",original-location=\"test_app.rs:5\"}\n");
    let b = breakpoint_from_result(&rec).unwrap();
    assert_eq!(b.number, BreakPointNumber { major: 1, minor: None });
    let text = breakpoint_set_text(&b.number, "test_app.rs", 5);
    assert!(text.contains("\"file\": \"test_app.rs\""));
    assert!(text.contains("\"line\": 5"));
    assert_eq!(text, "Set breakpoint: {\"number\": \"1\", \"file\": \"test_app.rs\", \"line\": 5}");
    assert_eq!(b.src_pos.unwrap().line, 5);
    assert!(breakpoint_from_result(&record("^done\n")).is_err());
}

#[test]
fn list_results() {
    let table = record("^done,BreakpointTable={nr_rows=\"2\",nr_cols=\"6\",hdr=[{width=\"3\",alignment=\"-1\",col_name=\"number\",colhdr=\"Num\"}],body=[bkpt={number=\"1\",type=\"breakpoint\",disp=\"keep\",enabled=\"y\",addr=\"0x1\"},bkpt={number=\"2\",type=\"breakpoint\",disp=\"keep\",enabled=\"n\"}]}\n");
    let bps = breakpoints_from_table(&table).unwrap();
    assert_eq!(bps.len(), 2);
    assert_eq!(bps[1].number, BreakPointNumber { major: 2, minor: None });
    let frames = frames_from_result(&record("^done,stack=[frame={level=\"0\",addr=\"0x1\",func=\"main\"},frame={level=\"1\",addr=\"0x2\",func=\"start\"}]\n")).unwrap();
    assert_eq!(frames.len(), 2);
    assert_eq!(frames[1].function, "start");
    let vars = variables_from_result(&record("^done,variables=[{name=\"x\",type=\"int\",value=\"1\"},{name=\"y\"}]\n")).unwrap();
    assert_eq!(vars.len(), 2);
    assert_eq!(vars[1].name, "y");
    assert!(frames_from_result(&record("^done\n")).is_err());
    assert!(variables_from_result(&record("^done,variables=[{type=\"int\"}]\n")).is_err());
}

#[test]
fn breakpoint_list_argument() {
    assert_eq!(
        parse_breakpoint_list("3, 1.2,1").unwrap(),
        vec![
            BreakPointNumber { major: 3, minor: None },
            BreakPointNumber { major: 1, minor: Some(2) },
            BreakPointNumber { major: 1, minor: None },
        ]
    );
    assert!(matches!(parse_breakpoint_list("1,x"), Err(AppError::InvalidArgument(_))));
    assert!(parse_breakpoint_list("").is_err());
    let cmd = MiCommand::delete_breakpoints(parse_breakpoint_list("3,1,3").unwrap());
    assert_eq!(cmd.encode(2), "2-break-delete 1 3\n");
}

#[test]
fn config_values() {
    let c = Config::from_values(None, None, None).unwrap();
    assert_eq!(c.server_ip, "127.0.0.1");
    assert_eq!(c.server_port, 8080);
    assert_eq!(c.command_timeout, 10);
    let c = Config::from_values(Some("0.0.0.0".to_string()), Some("9000".to_string()), Some("x".to_string())).unwrap();
    assert_eq!(c.server_ip, "0.0.0.0");
    assert_eq!(c.server_port, 9000);
    assert_eq!(c.command_timeout, 10);
    let c = Config::from_values(None, None, Some("1".to_string())).unwrap();
    assert_eq!(c.command_timeout, 1);
    assert!(matches!(Config::from_values(None, Some("70000".to_string()), None), Err(AppError::InvalidArgument(_))));
}

#[test]
fn error_messages() {
    let cases = [
        (AppError::GDBError("x".to_string()), "GDBError", "GDB error: x"),
        (AppError::GDBTimeout, "GDBTimeout", "GDB timeout"),
        (AppError::GDBBusy, "GDBBusy", "GDB busy"),
        (AppError::GDBQuit, "GDBQuit", "GDB quit"),
        (AppError::ParseError("p".to_string()), "ParseError", "Parse error: p"),
        (AppError::IoError("io".to_string()), "IoError", "IO error: io"),
        (AppError::NotFound("n".to_string()), "NotFound", "Resource not found: n"),
        (AppError::InvalidArgument("a".to_string()), "InvalidArgument", "Invalid argument: a"),
    ];
    for (e, kind, msg) in cases {
        assert_eq!(e.kind_name(), kind);
        assert_eq!(e.message(), msg);
    }
}

#[test]
fn status_follows_reports() {
    let running = Output::parse("1^running\n");
    let stopped = Output::parse("*stopped,reason=\"end-stepping-range\"\n");
    let error = Output::parse("2^error,msg=\"x\"\n");
    let exit = Output::parse("3^exit\n");
    let text = Output::parse("~\"hi\"\n");
    assert_eq!(next_status(GDBSessionStatus::Created, &running), GDBSessionStatus::Running);
    assert_eq!(next_status(GDBSessionStatus::Running, &stopped), GDBSessionStatus::Stopped);
    assert_eq!(next_status(GDBSessionStatus::Running, &error), GDBSessionStatus::Stopped);
    assert_eq!(next_status(GDBSessionStatus::Created, &error), GDBSessionStatus::Created);
    assert_eq!(next_status(GDBSessionStatus::Stopped, &running), GDBSessionStatus::Running);
    assert_eq!(next_status(GDBSessionStatus::Stopped, &exit), GDBSessionStatus::Terminated);
    assert_eq!(next_status(GDBSessionStatus::Terminated, &running), GDBSessionStatus::Terminated);
    assert_eq!(next_status(GDBSessionStatus::Running, &text), GDBSessionStatus::Running);

    let mut reg = SessionRegistry::new();
    let id = reg.create_session(5).unwrap();
    reg.observe_output(&id, &running);
    assert_eq!(reg.get_session(&id).unwrap().status, GDBSessionStatus::Running);
    reg.observe_output(&id, &stopped);
    assert_eq!(reg.get_session(&id).unwrap().status, GDBSessionStatus::Stopped);
    reg.observe_output("missing", &running);
    assert_eq!(reg.get_all_sessions().len(), 1);
}

#[test]
fn identifiers_never_reused() {
    let mut reg = SessionRegistry::new();
    assert!(reg.insert_session("abc".to_string(), 1).is_ok());
    assert!(matches!(reg.insert_session("abc".to_string(), 2), Err(AppError::InvalidArgument(_))));
    assert!(reg.close_session("abc"));
    assert!(matches!(reg.insert_session("abc".to_string(), 3), Err(AppError::InvalidArgument(_))));
    assert!(reg.get_session("abc").is_err());
    let id = reg.create_session(4).unwrap();
    assert_eq!(reg.get_session(&id).unwrap().status, GDBSessionStatus::Created);
    assert_eq!(reg.get_all_sessions().len(), 1);
}
