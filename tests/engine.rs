use mcp_server_gdb::builder::GDBBuilder;
use mcp_server_gdb::commands::MiCommand;
use mcp_server_gdb::engine::{ExecuteError, ReaderAction, GDB};
use mcp_server_gdb::error::AppError;
use mcp_server_gdb::output::{AsyncClass, OutOfBandRecord, Output, ResultClass, ResultRecord};
use mcp_server_gdb::value::MiValue;

fn record(line: &str) -> ResultRecord {
    match Output::parse(line) {
        Output::Result(r) => r,
        other => panic!("not a result: {:?}", other),
    }
}

fn engine() -> GDB {
    GDB::new("gdb".to_string(), vec!["--nh".to_string()])
}

/// Runs one command through to a matching `^done`.
fn complete(gdb: &mut GDB, cmd: &MiCommand) -> u64 {
    let (token, _) = gdb.begin_execute(cmd).unwrap();
    let reply = record(&format!("{}^done\n", token));
    assert!(matches!(gdb.accept_result(Some(reply)), Some(Ok(_))));
    token
}

#[test]
fn tokens_count_up_from_zero() {
    let mut gdb = engine();
    assert_eq!(gdb.binary_path(), "gdb");
    assert_eq!(gdb.init_options(), &vec!["--nh".to_string()]);
    assert_eq!(complete(&mut gdb, &MiCommand::breakpoints_list()), 0);
    assert_eq!(complete(&mut gdb, &MiCommand::breakpoints_list()), 1);
    assert_eq!(gdb.new_token(), 2);
    assert_eq!(gdb.new_token(), 3);
}

#[test]
fn second_command_while_one_in_flight_is_busy() {
    let mut gdb = engine();
    let (token, wire) = gdb.begin_execute(&MiCommand::exec_run()).unwrap();
    assert_eq!(token, 0);
    assert_eq!(wire, "0-exec-run\n");
    assert!(gdb.has_pending());
    assert_eq!(gdb.begin_execute(&MiCommand::breakpoints_list()), Err(AppError::GDBBusy));
    assert_eq!(gdb.begin_execute(&MiCommand::breakpoints_list()), Err(AppError::GDBBusy));
    assert!(gdb.has_pending());
}

#[test]
fn result_token_matching() {
    let mut gdb = engine();
    for _ in 0..7 {
        complete(&mut gdb, &MiCommand::breakpoints_list());
    }
    let (token, wire) = gdb.begin_execute(&MiCommand::breakpoints_list()).unwrap();
    assert_eq!(token, 7);
    assert_eq!(wire, "7-break-list\n");
    let got = gdb.accept_result(Some(record("7^done,foo=\"bar\"\n")));
    assert_eq!(
        got,
        Some(Ok(ResultRecord {
            token: Some(7),
            class: ResultClass::Done,
            results: MiValue::Tuple(vec![("foo".to_string(), MiValue::Str("bar".to_string()))]),
        }))
    );
    // An unexpected result with nothing in flight is dropped.
    assert_eq!(gdb.accept_result(Some(record("8^done\n"))), None);
    let (next, _) = gdb.begin_execute(&MiCommand::breakpoints_list()).unwrap();
    assert_eq!(next, 8);
}

#[test]
fn mismatched_token_fails_with_invalid_argument() {
    let mut gdb = engine();
    let (token, _) = gdb.begin_execute(&MiCommand::breakpoints_list()).unwrap();
    assert_eq!(token, 0);
    let got = gdb.accept_result(Some(record("5^done\n")));
    assert!(matches!(got, Some(Err(AppError::InvalidArgument(_)))));
    assert!(!gdb.has_pending());
    let (_, _) = gdb.begin_execute(&MiCommand::breakpoints_list()).unwrap();
    let missing = gdb.accept_result(Some(record("^done\n")));
    assert!(matches!(missing, Some(Err(AppError::InvalidArgument(_)))));
}

#[test]
fn flush_accepts_result_without_token() {
    let mut gdb = engine();
    let (_, wire) = gdb.begin_execute(&MiCommand::empty()).unwrap();
    assert_eq!(wire, "\n");
    let got = gdb.accept_result(Some(record("^done\n")));
    assert!(matches!(got, Some(Ok(_))));
}

#[test]
fn closed_channel_is_quit() {
    let mut gdb = engine();
    gdb.begin_execute(&MiCommand::exec_next()).unwrap();
    assert_eq!(gdb.accept_result(None), Some(Err(AppError::GDBQuit)));
    assert!(!gdb.has_pending());
}

#[test]
fn running_flag_follows_output() {
    let mut gdb = engine();
    assert!(!gdb.is_running());
    let a = gdb.on_output(Output::parse("0^running\n"));
    assert!(matches!(a, ReaderAction::ToResult(_)));
    assert!(gdb.is_running());
    assert_eq!(gdb.begin_execute(&MiCommand::breakpoints_list()), Err(AppError::GDBBusy));
    gdb.on_output(Output::parse("*running,thread-id=\"all\"\n"));
    assert!(gdb.is_running());
    gdb.on_output(Output::parse("~\"text\"\n"));
    assert!(gdb.is_running());
    let stop = gdb.on_output(Output::parse(
        "*stopped,reason=\"breakpoint-hit\",bkptno=\"1\",frame={addr=\"0x400123\",func=\"main\",args=[],file=\"a.c\",line=\"5\"}\n",
    ));
    match stop {
        ReaderAction::ToOutOfBand(OutOfBandRecord::AsyncRecord { class, .. }) => {
            assert_eq!(class, AsyncClass::Stopped)
        }
        other => panic!("unexpected {:?}", other),
    }
    assert!(!gdb.is_running());
    gdb.on_output(Output::parse("1^running\n"));
    assert!(gdb.is_running());
    gdb.on_output(Output::parse("2^error,msg=\"x\"\n"));
    assert!(!gdb.is_running());
}

#[test]
fn timeout_then_stale_result_is_drained() {
    let mut gdb = engine();
    let (slow, _) = gdb.begin_execute(&MiCommand::exec_continue()).unwrap();
    gdb.abandon();
    assert!(!gdb.has_pending());
    let (next, _) = gdb.begin_execute(&MiCommand::breakpoints_list()).unwrap();
    assert_eq!(next, slow + 1);
    // The late reply to the abandoned command is dropped; the current one still waits.
    assert_eq!(gdb.accept_result(Some(record(&format!("{}^done\n", slow)))), None);
    assert!(gdb.has_pending());
    let got = gdb.accept_result(Some(record(&format!("{}^done\n", next))));
    assert!(matches!(got, Some(Ok(_))));
}

#[test]
fn builder_command_line() {
    let mut b = GDBBuilder::new("gdb".to_string());
    b.opt_nh = true;
    b.opt_quiet = true;
    b.opt_bps = Some(9600);
    b.opt_proc_id = Some(42);
    b.opt_cd = Some("/tmp".to_string());
    b.opt_program = Some("a.out".to_string());
    assert_eq!(
        b.command_line().unwrap(),
        vec!["--interpreter=mi", "--nh", "--quiet", "--cd=/tmp", "-b", "9600", "--pid=42", "a.out"]
    );
    assert_eq!(b.init_options(), vec!["--nh".to_string()]);
    b.opt_args = vec!["x".to_string(), "y".to_string()];
    assert_eq!(
        b.command_line().unwrap(),
        vec!["--interpreter=mi", "--nh", "--quiet", "--cd=/tmp", "-b", "9600", "--pid=42", "--args", "a.out", "x", "y"]
    );
    b.opt_program = None;
    assert!(matches!(b.command_line(), Err(AppError::InvalidArgument(_))));
}

#[test]
fn builder_all_path_options() {
    let mut b = GDBBuilder::new("gdb".to_string());
    b.opt_nx = true;
    b.opt_symbol_file = Some("s".to_string());
    b.opt_core_file = Some("c".to_string());
    b.opt_command = Some("cmds".to_string());
    b.opt_source_dir = Some("src".to_string());
    b.opt_tty = Some("/dev/pts/1".to_string());
    assert_eq!(
        b.command_line().unwrap(),
        vec!["--interpreter=mi", "--nx", "--symbols=s", "--core=c", "--command=cmds", "--directory=src", "--tty=/dev/pts/1"]
    );
}

#[test]
fn execute_error_meaning() {
    assert_eq!(ExecuteError::Busy.into_app_error(), AppError::GDBBusy);
    assert_eq!(ExecuteError::Quit.into_app_error(), AppError::GDBQuit);
}

#[test]
fn error_reply_becomes_gdb_error() {
    let mut gdb = engine();
    let (token, _) = gdb.begin_execute(&MiCommand::exec_run()).unwrap();
    assert_eq!(gdb.pending_token(), Some(token));
    let got = gdb.accept_result(Some(record(&format!("{}^error,msg=\"No executable specified.\"\n", token))));
    assert_eq!(got, Some(Err(AppError::GDBError("No executable specified.".to_string()))));
    assert_eq!(gdb.pending_token(), None);
    let (t2, _) = gdb.begin_execute(&MiCommand::exec_run()).unwrap();
    let bare = gdb.accept_result(Some(record(&format!("{}^error\n", t2))));
    assert_eq!(bare, Some(Err(AppError::GDBError(String::new()))));
}
