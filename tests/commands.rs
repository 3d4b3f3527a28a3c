use mcp_server_gdb::commands::{
    escape_command, sort_dedup, BreakPointLocation, BreakPointNumber, DisassembleMode, MiCommand,
    WatchMode,
};

fn bp(major: usize, minor: Option<usize>) -> BreakPointNumber {
    BreakPointNumber { major, minor }
}

#[test]
fn encode_forms() {
    assert_eq!(MiCommand::exec_run().encode(3), "3-exec-run\n");
    assert_eq!(MiCommand::empty().encode(3), "\n");
    assert_eq!(
        MiCommand::insert_breakpoint(BreakPointLocation::Line("test_app.rs".to_string(), 5)).encode(1),
        "1-break-insert test_app.rs:5\n"
    );
    assert_eq!(
        MiCommand::insert_breakpoint(BreakPointLocation::Address(0x4005d0)).encode(2),
        "2-break-insert *0x4005d0\n"
    );
    assert_eq!(
        MiCommand::insert_breakpoint(BreakPointLocation::Function("a.c".to_string(), "main".to_string())).encode(2),
        "2-break-insert a.c:main\n"
    );
    assert_eq!(
        MiCommand::insert_watchpoing("x", WatchMode::Read).encode(4),
        "4-break-watch -r -- x\n"
    );
    assert_eq!(MiCommand::insert_watchpoing("x", WatchMode::Write).encode(4), "4-break-watch x\n");
    assert_eq!(MiCommand::insert_watchpoing("x", WatchMode::Access).encode(4), "4-break-watch -a -- x\n");
}

#[test]
fn escape_quotes_and_backslashes() {
    assert_eq!(escape_command("a\"b\\c\nd"), "\"a\\\"b\\\\c\nd\"");
    assert_eq!(
        MiCommand::cli_exec("info \"x\"").encode(9),
        "9-interpreter-exec console \"info \\\"x\\\"\"\n"
    );
    assert_eq!(
        MiCommand::data_evaluate_expression("a+b".to_string()).encode(1),
        "1-data-evaluate-expression \"a+b\"\n"
    );
}

#[test]
fn stack_list_frames_bounds() {
    assert_eq!(MiCommand::stack_list_frames(None, None).encode(0), "0-stack-list-frames\n");
    assert_eq!(MiCommand::stack_list_frames(Some(5), Some(2)).encode(0), "0-stack-list-frames 2 5\n");
    assert_eq!(MiCommand::stack_list_frames(Some(2), Some(5)).encode(0), "0-stack-list-frames 2 5\n");
    assert_eq!(MiCommand::stack_list_frames(Some(3), None).encode(0), "0-stack-list-frames 3 99999\n");
    assert_eq!(MiCommand::stack_list_frames(None, Some(4)).encode(0), "0-stack-list-frames 0 4\n");
}

#[test]
fn stack_list_variables_always_simple() {
    assert_eq!(
        MiCommand::stack_list_variables(None, Some(2)).encode(6),
        "6-stack-list-variables --frame 2 --simple-values\n"
    );
    assert_eq!(
        MiCommand::stack_list_variables(Some(1), None).encode(6),
        "6-stack-list-variables --thread 1 --simple-values\n"
    );
}

#[test]
fn delete_sorted_without_repeats() {
    let cmd = MiCommand::delete_breakpoints(vec![bp(3, None), bp(1, Some(2)), bp(1, None), bp(3, None), bp(1, Some(1))]);
    assert_eq!(cmd.encode(5), "5-break-delete 1 1.1 1.2 3\n");
    let sorted = sort_dedup(vec![bp(2, None), bp(2, None)]);
    assert_eq!(sorted, vec![bp(2, None)]);
    assert_eq!(sort_dedup(vec![]), vec![]);
}

#[test]
fn breakpoint_number_text() {
    assert_eq!(BreakPointNumber::from_str("12"), Ok(bp(12, None)));
    assert_eq!(BreakPointNumber::from_str("1.3"), Ok(bp(1, Some(3))));
    assert!(BreakPointNumber::from_str("").is_err());
    assert!(BreakPointNumber::from_str("1.").is_err());
    assert!(BreakPointNumber::from_str("a").is_err());
    assert!(BreakPointNumber::from_str("1.2.3").is_err());
    assert_eq!(bp(7, Some(4)).to_text(), "7.4");
    assert_eq!(bp(7, None).to_text(), "7");
    assert!(bp(1, None).less_than(&bp(1, Some(0))));
    assert!(bp(1, Some(9)).less_than(&bp(2, None)));
    assert!(!bp(2, None).less_than(&bp(2, None)));
}

#[test]
fn other_commands() {
    assert_eq!(
        MiCommand::data_disassemble_file("a.c", 10, None, DisassembleMode::MixedSourceAndDisassembly).encode(1),
        "1-data-disassemble -f a.c -l 10 -n -1 -- 1\n"
    );
    assert_eq!(
        MiCommand::data_disassemble_address(16, 32, DisassembleMode::DisassemblyWithRawOpcodes).encode(1),
        "1-data-disassemble -s 16 -e 32 -- 2\n"
    );
    assert_eq!(MiCommand::select_frame(3).encode(1), "1-stack-select-frame 3\n");
    assert_eq!(MiCommand::stack_info_frame(None).encode(1), "1-stack-info-frame\n");
    assert_eq!(MiCommand::thread_info(Some(2)).encode(1), "1-thread-info 2\n");
    assert_eq!(MiCommand::file_exec_and_symbols("/bin/ls").encode(1), "1-file-exec-and-symbols /bin/ls\n");
    assert_eq!(MiCommand::file_symbol_file(None).encode(1), "1-file-symbol-file\n");
    assert_eq!(
        MiCommand::list_thread_groups(true, &[1, 2]).encode(1),
        "1-list-thread-groups --available -- 1 2\n"
    );
    assert_eq!(
        MiCommand::var_create(None, "x", None).encode(1),
        "1-var-create \"-\" \"*\" \"x\"\n"
    );
    assert_eq!(MiCommand::var_delete("v1".to_string(), true).encode(1), "1-var-delete -c v1\n");
    assert_eq!(
        MiCommand::var_list_children("v1".to_string(), true, Some((0, 4))).encode(1),
        "1-var-list-children --all-values v1 0 4\n"
    );
    assert_eq!(MiCommand::exec_arguments(vec!["a".to_string()]).encode(1), "1-exec-arguments a\n");
    assert_eq!(MiCommand::exit().encode(1), "1-gdb-exit\n");
    assert_eq!(MiCommand::environment_pwd().encode(1), "1-environment-pwd\n");
    assert_eq!(MiCommand::exec_interrupt().encode(1), "1-exec-interrupt\n");
    assert_eq!(MiCommand::exec_step().encode(1), "1-exec-step\n");
    assert_eq!(MiCommand::stack_info_depth().encode(1), "1-stack-info-depth\n");
}
