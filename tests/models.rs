use mcp_server_gdb::commands::BreakPointNumber;
use mcp_server_gdb::dashboard::{classify_val, find_first_heap, find_first_stack, Mode};
use mcp_server_gdb::memory::{parse_memory_mappings_new, parse_memory_mappings_old, MemoryMapping};
use mcp_server_gdb::models::{
    Address, Address128, Address64, BreakPoint, BreakPointSet, Enabled, MemoryType, PrintValue,
    Register, RegisterRaw, StackFrame, Variable,
};
use mcp_server_gdb::output::Output;
use mcp_server_gdb::resolve::{ResolveSymbol, TrackedRegister};
use mcp_server_gdb::value::MiValue;

fn tuple(line: &str) -> MiValue {
    match Output::parse(&format!("^done,{}\n", line)) {
        Output::Result(r) => r.results,
        other => panic!("unexpected {:?}", other),
    }
}

#[test]
fn test_address() {
    let v = tuple("addr=\"0x1234abcd\",opt_addr=\"0xABCD1234\"");
    let addr = Address::<u64>::from_text(v.get_str("addr").unwrap());
    let opt_addr = v.get_str("opt_addr").map(|t| Address::<u64>::from_text(t));
    assert_eq!(addr, Address(0x1234abcd));
    assert_eq!(opt_addr, Some(Address(0xabcd1234)));
}

#[test]
fn test_register_normal_value() {
    let v = tuple("reg={number=\"1\",value=\"0x1234\"}");
    let reg = Register::from_value(v.get("reg").unwrap()).unwrap();
    assert_eq!(reg.number, 1);
    assert_eq!(reg.value, Some(RegisterRaw::U64(Address(0x1234))));
}

#[test]
fn test_register_composite_value() {
    let v = tuple("reg={number=\"1\",value=\"builtin_type_vec256i {v16_bfloat16: [0x4, 0x0, 0x0, 0x0, 0x7c80, 0x556b, 0x5555, 0x0, 0x0, 0x0, 0x0, 0x0, 0x0, 0x0, 0x0, 0x0], v16_half: [0x4, 0x0, 0x0, 0x0, 0x7c80, 0x556b, 0x5555, 0x0, 0x0, 0x0, 0x0, 0x0, 0x0, 0x0, 0x0, 0x0], v8_float: [0x4, 0x0, 0x556b7c80, 0x5555, 0x0, 0x0, 0x0, 0x0], v4_double: [0x4, 0x5555556b7c80, 0x0, 0x0], v32_int8: [0x4, 0x0, 0x0, 0x0, 0x0, 0x0, 0x0, 0x0, 0x80, 0x7c, 0x6b, 0x55, 0x55, 0x55, 0x0 <repeats 18 times>], v16_int16: [0x4, 0x0, 0x0, 0x0, 0x7c80, 0x556b, 0x5555, 0x0, 0x0, 0x0, 0x0, 0x0, 0x0, 0x0, 0x0, 0x0], v8_int32: [0x4, 0x0, 0x556b7c80, 0x5555, 0x0, 0x0, 0x0, 0x0], v4_int64: [0x4, 0x5555556b7c80, 0x0, 0x0], v2_int128: [0x5555556b7c800000000000000004, 0x0]}\"}");
    let reg = Register::from_value(v.get("reg").unwrap()).unwrap();
    assert_eq!(
        reg.value,
        Some(RegisterRaw::U256(
            Address::<u128>(0x5555556b7c800000000000000004),
            Address::<u128>(0)
        ))
    );
}

#[test]
fn register_v2_int64_is_low_then_high() {
    assert_eq!(
        RegisterRaw::from_text("{v4_float = [0x0], v2_int64: [0x1, 0x2]}"),
        Ok(RegisterRaw::U128(Address((2u128 << 64) + 1)))
    );
    assert!(RegisterRaw::from_text("{v4_int32: [0x1]}").is_err());
    assert!(RegisterRaw::from_text("v2_int64 [0x1, 0x2]").is_err());
    assert_eq!(Address128::new(Address(1), Address(2)), Address((2u128 << 64) + 1));
}

#[test]
fn register_errors() {
    assert!(Register::from_value(&tuple("number=\"x\"")).is_err());
    assert!(Register::from_value(&tuple("number=\"1\",value=\"junk\"")).is_err());
    let ok = Register::from_value(&tuple("number=\"2\",error=\"unavailable\"")).unwrap();
    assert_eq!(ok.error, Some("unavailable".to_string()));
    assert_eq!(ok.value, None);
    assert_eq!(ok.name, None);
}

#[test]
fn address_forms() {
    assert_eq!(Address::<u64>::from_text("ff"), Address(255));
    assert_eq!(Address::<u64>::from_text("zz"), Address(0));
    assert_eq!(Address::<u32>::from_text("0x1ffffffff"), Address(0));
    assert_eq!(Address::<u64>::from_text("0x400123").to_text(), "0x400123");
    assert_eq!(Address64::from_text("0x0").to_text(), "0x0");
}

#[test]
fn breakpoint_record() {
    let v = tuple("bkpt={number=\"1\",type=\"breakpoint\",disp=\"keep\",enabled=\"y\",addr=\"0x0000000000018fdf\",file=\"test_app.rs\",fullname=\"/x/src/bin/test_app.rs\",line=\"5\"}");
    let b = BreakPoint::from_value(v.get("bkpt").unwrap()).unwrap();
    assert_eq!(b.number, BreakPointNumber { major: 1, minor: None });
    assert_eq!(b.address, Some(Address(0x18fdf)));
    assert_eq!(b.enabled, Enabled(true));
    let pos = b.src_pos.unwrap();
    assert_eq!(pos.fullname, "/x/src/bin/test_app.rs");
    assert_eq!(pos.line, 5);
    assert_eq!(b.bp_type, "breakpoint");
    assert_eq!(b.display, "keep");
    assert!(BreakPoint::from_value(&tuple("number=\"1\"")).is_err());
    assert_eq!(Enabled::from_text("n"), Enabled(false));
}

#[test]
fn frame_and_variable_records() {
    let f = StackFrame::from_value(&tuple("level=\"0\",addr=\"0x400123\",func=\"main\",file=\"a.c\",line=\"5\",arch=\"i386:x86-64\"")).unwrap();
    assert_eq!(f.level, 0);
    assert_eq!(f.function, "main");
    assert_eq!(f.line, Some(5));
    assert_eq!(f.address, Some(Address(0x400123)));
    assert_eq!(f.file, Some("a.c".to_string()));
    assert_eq!(f.fullname, None);
    assert!(StackFrame::from_value(&tuple("level=\"x\",func=\"main\"")).is_err());
    assert!(StackFrame::from_value(&tuple("level=\"0\",func=\"main\",line=\"five\"")).is_err());
    let v = Variable::from_value(&tuple("name=\"x\",type=\"int\",value=\"3\"")).unwrap();
    assert_eq!(v.name, "x");
    assert_eq!(v.var_type, Some("int".to_string()));
    assert_eq!(v.value, Some("3".to_string()));
    assert!(Variable::from_value(&tuple("type=\"int\"")).is_err());
}

#[test]
fn print_value_numbers() {
    assert_eq!(PrintValue::from_str("0").unwrap(), PrintValue::NoValues);
    assert_eq!(PrintValue::from_str("1").unwrap(), PrintValue::AllValues);
    assert_eq!(PrintValue::from_str("2").unwrap(), PrintValue::SimpleValues);
    assert!(PrintValue::from_str("3").is_err());
    assert!(PrintValue::from_str("x").is_err());
}

#[test]
fn memory_mappings_both_layouts() {
    let new = "Start Addr End Addr Size Offset Perms objfile\n\
               0x555555554000 0x555555556000 0x2000 0x0 r--p /home/a/a.out\n\
               0x7ffffffde000 0x7ffffffff000 0x21000 0x0 rwxp [stack]\n\
               garbage line\n\
               0x1000 0x2000 0x1000 0x0 r-xp\n";
    let m = parse_memory_mappings_new(new);
    assert_eq!(m.len(), 3);
    assert_eq!(m[0].start_address, 0x555555554000);
    assert_eq!(m[0].path, Some("/home/a/a.out".to_string()));
    assert_eq!(m[0].permissions, Some("r--p".to_string()));
    assert!(m[1].is_stack());
    assert!(m[1].is_exec());
    assert!(!m[0].is_exec());
    assert_eq!(m[2].path, None);
    assert!(m[0].is_path("a.out"));
    assert!(!m[0].is_path("b.out"));
    assert!(m[0].contains(0x555555554000));
    assert!(!m[0].contains(0x555555556000));

    let old = "header\r\n0x1000 0x2000 0x1000 0x0 [heap]\r\n";
    let o = parse_memory_mappings_old(old);
    assert_eq!(o.len(), 1);
    assert!(o[0].is_heap());
    assert_eq!(o[0].permissions, None);
    assert!(MemoryMapping::from_str_old("0x1 0x2").is_err());
    assert!(MemoryMapping::from_str_new("1 2 3 4 rw").is_err());
    assert_eq!(parse_memory_mappings_new("").len(), 0);
    let wide = parse_memory_mappings_old("h\n0x1000\u{3000}0x2000\u{a0}0x1000 0x0 /bin/x\n");
    assert_eq!(wide.len(), 1);
    assert_eq!(wide[0].end_address, 0x2000);
}

#[test]
fn classify_values() {
    let maps = Some(parse_memory_mappings_new(
        "h\n0x1000 0x2000 0x1000 0x0 rw-p [heap]\n0x3000 0x4000 0x1000 0x0 rw-p [stack]\n0x5000 0x6000 0x1000 0x0 r-xp /bin/ls\n0x7000 0x8000 0x1000 0x0 rw-p /lib/x.so\n",
    ));
    assert_eq!(classify_val(&maps, 0x1800, "a.out"), MemoryType::Heap);
    assert_eq!(classify_val(&maps, 0x3800, "a.out"), MemoryType::Stack);
    assert_eq!(classify_val(&maps, 0x5800, "a.out"), MemoryType::Exec);
    assert_eq!(classify_val(&maps, 0x7800, "x.so"), MemoryType::Exec);
    assert_eq!(classify_val(&maps, 0x7800, "a.out"), MemoryType::Unknown);
    assert_eq!(classify_val(&maps, 0, "a.out"), MemoryType::Unknown);
    assert_eq!(classify_val(&None, 0x1800, "a.out"), MemoryType::Unknown);
    assert_eq!(find_first_heap(&maps), Some(0));
    assert_eq!(find_first_stack(&maps), Some(1));
    assert_eq!(find_first_stack(&None), None);
}

#[test]
fn repeating_chains() {
    let mut r = ResolveSymbol::new();
    assert!(r.try_push(1));
    assert!(!r.try_push(1));
    assert!(r.repeated_pattern);
    assert_eq!(r.map.len(), 1);

    let mut r = ResolveSymbol::new();
    for v in [1, 2, 3, 4] {
        assert!(r.try_push(v));
    }
    assert!(r.try_push(1));
    assert!(!r.try_push(2));
    assert_eq!(r.map.iter().copied().collect::<Vec<u64>>(), vec![1, 2, 3, 4, 1]);
    assert!(r.has_repeating_pattern() == false);
    let t = TrackedRegister::new(None, r);
    assert!(t.register.is_none());
}

#[test]
fn breakpoint_set_updates() {
    let v = tuple("number=\"1\",type=\"breakpoint\",disp=\"keep\",enabled=\"y\"");
    let b1 = BreakPoint::from_value(&v).unwrap();
    let v2 = tuple("number=\"1\",type=\"breakpoint\",disp=\"del\",enabled=\"n\"");
    let b1b = BreakPoint::from_value(&v2).unwrap();
    let v3 = tuple("number=\"2\",type=\"breakpoint\",disp=\"keep\",enabled=\"y\"");
    let b2 = BreakPoint::from_value(&v3).unwrap();
    let mut set = BreakPointSet::new();
    set.update_breakpoint(b1);
    set.update_breakpoint(b2);
    set.update_breakpoint(b1b);
    assert_eq!(set.len(), 2);
    let one = BreakPointNumber { major: 1, minor: None };
    assert_eq!(set.get(one).unwrap().display, "del");
    assert_eq!(set.last_change(), 3);
    set.remove_breakpoint(one);
    assert_eq!(set.len(), 1);
    assert!(set.get(one).is_none());
    assert_eq!(set.last_change(), 4);
}

#[test]
fn mode_cycle() {
    let mut m = Mode::All;
    for _ in 0..7 {
        m = m.next();
    }
    assert_eq!(m, Mode::All);
    assert_eq!(Mode::OnlyHexdump.next(), Mode::All);
    assert_eq!(Mode::All.next(), Mode::OnlyRegister);
}
