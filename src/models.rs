use vstd::prelude::*;

use crate::commands::{bp_number_of, BreakPointNumber};
use crate::error::AppError;
use crate::text::{
    all_hex, chars_of, copy_range, dec_of, dec_text, hex_chars, hex_str, hex_value, is_alnum,
    owned, parse_hex_wide, push_all, spells, string_of,
};
use crate::value::{field, opt_str_ok, str_field, str_view, MiValue, Val};

verus! {

/// A debugging session as reported to clients.
#[derive(Debug, Clone)]
pub struct GDBSession {
    /// Session identifier
    pub id: String,
    /// Session status
    pub status: GDBSessionStatus,
    /// Creation time, in seconds since the Unix epoch
    pub created_at: u64,
}

#[derive(Debug, Clone, Copy, PartialEq, Eq, Structural)]
pub enum GDBSessionStatus {
    /// Created but not started
    Created,
    /// The program runs
    Running,
    /// The program stopped
    Stopped,
    /// The session ended
    Terminated,
}

/// A raw machine-interface command.
#[derive(Debug, Clone)]
pub struct GDBCommandRequest {
    pub command: String,
}

/// A request to create a session.
#[derive(Debug, Clone)]
pub struct CreateSessionRequest {
    /// Executable to debug
    pub executable_path: Option<String>,
}

/// A source position: full path and line.
#[derive(Debug, Clone, PartialEq, Eq)]
pub struct SrcPosition {
    pub fullname: String,
    pub line: usize,
}

/// A machine address.
#[derive(Debug, Clone, Copy, PartialEq, Eq, PartialOrd, Ord, Hash, Structural)]
pub struct Address<T>(pub T);

pub type Address32 = Address<u32>;

pub type Address64 = Address<u64>;

pub type Address128 = Address<u128>;

/// Where the digits of an address start: after a leading `0x`, if any.
pub open spec fn hex_start(t: Seq<char>) -> int {
    if t.len() >= 2 && t[0] == '0' && t[1] == 'x' {
        2
    } else {
        0
    }
}

/// The number an address text spells in hexadecimal (`0x` optional), or 0
/// when it is not hexadecimal or exceeds `max`.
pub open spec fn address_value(t: Seq<char>, max: nat) -> nat {
    let a = hex_start(t);
    if a < t.len() && all_hex(t, a, t.len() as int) && hex_value(t, a, (t.len() - a) as nat)
        <= max {
        hex_value(t, a, (t.len() - a) as nat)
    } else {
        0
    }
}

fn address_of_chars(t: &Vec<char>, max: u128) -> (r: u128)
    ensures
        r as nat == address_value(t@, max as nat),
        r <= max,
{
    let a: usize = if t.len() >= 2 && t[0] == '0' && t[1] == 'x' {
        2
    } else {
        0
    };
    if a < t.len() {
        match parse_hex_wide(t, a, t.len()) {
            Some(v) => {
                if v <= max {
                    v
                } else {
                    0
                }
            },
            None => 0,
        }
    } else {
        0
    }
}

impl Address<u32> {
    /// Reads a hexadecimal address (`0x` optional); 0 when it does not fit.
    pub fn from_text(s: &str) -> (r: Address<u32>)
        ensures
            r.0 as nat == address_value(s@, u32::MAX as nat),
    {
        let c = chars_of(s);
        Address(address_of_chars(&c, u32::MAX as u128) as u32)
    }
}

impl Address<u64> {
    /// Reads a hexadecimal address (`0x` optional); 0 when it does not fit.
    pub fn from_text(s: &str) -> (r: Address<u64>)
        ensures
            r.0 as nat == address_value(s@, u64::MAX as nat),
    {
        let c = chars_of(s);
        Address(address_of_chars(&c, u64::MAX as u128) as u64)
    }

    /// `0x` followed by the address in lowercase hexadecimal.
    pub fn to_text(&self) -> (r: String)
        ensures
            r@ == seq!['0', 'x'] + hex_str(self.0 as nat),
    {
        let mut out: Vec<char> = Vec::new();
        out.push('0');
        out.push('x');
        let mut h = hex_chars(self.0);
        out.append(&mut h);
        proof {
            assert(out@ =~= seq!['0', 'x'] + hex_str(self.0 as nat));
        }
        string_of(&out)
    }
}

impl Address<u128> {
    /// Reads a hexadecimal address (`0x` optional); 0 when it does not fit.
    pub fn from_text(s: &str) -> (r: Address<u128>)
        ensures
            r.0 as nat == address_value(s@, u128::MAX as nat),
    {
        let c = chars_of(s);
        Address(address_of_chars(&c, u128::MAX))
    }

    /// The 128-bit value whose low half is `low` and high half is `high`.
    pub fn new(low: Address64, high: Address64) -> (r: Address128)
        ensures
            r.0 as nat == high.0 as nat * 0x1_0000_0000_0000_0000 + low.0 as nat,
    {
        let h = high.0 as u128;
        let l = low.0 as u128;
        proof {
            assert(h * 0x1_0000_0000_0000_0000 + l <= u128::MAX) by (nonlinear_arith)
                requires
                    h <= u64::MAX,
                    l <= u64::MAX,
            ;
        }
        Address(h * 0x1_0000_0000_0000_0000 + l)
    }
}

/// Whether a breakpoint is enabled.
#[derive(Debug, Clone, Copy, PartialEq, Eq, Structural)]
pub struct Enabled(pub bool);

impl Enabled {
    /// `y` means enabled; anything else does not.
    pub fn from_text(s: &str) -> (r: Enabled)
        ensures
            r.0 == (s@ == "y"@),
    {
        Enabled(crate::text::str_eq(s, "y"))
    }
}

/// A breakpoint as the debugger reports it.
#[derive(Debug, Clone)]
pub struct BreakPoint {
    pub number: BreakPointNumber,
    pub address: Option<Address64>,
    pub enabled: Enabled,
    /// Not present without debug information
    pub src_pos: Option<SrcPosition>,
    pub bp_type: String,
    pub display: String,
}

pub open spec fn opt_address64(t: Option<Seq<char>>) -> Option<Address64> {
    match t {
        Some(x) => Some(Address(address_value(x, u64::MAX as nat) as u64)),
        None => None,
    }
}

/// The source position a record gives: its `fullname` and its `line`, when
/// both are there and the line is a number.
pub open spec fn src_pos_of(v: Val) -> Option<(Seq<char>, nat)> {
    match (str_field(v, "fullname"@), str_field(v, "line"@)) {
        (Some(f), Some(l)) => match dec_text(l, usize::MAX as nat) {
            Some(n) => Some((f, n)),
            None => None,
        },
        _ => None,
    }
}

pub open spec fn src_pos_view(p: Option<SrcPosition>) -> Option<(Seq<char>, nat)> {
    match p {
        Some(x) => Some((x.fullname@, x.line as nat)),
        None => None,
    }
}

/// Whether a record describes a breakpoint: a valid `number`, `enabled`,
/// `type` and `disp`, and an `addr` that if present is a string.
pub open spec fn breakpoint_ok(v: Val) -> bool {
    &&& str_field(v, "number"@) is Some
    &&& bp_number_of(str_field(v, "number"@)->0) is Some
    &&& opt_str_ok(v, "addr"@)
    &&& str_field(v, "enabled"@) is Some
    &&& str_field(v, "type"@) is Some
    &&& str_field(v, "disp"@) is Some
}

/// Whether `b` is what the record `v` describes.
pub open spec fn breakpoint_decodes(v: Val, b: BreakPoint) -> bool {
    &&& bp_number_of(str_field(v, "number"@)->0) == Some(b.number)
    &&& b.address == opt_address64(str_field(v, "addr"@))
    &&& b.enabled == Enabled(str_field(v, "enabled"@)->0 == "y"@)
    &&& src_pos_view(b.src_pos) == src_pos_of(v)
    &&& b.bp_type@ == str_field(v, "type"@)->0
    &&& b.display@ == str_field(v, "disp"@)->0
}

fn opt_address_field(v: &MiValue, key: &str) -> (r: Result<Option<Address64>, ()>)
    ensures
        r is Ok <==> opt_str_ok(v@, key@),
        r is Ok ==> r->Ok_0 == opt_address64(str_field(v@, key@)),
{
    match v.get(key) {
        None => Ok(None),
        Some(x) => match x.as_str() {
            Some(t) => Ok(Some(Address::<u64>::from_text(t.as_str()))),
            None => Err(()),
        },
    }
}

fn opt_string_field(v: &MiValue, key: &str) -> (r: Result<Option<String>, ()>)
    ensures
        r is Ok <==> opt_str_ok(v@, key@),
        r is Ok ==> str_view(r->Ok_0) == str_field(v@, key@),
{
    match v.get(key) {
        None => Ok(None),
        Some(x) => match x.as_str() {
            Some(t) => Ok(Some(t.clone())),
            None => Err(()),
        },
    }
}

fn src_pos_field(v: &MiValue) -> (r: Option<SrcPosition>)
    ensures
        src_pos_view(r) == src_pos_of(v@),
{
    match (v.get_str("fullname"), v.get_str("line")) {
        (Some(f), Some(l)) => match dec_of(l.as_str(), usize::MAX as u64) {
            Some(n) => Some(SrcPosition { fullname: f.clone(), line: n as usize }),
            None => None,
        },
        _ => None,
    }
}

fn parse_error(what: &str) -> (r: AppError)
    ensures
        r is ParseError,
{
    let mut out: Vec<char> = Vec::new();
    push_all(&mut out, "missing or malformed field: ");
    push_all(&mut out, what);
    AppError::ParseError(string_of(&out))
}

impl BreakPoint {
    /// Decodes a breakpoint record.
    pub fn from_value(v: &MiValue) -> (r: Result<BreakPoint, AppError>)
        ensures
            r is Ok <==> breakpoint_ok(v@),
            r is Err ==> r->Err_0 is ParseError,
            r is Ok ==> breakpoint_decodes(v@, r->Ok_0),
    {
        let number = match v.get_str("number") {
            Some(t) => match BreakPointNumber::from_str(t.as_str()) {
                Ok(n) => n,
                Err(_) => {
                    return Err(parse_error("number"));
                },
            },
            None => {
                return Err(parse_error("number"));
            },
        };
        let address = match opt_address_field(v, "addr") {
            Ok(a) => a,
            Err(_) => {
                return Err(parse_error("addr"));
            },
        };
        let enabled = match v.get_str("enabled") {
            Some(t) => Enabled::from_text(t.as_str()),
            None => {
                return Err(parse_error("enabled"));
            },
        };
        let bp_type = match v.get_str("type") {
            Some(t) => t.clone(),
            None => {
                return Err(parse_error("type"));
            },
        };
        let display = match v.get_str("disp") {
            Some(t) => t.clone(),
            None => {
                return Err(parse_error("disp"));
            },
        };
        let src_pos = src_pos_field(v);
        Ok(BreakPoint { number, address, enabled, src_pos, bp_type, display })
    }
}

/// A frame of the call stack.
#[derive(Debug, Clone)]
pub struct StackFrame {
    /// Frame level
    pub level: u32,
    /// Function name
    pub function: String,
    /// File name
    pub file: Option<String>,
    /// Full name of the file
    pub fullname: Option<String>,
    /// Line number
    pub line: Option<u32>,
    /// Address
    pub address: Option<Address64>,
    /// Architecture
    pub arch: Option<String>,
}

/// Whether a record describes a frame: a numeric `level`, a `func`, and
/// optional `file`, `fullname`, `arch`, `addr` strings and a numeric `line`.
pub open spec fn frame_ok(v: Val) -> bool {
    &&& str_field(v, "level"@) is Some
    &&& dec_text(str_field(v, "level"@)->0, u32::MAX as nat) is Some
    &&& str_field(v, "func"@) is Some
    &&& opt_str_ok(v, "file"@)
    &&& opt_str_ok(v, "fullname"@)
    &&& opt_str_ok(v, "arch"@)
    &&& opt_str_ok(v, "addr"@)
    &&& (field(v, "line"@) is None || (str_field(v, "line"@) is Some && dec_text(
        str_field(v, "line"@)->0,
        u32::MAX as nat,
    ) is Some))
}

/// Whether `f` is what the record `v` describes.
pub open spec fn frame_decodes(v: Val, f: StackFrame) -> bool {
    &&& dec_text(str_field(v, "level"@)->0, u32::MAX as nat) == Some(f.level as nat)
    &&& f.function@ == str_field(v, "func"@)->0
    &&& str_view(f.file) == str_field(v, "file"@)
    &&& str_view(f.fullname) == str_field(v, "fullname"@)
    &&& str_view(f.arch) == str_field(v, "arch"@)
    &&& f.address == opt_address64(str_field(v, "addr"@))
    &&& match f.line {
        Some(l) => dec_text(str_field(v, "line"@)->0, u32::MAX as nat) == Some(l as nat),
        None => field(v, "line"@) is None,
    }
}

impl StackFrame {
    /// Decodes a frame record.
    pub fn from_value(v: &MiValue) -> (r: Result<StackFrame, AppError>)
        ensures
            r is Ok <==> frame_ok(v@),
            r is Err ==> r->Err_0 is ParseError,
            r is Ok ==> frame_decodes(v@, r->Ok_0),
    {
        let level = match v.get_str("level") {
            Some(t) => match dec_of(t.as_str(), u32::MAX as u64) {
                Some(n) => n as u32,
                None => {
                    return Err(parse_error("level"));
                },
            },
            None => {
                return Err(parse_error("level"));
            },
        };
        let function = match v.get_str("func") {
            Some(t) => t.clone(),
            None => {
                return Err(parse_error("func"));
            },
        };
        let file = match opt_string_field(v, "file") {
            Ok(x) => x,
            Err(_) => {
                return Err(parse_error("file"));
            },
        };
        let fullname = match opt_string_field(v, "fullname") {
            Ok(x) => x,
            Err(_) => {
                return Err(parse_error("fullname"));
            },
        };
        let arch = match opt_string_field(v, "arch") {
            Ok(x) => x,
            Err(_) => {
                return Err(parse_error("arch"));
            },
        };
        let address = match opt_address_field(v, "addr") {
            Ok(a) => a,
            Err(_) => {
                return Err(parse_error("addr"));
            },
        };
        let line = match v.get("line") {
            None => None,
            Some(x) => match x.as_str() {
                Some(t) => match dec_of(t.as_str(), u32::MAX as u64) {
                    Some(n) => Some(n as u32),
                    None => {
                        return Err(parse_error("line"));
                    },
                },
                None => {
                    return Err(parse_error("line"));
                },
            },
        };
        Ok(StackFrame { level, function, file, fullname, line, address, arch })
    }
}

/// How much of each variable to list.
#[derive(Debug, Clone, Copy, PartialEq, Eq, Structural)]
pub enum PrintValue {
    /// Names only (`--no-values`)
    NoValues,
    /// Names and values (`--all-values`)
    AllValues,
    /// Names, types, and values of simple types (`--simple-values`)
    SimpleValues,
}

impl PrintValue {
    /// `0`, `1` or `2`.
    pub fn from_str(s: &str) -> (r: Result<PrintValue, AppError>)
        ensures
            match dec_text(s@, u64::MAX as nat) {
                Some(n) => if n == 0 {
                    r == Ok::<PrintValue, AppError>(PrintValue::NoValues)
                } else if n == 1 {
                    r == Ok::<PrintValue, AppError>(PrintValue::AllValues)
                } else if n == 2 {
                    r == Ok::<PrintValue, AppError>(PrintValue::SimpleValues)
                } else {
                    r matches Err(AppError::InvalidArgument(_))
                },
                None => r matches Err(AppError::ParseError(_)),
            },
    {
        match dec_of(s, u64::MAX) {
            Some(0) => Ok(PrintValue::NoValues),
            Some(1) => Ok(PrintValue::AllValues),
            Some(2) => Ok(PrintValue::SimpleValues),
            Some(_) => Err(AppError::InvalidArgument(owned("only 0,1,2 are valid"))),
            None => Err(AppError::ParseError(owned("not a number"))),
        }
    }
}

/// A variable of a frame.
#[derive(Debug, Clone)]
pub struct Variable {
    /// Variable name
    pub name: String,
    /// Its type, listed with --all-values or --simple-values
    pub var_type: Option<String>,
    /// Its value, listed with --simple-values
    pub value: Option<String>,
}

pub open spec fn variable_ok(v: Val) -> bool {
    str_field(v, "name"@) is Some && opt_str_ok(v, "type"@) && opt_str_ok(v, "value"@)
}

/// Whether `x` is what the record `v` describes.
pub open spec fn variable_decodes(v: Val, x: Variable) -> bool {
    &&& x.name@ == str_field(v, "name"@)->0
    &&& str_view(x.var_type) == str_field(v, "type"@)
    &&& str_view(x.value) == str_field(v, "value"@)
}

impl Variable {
    /// Decodes a variable record.
    pub fn from_value(v: &MiValue) -> (r: Result<Variable, AppError>)
        ensures
            r is Ok <==> variable_ok(v@),
            r is Err ==> r->Err_0 is ParseError,
            r is Ok ==> variable_decodes(v@, r->Ok_0),
    {
        let name = match v.get_str("name") {
            Some(t) => t.clone(),
            None => {
                return Err(parse_error("name"));
            },
        };
        let var_type = match opt_string_field(v, "type") {
            Ok(x) => x,
            Err(_) => {
                return Err(parse_error("type"));
            },
        };
        let value = match opt_string_field(v, "value") {
            Ok(x) => x,
            Err(_) => {
                return Err(parse_error("value"));
            },
        };
        Ok(Variable { name, var_type, value })
    }
}

/// A register's raw value, by width.
#[derive(Debug, Clone, Copy, PartialEq, Eq, Structural)]
pub enum RegisterRaw {
    U32(Address32),
    U64(Address64),
    U128(Address128),
    U256(Address128, Address128),
}

/// The first index at or after `i` where `pat` occurs in `t`, or -1.
pub open spec fn find_from(t: Seq<char>, pat: Seq<char>, i: int) -> int
    decreases t.len() + 1 - i,
{
    if i < 0 || i + pat.len() > t.len() {
        -1
    } else if t.subrange(i, i + pat.len()) == pat {
        i
    } else {
        find_from(t, pat, i + 1)
    }
}

/// The end of the run of spaces and tabs at `i`.
pub open spec fn space_end(t: Seq<char>, i: int) -> int
    decreases t.len() - i,
{
    if 0 <= i < t.len() && (t[i] == ' ' || t[i] == '\t') {
        space_end(t, i + 1)
    } else {
        i
    }
}

/// The end of the run of ASCII letters and digits at `i`.
pub open spec fn alnum_end(t: Seq<char>, i: int) -> int
    decreases t.len() - i,
{
    if 0 <= i < t.len() && is_alnum(t[i]) {
        alnum_end(t, i + 1)
    } else {
        i
    }
}

/// `:`, spaces, then `[A, B]` with `A` and `B` alphanumeric: the two words.
pub open spec fn pair_after_tag(t: Seq<char>, p: int) -> Option<(Seq<char>, Seq<char>)> {
    if 0 <= p < t.len() && t[p] == ':' {
        let i = space_end(t, p + 1);
        if i < t.len() && t[i] == '[' {
            let a_end = alnum_end(t, i + 1);
            if i + 1 < a_end && a_end < t.len() && t[a_end] == ',' {
                let b0 = space_end(t, a_end + 1);
                let b_end = alnum_end(t, b0);
                if b0 < b_end && b_end < t.len() && t[b_end] == ']' {
                    Some((t.subrange(i + 1, a_end), t.subrange(b0, b_end)))
                } else {
                    None
                }
            } else {
                None
            }
        } else {
            None
        }
    } else {
        None
    }
}

/// A register value as the debugger prints it: `0x...` is 64 bits; a
/// composite value is read from its first `v2_int64: [low, high]` (128 bits)
/// or `v2_int128: [A, B]` (256 bits).
pub open spec fn register_raw_of(t: Seq<char>) -> Option<RegisterRaw> {
    if t.len() >= 2 && t[0] == '0' && t[1] == 'x' {
        Some(
            RegisterRaw::U64(Address(address_value(t.subrange(2, t.len() as int), u64::MAX as nat) as u64)),
        )
    } else {
        let i = find_from(t, "v2_int"@, 0);
        if i < 0 {
            None
        } else if i + 8 <= t.len() && t.subrange(i, i + 8) == "v2_int64"@ {
            match pair_after_tag(t, i + 8) {
                Some((a, b)) => Some(
                    RegisterRaw::U128(
                        Address(
                            (address_value(b, u64::MAX as nat) * 0x1_0000_0000_0000_0000
                                + address_value(a, u64::MAX as nat)) as u128,
                        ),
                    ),
                ),
                None => None,
            }
        } else if i + 9 <= t.len() && t.subrange(i, i + 9) == "v2_int128"@ {
            match pair_after_tag(t, i + 9) {
                Some((a, b)) => Some(
                    RegisterRaw::U256(
                        Address(address_value(a, u128::MAX as nat) as u128),
                        Address(address_value(b, u128::MAX as nat) as u128),
                    ),
                ),
                None => None,
            }
        } else {
            None
        }
    }
}

fn space_end_exec(t: &Vec<char>, i: usize) -> (r: usize)
    requires
        i <= t@.len(),
    ensures
        r as int == space_end(t@, i as int),
        i <= r <= t@.len(),
{
    let mut k = i;
    while k < t.len() && (t[k] == ' ' || t[k] == '\t')
        invariant
            i <= k <= t@.len(),
            space_end(t@, i as int) == space_end(t@, k as int),
        decreases t@.len() - k,
    {
        k = k + 1;
    }
    k
}

fn alnum_end_exec(t: &Vec<char>, i: usize) -> (r: usize)
    requires
        i <= t@.len(),
    ensures
        r as int == alnum_end(t@, i as int),
        i <= r <= t@.len(),
{
    let mut k = i;
    while k < t.len() && (('0' <= t[k] && t[k] <= '9') || ('a' <= t[k] && t[k] <= 'z') || ('A'
        <= t[k] && t[k] <= 'Z'))
        invariant
            i <= k <= t@.len(),
            alnum_end(t@, i as int) == alnum_end(t@, k as int),
        decreases t@.len() - k,
    {
        k = k + 1;
    }
    k
}

fn find_exec(t: &Vec<char>, pat: &str) -> (r: Option<usize>)
    ensures
        match r {
            Some(i) => find_from(t@, pat@, 0) == i as int && i + pat@.len() <= t@.len(),
            None => find_from(t@, pat@, 0) < 0,
        },
{
    let p = chars_of(pat);
    if p.len() == 0 {
        proof {
            assert(t@.subrange(0, 0) =~= pat@);
        }
        return Some(0);
    }
    let mut i: usize = 0;
    while i < t.len() && p.len() <= t.len() - i
        invariant
            i <= t@.len(),
            p@ == pat@,
            p@.len() > 0,
            find_from(t@, pat@, 0) == find_from(t@, pat@, i as int),
        decreases t@.len() - i,
    {
        if crate::text::segment_is(t, i, i + p.len(), &p) {
            return Some(i);
        }
        i = i + 1;
    }
    None
}

fn pair_after_tag_exec(t: &Vec<char>, p: usize) -> (r: Option<(Vec<char>, Vec<char>)>)
    requires
        p <= t@.len(),
    ensures
        match r {
            Some((a, b)) => pair_after_tag(t@, p as int) == Some((a@, b@)),
            None => pair_after_tag(t@, p as int) is None,
        },
{
    if p < t.len() && t[p] == ':' {
        let i = space_end_exec(t, p + 1);
        if i < t.len() && t[i] == '[' {
            let a_end = alnum_end_exec(t, i + 1);
            if i + 1 < a_end && a_end < t.len() && t[a_end] == ',' {
                let b0 = space_end_exec(t, a_end + 1);
                let b_end = alnum_end_exec(t, b0);
                if b0 < b_end && b_end < t.len() && t[b_end] == ']' {
                    return Some((copy_range(t, i + 1, a_end), copy_range(t, b0, b_end)));
                }
            }
        }
    }
    None
}

impl RegisterRaw {
    /// Reads a register value as the debugger prints it.
    pub fn from_text(s: &str) -> (r: Result<RegisterRaw, AppError>)
        ensures
            match register_raw_of(s@) {
                Some(x) => r == Ok::<RegisterRaw, AppError>(x),
                None => r matches Err(AppError::ParseError(_)),
            },
    {
        let t = chars_of(s);
        if t.len() >= 2 && t[0] == '0' && t[1] == 'x' {
            let rest = copy_range(&t, 2, t.len());
            let v = address_of_chars(&rest, u64::MAX as u128);
            return Ok(RegisterRaw::U64(Address(v as u64)));
        }
        match find_exec(&t, "v2_int") {
            None => Err(AppError::ParseError(owned("unknown register value"))),
            Some(i) => {
                if t.len() - i >= 8 && spells(&t, i, i + 8, "v2_int64") {
                    match pair_after_tag_exec(&t, i + 8) {
                        Some((a, b)) => {
                            let lo = address_of_chars(&a, u64::MAX as u128);
                            let hi = address_of_chars(&b, u64::MAX as u128);
                            Ok(RegisterRaw::U128(Address::<u128>::new(Address(lo as u64), Address(hi as u64))))
                        },
                        None => Err(AppError::ParseError(owned("malformed register value"))),
                    }
                } else if t.len() - i >= 9 && spells(&t, i, i + 9, "v2_int128") {
                    match pair_after_tag_exec(&t, i + 9) {
                        Some((a, b)) => {
                            let x = address_of_chars(&a, u128::MAX);
                            let y = address_of_chars(&b, u128::MAX);
                            Ok(RegisterRaw::U256(Address(x), Address(y)))
                        },
                        None => Err(AppError::ParseError(owned("malformed register value"))),
                    }
                } else {
                    Err(AppError::ParseError(owned("unknown register value")))
                }
            },
        }
    }
}

/// A register: its number, its value, and the name bound to it later.
#[derive(Debug, Clone)]
pub struct Register {
    /// Not in the register value output; bound from the name table afterwards
    pub name: Option<String>,
    pub number: usize,
    pub value: Option<RegisterRaw>,
    pub v2_int128: Option<String>,
    pub v8_int32: Option<String>,
    pub v4_int64: Option<String>,
    pub v8_float: Option<String>,
    pub v16_int8: Option<String>,
    pub v4_int32: Option<String>,
    pub error: Option<String>,
}

/// Whether a record describes a register: a numeric `number`, a `value`
/// that if present reads as a register value, and other fields that if
/// present are strings.
pub open spec fn register_ok(v: Val) -> bool {
    &&& str_field(v, "number"@) is Some
    &&& dec_text(str_field(v, "number"@)->0, usize::MAX as nat) is Some
    &&& (field(v, "value"@) is None || (str_field(v, "value"@) is Some && register_raw_of(
        str_field(v, "value"@)->0,
    ) is Some))
    &&& opt_str_ok(v, "v2_int128"@)
    &&& opt_str_ok(v, "v8_int32"@)
    &&& opt_str_ok(v, "v4_int64"@)
    &&& opt_str_ok(v, "v8_float"@)
    &&& opt_str_ok(v, "v16_int8"@)
    &&& opt_str_ok(v, "v4_int32"@)
    &&& opt_str_ok(v, "error"@)
}

impl Register {
    /// Decodes a register record.
    pub fn from_value(v: &MiValue) -> (r: Result<Register, AppError>)
        ensures
            r is Ok <==> register_ok(v@),
            r is Err ==> r->Err_0 is ParseError,
            r is Ok ==> {
                let g = r->Ok_0;
                &&& g.name is None
                &&& dec_text(str_field(v@, "number"@)->0, usize::MAX as nat) == Some(g.number as nat)
                &&& g.value == match str_field(v@, "value"@) {
                    Some(t) => register_raw_of(t),
                    None => None,
                }
                &&& str_view(g.v2_int128) == str_field(v@, "v2_int128"@)
                &&& str_view(g.v8_int32) == str_field(v@, "v8_int32"@)
                &&& str_view(g.v4_int64) == str_field(v@, "v4_int64"@)
                &&& str_view(g.v8_float) == str_field(v@, "v8_float"@)
                &&& str_view(g.v16_int8) == str_field(v@, "v16_int8"@)
                &&& str_view(g.v4_int32) == str_field(v@, "v4_int32"@)
                &&& str_view(g.error) == str_field(v@, "error"@)
            },
    {
        let number = match v.get_str("number") {
            Some(t) => match dec_of(t.as_str(), usize::MAX as u64) {
                Some(n) => n as usize,
                None => {
                    return Err(parse_error("number"));
                },
            },
            None => {
                return Err(parse_error("number"));
            },
        };
        let value = match v.get("value") {
            None => None,
            Some(x) => match x.as_str() {
                Some(t) => match RegisterRaw::from_text(t.as_str()) {
                    Ok(raw) => Some(raw),
                    Err(_) => {
                        return Err(parse_error("value"));
                    },
                },
                None => {
                    return Err(parse_error("value"));
                },
            },
        };
        let v2_int128 = match opt_string_field(v, "v2_int128") {
            Ok(x) => x,
            Err(_) => {
                return Err(parse_error("v2_int128"));
            },
        };
        let v8_int32 = match opt_string_field(v, "v8_int32") {
            Ok(x) => x,
            Err(_) => {
                return Err(parse_error("v8_int32"));
            },
        };
        let v4_int64 = match opt_string_field(v, "v4_int64") {
            Ok(x) => x,
            Err(_) => {
                return Err(parse_error("v4_int64"));
            },
        };
        let v8_float = match opt_string_field(v, "v8_float") {
            Ok(x) => x,
            Err(_) => {
                return Err(parse_error("v8_float"));
            },
        };
        let v16_int8 = match opt_string_field(v, "v16_int8") {
            Ok(x) => x,
            Err(_) => {
                return Err(parse_error("v16_int8"));
            },
        };
        let v4_int32 = match opt_string_field(v, "v4_int32") {
            Ok(x) => x,
            Err(_) => {
                return Err(parse_error("v4_int32"));
            },
        };
        let error = match opt_string_field(v, "error") {
            Ok(x) => x,
            Err(_) => {
                return Err(parse_error("error"));
            },
        };
        Ok(
            Register {
                name: None,
                number,
                value,
                v2_int128,
                v8_int32,
                v4_int64,
                v8_float,
                v16_int8,
                v4_int32,
                error,
            },
        )
    }
}

/// One entry of a backtrace.
#[derive(Debug, Clone, Default)]
pub struct BT {
    pub location: u64,
    pub function: Option<String>,
}

/// One disassembled instruction.
#[derive(Debug, Clone)]
pub struct ASM {
    pub address: u64,
    pub inst: String,
    pub offset: u64,
    pub func_name: Option<String>,
}

/// What a value points into.
#[derive(Debug, Clone, Copy, PartialEq, Eq, Structural)]
pub enum MemoryType {
    Unknown,
    Stack,
    Heap,
    Exec,
}

/// A block of memory as read with `-data-read-memory-bytes`.
#[derive(Debug, Clone)]
pub struct Memory {
    /// The start address, as hexadecimal literal
    pub begin: String,
    /// The end address, as hexadecimal literal
    pub end: String,
    /// The offset relative to the start address asked for, as hexadecimal literal
    pub offset: String,
    /// The contents, in hex bytes
    pub contents: String,
}

/// The index of the breakpoint numbered `n`, or -1.
pub open spec fn bp_index(s: Seq<BreakPoint>, n: BreakPointNumber) -> int
    decreases s.len(),
{
    if s.len() == 0 {
        -1
    } else if s.last().number == n {
        s.len() - 1
    } else {
        bp_index(s.drop_last(), n)
    }
}

/// `s` without the breakpoint numbered `n`.
pub open spec fn bp_without(s: Seq<BreakPoint>, n: BreakPointNumber) -> Seq<BreakPoint>
    decreases s.len(),
{
    if s.len() == 0 {
        s
    } else if s.last().number == n {
        bp_without(s.drop_last(), n)
    } else {
        bp_without(s.drop_last(), n).push(s.last())
    }
}

/// Whether no two breakpoints share a number.
pub open spec fn numbers_unique(s: Seq<BreakPoint>) -> bool {
    forall|i: int, j: int| 0 <= i < j < s.len() ==> s[i].number != s[j].number
}

/// The known breakpoints, one per number, and a counter of changes.
pub struct BreakPointSet {
    map: Vec<BreakPoint>,
    /// Grows with every change, so that a reader can tell that something changed.
    last_change: u64,
}

impl View for BreakPointSet {
    type V = Seq<BreakPoint>;

    closed spec fn view(&self) -> Seq<BreakPoint> {
        self.map@
    }
}

proof fn lemma_bp_index(s: Seq<BreakPoint>, n: BreakPointNumber)
    ensures
        -1 <= bp_index(s, n) < s.len(),
        bp_index(s, n) >= 0 ==> s[bp_index(s, n)].number == n,
        bp_index(s, n) < 0 ==> forall|i: int| 0 <= i < s.len() ==> s[i].number != n,
    decreases s.len(),
{
    if s.len() > 0 && s.last().number != n {
        lemma_bp_index(s.drop_last(), n);
        if bp_index(s, n) < 0 {
            assert forall|i: int| 0 <= i < s.len() implies s[i].number != n by {
                if i < s.len() - 1 {
                    assert(s.drop_last()[i] == s[i]);
                }
            }
        }
    }
}

proof fn lemma_bp_index_unique(s: Seq<BreakPoint>, n: BreakPointNumber, i: int)
    requires
        numbers_unique(s),
        0 <= i < s.len(),
        s[i].number == n,
    ensures
        bp_index(s, n) == i,
{
    lemma_bp_index(s, n);
}

impl BreakPointSet {
    /// No breakpoints.
    pub fn new() -> (r: BreakPointSet)
        ensures
            r@.len() == 0,
            r.changes() == 0,
    {
        BreakPointSet { map: Vec::new(), last_change: 0 }
    }

    /// How many changes were made, saturating at the largest `u64`.
    pub closed spec fn changes(&self) -> u64 {
        self.last_change
    }

    /// How many changes were made, saturating at the largest `u64`.
    pub fn last_change(&self) -> (r: u64)
        ensures
            r == self.changes(),
    {
        self.last_change
    }

    #[verifier::type_invariant]
    spec fn inv(&self) -> bool {
        numbers_unique(self.map@)
    }

    fn notify_change(&mut self)
        ensures
            final(self).map == old(self).map,
            final(self).last_change == if old(self).last_change < u64::MAX {
                (old(self).last_change + 1) as u64
            } else {
                old(self).last_change
            },
    {
        proof {
            use_type_invariant(&*self);
        }
        if self.last_change < u64::MAX {
            self.last_change = self.last_change + 1;
        }
    }

    /// The number of breakpoints.
    pub fn len(&self) -> (r: usize)
        ensures
            r == self@.len(),
    {
        self.map.len()
    }

    /// The breakpoint numbered `n`.
    pub fn get(&self, n: BreakPointNumber) -> (r: Option<&BreakPoint>)
        ensures
            match r {
                Some(b) => bp_index(self@, n) >= 0 && *b == self@[bp_index(self@, n)],
                None => bp_index(self@, n) < 0,
            },
    {
        proof {
            use_type_invariant(&*self);
            lemma_bp_index(self@, n);
        }
        let mut k: usize = 0;
        while k < self.map.len()
            invariant
                numbers_unique(self.map@),
                k <= self.map@.len(),
                forall|i: int| 0 <= i < k ==> self.map@[i].number != n,
            decreases self.map@.len() - k,
        {
            if self.map[k].number == n {
                proof {
                    lemma_bp_index_unique(self@, n, k as int);
                }
                return Some(&self.map[k]);
            }
            k = k + 1;
        }
        None
    }

    /// Records a breakpoint: it replaces the one with its number, or is added.
    pub fn update_breakpoint(&mut self, new_bp: BreakPoint)
        ensures
            bp_index(old(self)@, new_bp.number) >= 0 ==> final(self)@ == old(self)@.update(
                bp_index(old(self)@, new_bp.number),
                new_bp,
            ),
            bp_index(old(self)@, new_bp.number) < 0 ==> final(self)@ == old(self)@.push(new_bp),
    {
        proof {
            use_type_invariant(&*self);
            lemma_bp_index(self@, new_bp.number);
        }
        let mut k: usize = 0;
        while k < self.map.len()
            invariant
                self.map@ == old(self).map@,
                numbers_unique(self.map@),
                k <= self.map@.len(),
                forall|i: int| 0 <= i < k ==> self.map@[i].number != new_bp.number,
            decreases self.map@.len() - k,
        {
            if self.map[k].number == new_bp.number {
                proof {
                    lemma_bp_index_unique(self@, new_bp.number, k as int);
                }
                let ghost before = self.map@;
                let mut all: Vec<BreakPoint> = Vec::new();
                core::mem::swap(&mut all, &mut self.map);
                all.set(k, new_bp);
                proof {
                    assert forall|i: int, j: int| 0 <= i < j < all@.len() implies all@[i].number
                        != all@[j].number by {
                        if i != k && j != k {
                            assert(before[i].number != before[j].number);
                        } else if i == k {
                            assert(before[j].number != before[k as int].number);
                        } else {
                            assert(before[i].number != before[k as int].number);
                        }
                    }
                }
                self.map = all;
                self.notify_change();
                return;
            }
            k = k + 1;
        }
        let ghost before = self.map@;
        let mut all: Vec<BreakPoint> = Vec::new();
        core::mem::swap(&mut all, &mut self.map);
        all.push(new_bp);
        proof {
            assert forall|i: int, j: int| 0 <= i < j < all@.len() implies all@[i].number
                != all@[j].number by {
                if j < before.len() {
                    assert(before[i].number != before[j].number);
                }
            }
        }
        self.map = all;
        self.notify_change();
    }

    /// Forgets the breakpoint numbered `bp_num`.
    pub fn remove_breakpoint(&mut self, bp_num: BreakPointNumber)
        ensures
            final(self)@ == bp_without(old(self)@, bp_num),
    {
        proof {
            use_type_invariant(&*self);
        }
        let mut out: Vec<BreakPoint> = Vec::new();
        let ghost all = self.map@;
        let len = self.map.len();
        let mut rest: Vec<BreakPoint> = Vec::new();
        core::mem::swap(&mut rest, &mut self.map);
        let mut k: usize = 0;
        proof {
            assert(all.subrange(0, 0) =~= Seq::<BreakPoint>::empty());
        }
        while rest.len() > 0
            invariant
                k + rest@.len() == len,
                len == all.len(),
                rest@ == all.subrange(k as int, len as int),
                out@ == bp_without(all.subrange(0, k as int), bp_num),
            decreases rest@.len(),
        {
            let ghost rest_before = rest@;
            let b = rest.remove(0);
            proof {
                assert(rest_before[0] == all[k as int]);
                assert(rest@ =~= all.subrange(k + 1, len as int));
                let pre = all.subrange(0, k + 1);
                assert(pre.drop_last() =~= all.subrange(0, k as int));
                assert(pre.last() == b);
            }
            if b.number != bp_num {
                out.push(b);
            }
            k = k + 1;
        }
        proof {
            assert(all.subrange(0, len as int) =~= all);
            lemma_without_unique(all, bp_num);
        }
        self.map = out;
        self.notify_change();
    }
}

proof fn lemma_without_unique(s: Seq<BreakPoint>, n: BreakPointNumber)
    requires
        numbers_unique(s),
    ensures
        numbers_unique(bp_without(s, n)),
        forall|i: int| 0 <= i < bp_without(s, n).len() ==> s.contains(#[trigger] bp_without(s, n)[i]),
    decreases s.len(),
{
    if s.len() > 0 {
        let d = s.drop_last();
        assert(numbers_unique(d)) by {
            assert forall|i: int, j: int| 0 <= i < j < d.len() implies d[i].number != d[j].number by {
                assert(d[i] == s[i] && d[j] == s[j]);
            }
        }
        lemma_without_unique(d, n);
        let w = bp_without(d, n);
        assert forall|i: int| 0 <= i < w.len() implies s.contains(#[trigger] w[i]) by {
            assert(d.contains(w[i]));
            let j = choose|j: int| 0 <= j < d.len() && d[j] == w[i];
            assert(s[j] == w[i]);
        }
        if s.last().number != n {
            let w2 = w.push(s.last());
            assert forall|i: int, j: int| 0 <= i < j < w2.len() implies w2[i].number != w2[j].number by {
                if j == w.len() {
                    assert(d.contains(w[i]));
                    let m = choose|m: int| 0 <= m < d.len() && d[m] == w[i];
                    assert(s[m] == w[i]);
                    assert(s[m].number != s[s.len() - 1].number);
                } else {
                    assert(w2[i] == w[i] && w2[j] == w[j]);
                }
            }
            assert forall|i: int| 0 <= i < w2.len() implies s.contains(#[trigger] w2[i]) by {
                if i == w.len() {
                    assert(s[s.len() - 1] == w2[i]);
                } else {
                    assert(w2[i] == w[i]);
                }
            }
        }
    }
}

} // verus!
