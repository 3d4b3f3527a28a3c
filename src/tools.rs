use vstd::prelude::*;

use crate::commands::{bp_number_of, bp_text, escape_command, quoted, BreakPointNumber};
use crate::error::AppError;
use crate::models::{
    breakpoint_decodes, breakpoint_ok, frame_decodes, frame_ok, variable_decodes, variable_ok,
    BreakPoint, StackFrame, Variable,
};
use crate::output::ResultRecord;
use crate::text::{chars_of, dec_chars, dec_of, dec_str, dec_text, owned, push_all, string_of};
use crate::value::{field, vals_view, MiValue, Val};

verus! {

/// Server configuration.
#[derive(Debug, Clone)]
pub struct Config {
    /// Address to listen on
    pub server_ip: String,
    /// Port to listen on
    pub server_port: u16,
    /// Per-command timeout, in seconds
    pub command_timeout: u64,
}

impl Config {
    /// The configuration from the values of `SERVER_IP`, `SERVER_PORT` and
    /// `GDB_COMMAND_TIMEOUT`, each possibly unset: defaults `127.0.0.1`,
    /// `8080` and 10 seconds. A port that is not a number up to 65535 is an
    /// error; a timeout that is not a number falls back to the default.
    pub fn from_values(
        server_ip: Option<String>,
        server_port: Option<String>,
        command_timeout: Option<String>,
    ) -> (r: Result<Config, AppError>)
        ensures
            match server_port {
                Some(p) => (r is Ok <==> dec_text(p@, u16::MAX as nat) is Some) && (r is Ok
                    ==> Some(r->Ok_0.server_port as nat) == dec_text(p@, u16::MAX as nat)),
                None => r is Ok && r->Ok_0.server_port == 8080,
            },
            r is Err ==> r->Err_0 is InvalidArgument,
            r is Ok ==> r->Ok_0.server_ip@ == match server_ip {
                Some(s) => s@,
                None => "127.0.0.1"@,
            },
            r is Ok ==> r->Ok_0.command_timeout as nat == match command_timeout {
                Some(t) => match dec_text(t@, u64::MAX as nat) {
                    Some(n) => n,
                    None => 10,
                },
                None => 10,
            },
    {
        let ghost ip_view = if server_ip is Some {
            server_ip->0@
        } else {
            "127.0.0.1"@
        };
        let ghost timeout_view = if command_timeout is Some && dec_text(
            command_timeout->0@,
            u64::MAX as nat,
        ) is Some {
            dec_text(command_timeout->0@, u64::MAX as nat)->0
        } else {
            10nat
        };
        let ip = match server_ip {
            Some(s) => s,
            None => owned("127.0.0.1"),
        };
        let port: u16 = match server_port {
            Some(p) => match dec_of(p.as_str(), u16::MAX as u64) {
                Some(n) => n as u16,
                None => {
                    return Err(AppError::InvalidArgument(owned("Invalid server port")));
                },
            },
            None => 8080,
        };
        let timeout: u64 = match command_timeout {
            Some(t) => match dec_of(t.as_str(), u64::MAX) {
                Some(n) => n,
                None => 10,
            },
            None => 10,
        };
        proof {
            assert(ip@ == ip_view);
            assert(timeout as nat == timeout_view);
        }
        Ok(Config { server_ip: ip, server_port: port, command_timeout: timeout })
    }
}

/// The reply to a session creation.
pub fn created_session_text(id: &str) -> (r: String)
    ensures
        r@ == "Created GDB session: "@ + id@,
{
    let mut out: Vec<char> = Vec::new();
    push_all(&mut out, "Created GDB session: ");
    push_all(&mut out, id);
    proof {
        assert(Seq::<char>::empty() + "Created GDB session: "@ =~= "Created GDB session: "@);
    }
    string_of(&out)
}

/// The reply to a session's closing.
pub fn closed_session_text() -> (r: String)
    ensures
        r@ == "Closed GDB session"@,
{
    owned("Closed GDB session")
}

/// The reply to a breakpoint's insertion: its number, the file and line asked
/// for, as a JSON object.
pub fn breakpoint_set_text(number: &BreakPointNumber, file: &str, line: usize) -> (r: String)
    ensures
        r@ == "Set breakpoint: {\"number\": "@ + quoted(bp_text(*number)) + ", \"file\": "@
            + quoted(file@) + ", \"line\": "@ + dec_str(line as nat) + "}"@,
{
    let mut out: Vec<char> = Vec::new();
    push_all(&mut out, "Set breakpoint: {\"number\": ");
    let n = number.to_text();
    push_all(&mut out, escape_command(n.as_str()).as_str());
    push_all(&mut out, ", \"file\": ");
    push_all(&mut out, escape_command(file).as_str());
    push_all(&mut out, ", \"line\": ");
    let mut d = dec_chars(line as u64);
    out.append(&mut d);
    push_all(&mut out, "}");
    proof {
        assert(out@ =~= Seq::<char>::empty() + "Set breakpoint: {\"number\": "@ + quoted(
            bp_text(*number),
        ) + ", \"file\": "@ + quoted(file@) + ", \"line\": "@ + dec_str(line as nat) + "}"@);
        assert(Seq::<char>::empty() + "Set breakpoint: {\"number\": "@ =~= "Set breakpoint: {\"number\": "@);
    }
    string_of(&out)
}

/// The list named `k` in a record.
pub open spec fn list_field(v: Val, k: Seq<char>) -> Option<Seq<Val>> {
    match field(v, k) {
        Some(Val::List(xs)) => Some(xs),
        _ => None,
    }
}

fn list_of<'a>(v: &'a MiValue, key: &str) -> (r: Option<&'a Vec<MiValue>>)
    ensures
        match r {
            Some(xs) => list_field(v@, key@) == Some(vals_view(xs@)),
            None => list_field(v@, key@) is None,
        },
{
    match v.get(key) {
        Some(x) => x.as_list(),
        None => None,
    }
}

fn missing(what: &str) -> (r: AppError)
    ensures
        r is ParseError,
{
    let mut out: Vec<char> = Vec::new();
    push_all(&mut out, "missing ");
    push_all(&mut out, what);
    AppError::ParseError(string_of(&out))
}

/// The breakpoint that a `-break-insert` result reports under `bkpt`.
pub fn breakpoint_from_result(rec: &ResultRecord) -> (r: Result<BreakPoint, AppError>)
    ensures
        match field(rec.results@, "bkpt"@) {
            Some(b) => (r is Ok <==> breakpoint_ok(b)) && (r is Ok ==> breakpoint_decodes(
                b,
                r->Ok_0,
            )),
            None => r is Err,
        },
        r is Err ==> r->Err_0 is ParseError,
{
    match rec.results.get("bkpt") {
        Some(b) => BreakPoint::from_value(b),
        None => Err(missing("bkpt")),
    }
}

/// The rows of a breakpoint table.
pub open spec fn table_rows(v: Val) -> Option<Seq<Val>> {
    match field(v, "BreakpointTable"@) {
        Some(t) => list_field(t, "body"@),
        None => None,
    }
}

/// The breakpoints of a `-break-list` result, from the body of its table.
pub fn breakpoints_from_table(rec: &ResultRecord) -> (r: Result<Vec<BreakPoint>, AppError>)
    ensures
        r is Ok <==> (table_rows(rec.results@) is Some && forall|i: int|
            0 <= i < table_rows(rec.results@)->0.len() ==> breakpoint_ok(
                #[trigger] table_rows(rec.results@)->0[i],
            )),
        r is Ok ==> r->Ok_0@.len() == table_rows(rec.results@)->0.len() && forall|i: int|
            0 <= i < r->Ok_0@.len() ==> breakpoint_decodes(
                table_rows(rec.results@)->0[i],
                #[trigger] r->Ok_0@[i],
            ),
        r is Err ==> r->Err_0 is ParseError,
{
    let table = match rec.results.get("BreakpointTable") {
        Some(t) => t,
        None => {
            return Err(missing("BreakpointTable"));
        },
    };
    let rows = match list_of(table, "body") {
        Some(xs) => xs,
        None => {
            return Err(missing("body"));
        },
    };
    let ghost xs = vals_view(rows@);
    let mut out: Vec<BreakPoint> = Vec::new();
    let mut k: usize = 0;
    while k < rows.len()
        invariant
            k <= rows@.len(),
            xs == vals_view(rows@),
            table_rows(rec.results@) == Some(xs),
            out@.len() == k,
            forall|i: int| 0 <= i < k ==> breakpoint_ok(#[trigger] xs[i]),
            forall|i: int| 0 <= i < k ==> breakpoint_decodes(xs[i], #[trigger] out@[i]),
        decreases rows@.len() - k,
    {
        match BreakPoint::from_value(&rows[k]) {
            Ok(b) => {
                out.push(b);
            },
            Err(e) => {
                proof {
                    assert(xs[k as int] == rows@[k as int]@);
                    assert(!breakpoint_ok(table_rows(rec.results@)->0[k as int]));
                }
                return Err(e);
            },
        }
        k = k + 1;
    }
    Ok(out)
}

/// The frames of a `-stack-list-frames` result, listed under `stack`.
pub fn frames_from_result(rec: &ResultRecord) -> (r: Result<Vec<StackFrame>, AppError>)
    ensures
        r is Ok <==> (list_field(rec.results@, "stack"@) is Some && forall|i: int|
            0 <= i < list_field(rec.results@, "stack"@)->0.len() ==> frame_ok(
                #[trigger] list_field(rec.results@, "stack"@)->0[i],
            )),
        r is Ok ==> r->Ok_0@.len() == list_field(rec.results@, "stack"@)->0.len() && forall|i: int|
            0 <= i < r->Ok_0@.len() ==> frame_decodes(
                list_field(rec.results@, "stack"@)->0[i],
                #[trigger] r->Ok_0@[i],
            ),
        r is Err ==> r->Err_0 is ParseError,
{
    let rows = match list_of(&rec.results, "stack") {
        Some(xs) => xs,
        None => {
            return Err(missing("stack"));
        },
    };
    let ghost xs = vals_view(rows@);
    let mut out: Vec<StackFrame> = Vec::new();
    let mut k: usize = 0;
    while k < rows.len()
        invariant
            k <= rows@.len(),
            xs == vals_view(rows@),
            list_field(rec.results@, "stack"@) == Some(xs),
            out@.len() == k,
            forall|i: int| 0 <= i < k ==> frame_ok(#[trigger] xs[i]),
            forall|i: int| 0 <= i < k ==> frame_decodes(xs[i], #[trigger] out@[i]),
        decreases rows@.len() - k,
    {
        match StackFrame::from_value(&rows[k]) {
            Ok(f) => {
                out.push(f);
            },
            Err(e) => {
                proof {
                    assert(xs[k as int] == rows@[k as int]@);
                    assert(!frame_ok(list_field(rec.results@, "stack"@)->0[k as int]));
                }
                return Err(e);
            },
        }
        k = k + 1;
    }
    Ok(out)
}

/// The variables of a `-stack-list-variables` result, listed under `variables`.
pub fn variables_from_result(rec: &ResultRecord) -> (r: Result<Vec<Variable>, AppError>)
    ensures
        r is Ok <==> (list_field(rec.results@, "variables"@) is Some && forall|i: int|
            0 <= i < list_field(rec.results@, "variables"@)->0.len() ==> variable_ok(
                #[trigger] list_field(rec.results@, "variables"@)->0[i],
            )),
        r is Ok ==> r->Ok_0@.len() == list_field(rec.results@, "variables"@)->0.len() && forall|
            i: int,
        |
            0 <= i < r->Ok_0@.len() ==> variable_decodes(
                list_field(rec.results@, "variables"@)->0[i],
                #[trigger] r->Ok_0@[i],
            ),
        r is Err ==> r->Err_0 is ParseError,
{
    let rows = match list_of(&rec.results, "variables") {
        Some(xs) => xs,
        None => {
            return Err(missing("variables"));
        },
    };
    let ghost xs = vals_view(rows@);
    let mut out: Vec<Variable> = Vec::new();
    let mut k: usize = 0;
    while k < rows.len()
        invariant
            k <= rows@.len(),
            xs == vals_view(rows@),
            list_field(rec.results@, "variables"@) == Some(xs),
            out@.len() == k,
            forall|i: int| 0 <= i < k ==> variable_ok(#[trigger] xs[i]),
            forall|i: int| 0 <= i < k ==> variable_decodes(xs[i], #[trigger] out@[i]),
        decreases rows@.len() - k,
    {
        match Variable::from_value(&rows[k]) {
            Ok(x) => {
                out.push(x);
            },
            Err(e) => {
                proof {
                    assert(xs[k as int] == rows@[k as int]@);
                    assert(!variable_ok(list_field(rec.results@, "variables"@)->0[k as int]));
                }
                return Err(e);
            },
        }
        k = k + 1;
    }
    Ok(out)
}

/// The first index at or after `i` holding a comma, or the length.
pub open spec fn comma_at(s: Seq<char>, i: int) -> int
    decreases s.len() - i,
{
    if 0 <= i < s.len() && s[i] != ',' {
        comma_at(s, i + 1)
    } else {
        i
    }
}

/// The pieces of `s[i..]` between commas (one piece when there is no comma).
pub open spec fn pieces_from(s: Seq<char>, i: int) -> Seq<Seq<char>>
    decreases s.len() + 1 - i,
{
    if i < 0 || i > s.len() {
        Seq::empty()
    } else {
        let e = comma_at(s, i);
        if i <= e < s.len() {
            seq![s.subrange(i, e)] + pieces_from(s, e + 1)
        } else {
            seq![s.subrange(i, s.len() as int)]
        }
    }
}

/// A piece without the spaces around it.
pub open spec fn trim_spaces(p: Seq<char>) -> Seq<char>
    decreases p.len(),
{
    if p.len() > 0 && p[0] == ' ' {
        trim_spaces(p.drop_first())
    } else if p.len() > 0 && p.last() == ' ' {
        trim_spaces(p.drop_last())
    } else {
        p
    }
}

fn trim_range(s: &Vec<char>, a: usize, b: usize) -> (r: Vec<char>)
    requires
        a <= b <= s@.len(),
    ensures
        r@ == trim_spaces(s@.subrange(a as int, b as int)),
{
    let mut x = a;
    let mut y = b;
    while x < y && (s[x] == ' ' || s[y - 1] == ' ')
        invariant
            a <= x <= y <= b <= s@.len(),
            trim_spaces(s@.subrange(a as int, b as int)) == trim_spaces(s@.subrange(x as int, y as int)),
        decreases y - x,
    {
        proof {
            let p = s@.subrange(x as int, y as int);
            if s@[x as int] == ' ' {
                assert(p[0] == ' ');
                assert(p.drop_first() =~= s@.subrange(x + 1, y as int));
            } else {
                assert(p.last() == ' ');
                assert(p.drop_last() =~= s@.subrange(x as int, y - 1));
            }
        }
        if s[x] == ' ' {
            x = x + 1;
        } else {
            y = y - 1;
        }
    }
    crate::text::copy_range(s, x, y)
}

/// The breakpoint numbers of a comma-separated list, each possibly with
/// spaces around it.
pub fn parse_breakpoint_list(text: &str) -> (r: Result<Vec<BreakPointNumber>, AppError>)
    ensures
        r is Ok <==> forall|i: int|
            0 <= i < pieces_from(text@, 0).len() ==> bp_number_of(
                trim_spaces(#[trigger] pieces_from(text@, 0)[i]),
            ) is Some,
        r is Ok ==> r->Ok_0@.len() == pieces_from(text@, 0).len() && forall|i: int|
            0 <= i < r->Ok_0@.len() ==> bp_number_of(trim_spaces(pieces_from(text@, 0)[i]))
                == Some(#[trigger] r->Ok_0@[i]),
        r is Err ==> r->Err_0 is InvalidArgument,
{
    let s = chars_of(text);
    let ghost ps = pieces_from(s@, 0);
    let mut out: Vec<BreakPointNumber> = Vec::new();
    let mut k: usize = 0;
    proof {
        assert(ps.subrange(0, 0) =~= Seq::<Seq<char>>::empty());
        assert(ps =~= ps.subrange(0, 0) + pieces_from(s@, 0));
    }
    loop
        invariant
            k <= s@.len(),
            s@ == text@,
            ps == pieces_from(s@, 0),
            out@.len() <= ps.len(),
            ps == ps.subrange(0, out@.len() as int) + pieces_from(s@, k as int),
            forall|i: int| 0 <= i < out@.len() ==> bp_number_of(trim_spaces(ps[i])) == Some(
                #[trigger] out@[i],
            ),
        decreases s@.len() - k,
    {
        let mut e = k;
        while e < s.len() && s[e] != ','
            invariant
                k <= e <= s@.len(),
                comma_at(s@, k as int) == comma_at(s@, e as int),
            decreases s@.len() - e,
        {
            e = e + 1;
        }
        let piece = trim_range(&s, k, e);
        let ghost n: int = out@.len() as int;
        proof {
            assert(pieces_from(s@, k as int)[0] == s@.subrange(k as int, e as int));
            assert(ps[n as int] == s@.subrange(k as int, e as int)) by {
                assert(ps[n as int] == (ps.subrange(0, n as int) + pieces_from(s@, k as int))[n as int]);
            }
        }
        let ps_str = string_of(&piece);
        match BreakPointNumber::from_str(ps_str.as_str()) {
            Ok(b) => {
                out.push(b);
            },
            Err(_) => {
                proof {
                    assert(bp_number_of(trim_spaces(ps[n as int])) is None);
                }
                return Err(AppError::InvalidArgument(owned("invalid breakpoint number")));
            },
        }
        if e >= s.len() {
            proof {
                assert(pieces_from(s@, k as int) =~= seq![s@.subrange(k as int, e as int)]);
                assert(ps.len() == n + 1);
                assert forall|i: int| 0 <= i < pieces_from(text@, 0).len() implies bp_number_of(
                    trim_spaces(#[trigger] pieces_from(text@, 0)[i]),
                ) is Some by {
                    assert(bp_number_of(trim_spaces(ps[i])) == Some(out@[i]));
                }
            }
            return Ok(out);
        }
        proof {
            assert(pieces_from(s@, k as int) =~= seq![s@.subrange(k as int, e as int)] + pieces_from(
                s@,
                e + 1,
            ));
            assert(ps =~= ps.subrange(0, n + 1 as int) + pieces_from(s@, e + 1)) by {
                assert(ps.subrange(0, n + 1 as int) =~= ps.subrange(0, n as int).push(ps[n as int]));
            }
        }
        k = e + 1;
    }
}

} // verus!
