use vstd::prelude::*;

use crate::text::{
    char_from_u32, chars_of, dec_value, digit_val, hex_val, hex_value, is_digit, is_hex_digit,
    lemma_dec_value_monotone, lemma_hex_value_monotone, segment_is, string_of, substring,
};
use crate::value::{
    collapse, collapse_entries, entries_view, lemma_list_view, lemma_tuple_view, vals_view, MiValue,
    Val,
};

verus! {

/// The class of a result record.
#[derive(Debug, Clone, Copy, PartialEq, Eq, Structural)]
pub enum ResultClass {
    Done,
    Running,
    Connected,
    Error,
    Exit,
}

#[derive(Debug, Clone, Copy, PartialEq, Eq, Structural)]
pub enum BreakPointEvent {
    Created,
    Deleted,
    Modified,
}

#[derive(Debug, Clone, Copy, PartialEq, Eq, Structural)]
pub enum ThreadEvent {
    Created,
    GroupStarted,
    Exited,
    GroupExited,
    Selected,
}

/// The class of an asynchronous record.
#[derive(Debug, PartialEq, Eq)]
pub enum AsyncClass {
    Running,
    Stopped,
    CmdParamChanged,
    LibraryLoaded,
    Thread(ThreadEvent),
    BreakPoint(BreakPointEvent),
    Other(String),
}

/// `*` (exec), `+` (status) or `=` (notify).
#[derive(Debug, Clone, Copy, PartialEq, Eq, Structural)]
pub enum AsyncKind {
    Exec,
    Status,
    Notify,
}

/// `~` (console), `@` (target) or `&` (log).
#[derive(Debug, Clone, Copy, PartialEq, Eq, Structural)]
pub enum StreamKind {
    Console,
    Target,
    Log,
}

/// A synchronous reply to a command.
#[derive(Debug, PartialEq, Eq)]
pub struct ResultRecord {
    pub token: Option<u64>,
    pub class: ResultClass,
    pub results: MiValue,
}

/// A record that is not the reply to a command.
#[allow(inconsistent_fields)]
#[derive(Debug, PartialEq, Eq)]
pub enum OutOfBandRecord {
    AsyncRecord { token: Option<u64>, kind: AsyncKind, class: AsyncClass, results: MiValue },
    StreamRecord { kind: StreamKind, data: String },
}

/// What one line of debugger output holds.
#[derive(Debug, PartialEq, Eq)]
pub enum Output {
    Result(ResultRecord),
    OutOfBand(OutOfBandRecord),
    GDBLine,
    SomethingElse(String),
}

/// The mathematical form of an asynchronous class.
pub enum AsyncClassV {
    Running,
    Stopped,
    CmdParamChanged,
    LibraryLoaded,
    Thread(ThreadEvent),
    BreakPoint(BreakPointEvent),
    Other(Seq<char>),
}

/// The mathematical form of a line of output.
#[allow(inconsistent_fields)]
pub enum OutputV {
    Result { token: Option<u64>, class: ResultClass, results: Val },
    Async { token: Option<u64>, kind: AsyncKind, class: AsyncClassV, results: Val },
    Stream { kind: StreamKind, data: Seq<char> },
    Prompt,
    Else(Seq<char>),
}

impl View for AsyncClass {
    type V = AsyncClassV;

    open spec fn view(&self) -> AsyncClassV {
        match self {
            AsyncClass::Running => AsyncClassV::Running,
            AsyncClass::Stopped => AsyncClassV::Stopped,
            AsyncClass::CmdParamChanged => AsyncClassV::CmdParamChanged,
            AsyncClass::LibraryLoaded => AsyncClassV::LibraryLoaded,
            AsyncClass::Thread(e) => AsyncClassV::Thread(*e),
            AsyncClass::BreakPoint(e) => AsyncClassV::BreakPoint(*e),
            AsyncClass::Other(s) => AsyncClassV::Other(s@),
        }
    }
}

impl View for Output {
    type V = OutputV;

    open spec fn view(&self) -> OutputV {
        match self {
            Output::Result(r) => OutputV::Result {
                token: r.token,
                class: r.class,
                results: r.results@,
            },
            Output::OutOfBand(OutOfBandRecord::AsyncRecord { token, kind, class, results }) => {
                OutputV::Async { token: *token, kind: *kind, class: class@, results: results@ }
            },
            Output::OutOfBand(OutOfBandRecord::StreamRecord { kind, data }) => OutputV::Stream {
                kind: *kind,
                data: data@,
            },
            Output::GDBLine => OutputV::Prompt,
            Output::SomethingElse(s) => OutputV::Else(s@),
        }
    }
}

// ---------------------------------------------------------------------------
// The grammar, stated over the characters of a line.
// ---------------------------------------------------------------------------
pub open spec fn is_ws(c: char) -> bool {
    c == ' ' || c == '\t' || c == '\n' || c == '\r'
}

/// The end of the run of whitespace that starts at `i`.
pub open spec fn ws_end(s: Seq<char>, i: int) -> int
    decreases s.len() - i,
{
    if 0 <= i < s.len() && is_ws(s[i]) {
        ws_end(s, i + 1)
    } else {
        i
    }
}

/// The number of hexadecimal digits at `i`, counting at most `m`.
pub open spec fn hex_run(s: Seq<char>, i: int, m: nat) -> nat
    decreases m,
{
    if m == 0 || i < 0 || i >= s.len() || !is_hex_digit(s[i]) {
        0
    } else {
        1 + hex_run(s, i + 1, (m - 1) as nat)
    }
}

/// The character that a one-letter escape stands for.
pub open spec fn simple_escape(c: char) -> Option<char> {
    if c == 'n' {
        Some('\n')
    } else if c == 'r' {
        Some('\r')
    } else if c == 't' {
        Some('\t')
    } else if c == 'b' {
        Some('\u{8}')
    } else if c == 'f' {
        Some('\u{c}')
    } else if c == '\\' {
        Some('\\')
    } else if c == '/' {
        Some('/')
    } else if c == '"' {
        Some('"')
    } else {
        None
    }
}

/// An escape whose backslash stands just before `i`: the character it stands
/// for (`None` for swallowed whitespace) and where it ends.
pub open spec fn escape_at(s: Seq<char>, i: int) -> Option<(Option<char>, int)> {
    if i < 0 || i >= s.len() {
        None
    } else if s[i] == 'u' {
        let n = hex_run(s, i + 2, 6);
        if i + 1 < s.len() && s[i + 1] == '{' && n >= 1 && i + 2 + n < s.len() && s[i + 2 + n]
            == '}' && vstd::utf8::is_scalar(hex_value(s, i + 2, n) as u32) {
            Some((Some((hex_value(s, i + 2, n) as u32) as char), i + 3 + n))
        } else {
            None
        }
    } else if simple_escape(s[i]) is Some {
        Some((simple_escape(s[i]), i + 1))
    } else if is_ws(s[i]) {
        Some((None, ws_end(s, i)))
    } else {
        None
    }
}

pub open spec fn opt_seq(c: Option<char>) -> Seq<char> {
    match c {
        Some(x) => seq![x],
        None => Seq::empty(),
    }
}

pub open spec fn prepend(a: Seq<char>, r: Option<(Seq<char>, int)>) -> Option<(Seq<char>, int)> {
    match r {
        Some((t, k)) => Some((a + t, k)),
        None => None,
    }
}

/// The rest of a C-string whose opening quote stands before `i`: its
/// characters after unescaping, and the position after the closing quote.
pub open spec fn str_body(s: Seq<char>, i: int) -> Option<(Seq<char>, int)>
    decreases s.len() - i,
{
    if i < 0 || i >= s.len() {
        None
    } else if s[i] == '"' {
        Some((Seq::empty(), i + 1))
    } else if s[i] == '\\' {
        match escape_at(s, i + 1) {
            Some((c, j)) => if i < j <= s.len() {
                prepend(opt_seq(c), str_body(s, j))
            } else {
                None
            },
            None => None,
        }
    } else {
        prepend(seq![s[i]], str_body(s, i + 1))
    }
}

proof fn lemma_prepend_assoc(a: Seq<char>, b: Seq<char>, r: Option<(Seq<char>, int)>)
    ensures
        prepend(a, prepend(b, r)) == prepend(a + b, r),
{
    if let Some((t, k)) = r {
        assert(a + (b + t) =~= (a + b) + t);
    }
}

proof fn lemma_ws_end(s: Seq<char>, i: int)
    requires
        0 <= i <= s.len(),
    ensures
        i <= ws_end(s, i) <= s.len(),
    decreases s.len() - i,
{
    if 0 <= i < s.len() && is_ws(s[i]) {
        lemma_ws_end(s, i + 1);
    }
}

proof fn lemma_hex_run(s: Seq<char>, i: int, m: nat)
    requires
        0 <= i,
    ensures
        hex_run(s, i, m) <= m,
        i + hex_run(s, i, m) <= s.len() || hex_run(s, i, m) == 0,
        forall|k: int| i <= k < i + hex_run(s, i, m) ==> is_hex_digit(#[trigger] s[k]),
    decreases m,
{
    if !(m == 0 || i >= s.len() || !is_hex_digit(s[i])) {
        lemma_hex_run(s, i + 1, (m - 1) as nat);
    }
}

pub open spec fn pow16(n: nat) -> nat
    decreases n,
{
    if n == 0 {
        1
    } else {
        16 * pow16((n - 1) as nat)
    }
}

proof fn lemma_hex_value_bound(s: Seq<char>, i: int, n: nat)
    requires
        forall|k: int| i <= k < i + n ==> is_hex_digit(#[trigger] s[k]),
    ensures
        hex_value(s, i, n) < pow16(n),
    decreases n,
{
    if n > 0 {
        lemma_hex_value_bound(s, i, (n - 1) as nat);
        assert(is_hex_digit(s[i + n - 1]));
        assert(hex_val(s[i + n - 1]) < 16);
        let a = hex_value(s, i, (n - 1) as nat);
        let b = pow16((n - 1) as nat);
        let d = hex_val(s[i + n - 1]);
        assert(a * 16 + d < 16 * b) by (nonlinear_arith)
            requires
                a < b,
                d < 16,
        ;
    }
}

fn ws_end_exec(s: &Vec<char>, i: usize) -> (r: usize)
    requires
        i <= s@.len(),
    ensures
        r as int == ws_end(s@, i as int),
        i <= r <= s@.len(),
{
    let mut k = i;
    while k < s.len() && (s[k] == ' ' || s[k] == '\t' || s[k] == '\n' || s[k] == '\r')
        invariant
            i <= k <= s@.len(),
            ws_end(s@, i as int) == ws_end(s@, k as int),
        decreases s@.len() - k,
    {
        k = k + 1;
    }
    k
}

fn simple_escape_exec(c: char) -> (r: Option<char>)
    ensures
        r == simple_escape(c),
{
    if c == 'n' {
        Some('\n')
    } else if c == 'r' {
        Some('\r')
    } else if c == 't' {
        Some('\t')
    } else if c == 'b' {
        Some('\u{8}')
    } else if c == 'f' {
        Some('\u{c}')
    } else if c == '\\' {
        Some('\\')
    } else if c == '/' {
        Some('/')
    } else if c == '"' {
        Some('"')
    } else {
        None
    }
}

fn escape_exec(s: &Vec<char>, i: usize) -> (r: Option<(Option<char>, usize)>)
    requires
        i <= s@.len(),
    ensures
        match r {
            Some((c, j)) => escape_at(s@, i as int) == Some((c, j as int)) && i < j <= s@.len(),
            None => escape_at(s@, i as int) is None,
        },
{
    if i >= s.len() {
        return None;
    }
    let c = s[i];
    if c == 'u' {
        if i + 1 < s.len() && s[i + 1] == '{' {
            let start = i + 2;
            let slen = s.len();
            let mut n: usize = 0;
            let mut v: u32 = 0;
            proof {
                lemma_hex_run(s@, start as int, 6);
            }
            while n < 6 && start + n < s.len() && (('0' <= s[start + n] && s[start + n] <= '9')
                || ('a' <= s[start + n] && s[start + n] <= 'f') || ('A' <= s[start + n] && s[
                start + n] <= 'F'))
                invariant
                    start == i + 2,
                    slen == s@.len(),
                    n <= 6,
                    start + n <= s@.len(),
                    hex_run(s@, start as int, 6) == n + hex_run(s@, start + n, (6 - n) as nat),
                    v == hex_value(s@, start as int, n as nat),
                    forall|k: int| start <= k < start + n ==> is_hex_digit(#[trigger] s@[k]),
                    v < pow16(n as nat),
                    pow16(n as nat) * pow16((6 - n) as nat) == pow16(6),
                decreases 6 - n,
            {
                let ch = s[start + n];
                let d: u32 = if '0' <= ch && ch <= '9' {
                    (ch as u32) - ('0' as u32)
                } else if 'a' <= ch && ch <= 'f' {
                    (ch as u32) - ('a' as u32) + 10
                } else {
                    (ch as u32) - ('A' as u32) + 10
                };
                proof {
                    reveal_with_fuel(pow16, 7);
                    assert(pow16(6) == 16777216);
                    let p = pow16(n as nat);
                    let q = pow16((5 - n) as nat);
                    assert(pow16((6 - n) as nat) == 16 * q);
                    assert(p * (16 * q) == 16777216);
                    assert(v < p);
                    assert(q >= 1) by {
                        lemma_pow16_pos((5 - n) as nat);
                    }
                    assert(v * 16 + d < 16 * p) by (nonlinear_arith)
                        requires
                            v < p,
                            d < 16,
                    ;
                    assert(16 * p <= 16777216) by (nonlinear_arith)
                        requires
                            p * (16 * q) == 16777216,
                            q >= 1,
                    ;
                    assert(pow16((n + 1) as nat) == 16 * p);
                    assert(pow16((n + 1) as nat) * pow16((5 - n) as nat) == pow16(6)) by (
                    nonlinear_arith)
                        requires
                            pow16((n + 1) as nat) == 16 * p,
                            p * (16 * q) == 16777216,
                            pow16(6) == 16777216,
                            q == pow16((5 - n) as nat),
                    ;
                    assert(hex_val(ch) == d);
                }
                v = v * 16 + d;
                n = n + 1;
                proof {
                    assert(hex_value(s@, start as int, n as nat) == hex_value(
                        s@,
                        start as int,
                        (n - 1) as nat,
                    ) * 16 + hex_val(s@[start + n - 1]));
                }
            }
            proof {
                reveal_with_fuel(hex_run, 2);
                assert(hex_run(s@, start as int, 6) == n);
            }
            if n >= 1 && start + n < s.len() && s[start + n] == '}' {
                match char_from_u32(v) {
                    Some(ch) => {
                        return Some((Some(ch), start + n + 1));
                    },
                    None => {
                        return None;
                    },
                }
            }
        }
        return None;
    }
    match simple_escape_exec(c) {
        Some(e) => Some((Some(e), i + 1)),
        None => {
            if c == ' ' || c == '\t' || c == '\n' || c == '\r' {
                let j = ws_end_exec(s, i);
                proof {
                    lemma_ws_end(s@, i + 1);
                }
                Some((None, j))
            } else {
                None
            }
        },
    }
}

proof fn lemma_pow16_pos(n: nat)
    ensures
        pow16(n) >= 1,
    decreases n,
{
    if n > 0 {
        lemma_pow16_pos((n - 1) as nat);
    }
}

/// Reads the rest of a C-string whose opening quote stands before `i`.
fn str_body_exec(s: &Vec<char>, i: usize) -> (r: Option<(Vec<char>, usize)>)
    requires
        i <= s@.len(),
    ensures
        match r {
            Some((t, j)) => str_body(s@, i as int) == Some((t@, j as int)) && i < j <= s@.len(),
            None => str_body(s@, i as int) is None,
        },
{
    let mut acc: Vec<char> = Vec::new();
    let mut k = i;
    proof {
        assert(prepend(acc@, str_body(s@, k as int)) == str_body(s@, i as int)) by {
            if let Some((t, j)) = str_body(s@, i as int) {
                assert(acc@ + t =~= t);
            }
        }
    }
    loop
        invariant
            i <= k <= s@.len(),
            prepend(acc@, str_body(s@, k as int)) == str_body(s@, i as int),
        decreases s@.len() - k,
    {
        if k >= s.len() {
            return None;
        }
        let c = s[k];
        if c == '"' {
            proof {
                assert(acc@ + Seq::<char>::empty() =~= acc@);
            }
            return Some((acc, k + 1));
        } else if c == '\\' {
            match escape_exec(s, k + 1) {
                Some((e, j)) => {
                    let ghost before = acc@;
                    proof {
                        lemma_prepend_assoc(before, opt_seq(e), str_body(s@, j as int));
                    }
                    match e {
                        Some(x) => {
                            acc.push(x);
                        },
                        None => {},
                    }
                    proof {
                        assert(acc@ =~= before + opt_seq(e));
                    }
                    k = j;
                },
                None => {
                    return None;
                },
            }
        } else {
            proof {
                lemma_prepend_assoc(acc@, seq![c], str_body(s@, k + 1));
            }
            acc.push(c);
            k = k + 1;
        }
    }
}

pub open spec fn is_key_stop(c: char) -> bool {
    c == '=' || c == '{' || c == '}'
}

/// The end of the name that starts at `i`.
pub open spec fn key_end(s: Seq<char>, i: int) -> int
    decreases s.len() - i,
{
    if 0 <= i < s.len() && !is_key_stop(s[i]) {
        key_end(s, i + 1)
    } else {
        i
    }
}

/// One value stands for itself; none or several make a list.
pub open spec fn single_or_list(vs: Seq<Val>) -> Val {
    if vs.len() == 1 {
        vs[0]
    } else {
        Val::List(vs)
    }
}

/// A value at `i`: a C-string, a tuple `{name=value,...}`, or a list
/// `[value,...]` or `[name=value,...]` (whose names are dropped).
pub open spec fn p_value(s: Seq<char>, i: int) -> Option<(Val, int)>
    decreases s.len() - i, 0int,
{
    if i < 0 || i >= s.len() {
        None
    } else if s[i] == '"' {
        match str_body(s, i + 1) {
            Some((t, j)) => Some((Val::Str(t), j)),
            None => None,
        }
    } else if s[i] == '{' {
        let (kvs, j) = p_kv_list(s, i + 1);
        if 0 <= j < s.len() && s[j] == '}' {
            Some((Val::Tuple(collapse(kvs)), j + 1))
        } else {
            None
        }
    } else if s[i] == '[' {
        let (vs, j) = p_value_list(s, i + 1);
        if 0 <= j < s.len() && s[j] == ']' {
            Some((Val::List(vs), j + 1))
        } else {
            let (kvs, j2) = p_kv_list(s, i + 1);
            if 0 <= j2 < s.len() && s[j2] == ']' {
                Some((Val::List(kvs.map_values(|e: (Seq<char>, Val)| e.1)), j2 + 1))
            } else {
                None
            }
        }
    } else {
        None
    }
}

/// Values separated by commas, as many as there are (possibly none).
pub open spec fn p_value_list(s: Seq<char>, p: int) -> (Seq<Val>, int)
    decreases s.len() - p, 1int,
{
    match p_value(s, p) {
        Some((v, q)) => if p < q <= s.len() {
            let (rest, r) = p_more_values(s, q);
            (seq![v] + rest, r)
        } else {
            (Seq::empty(), p)
        },
        None => (Seq::empty(), p),
    }
}

/// Further values, each after a comma.
pub open spec fn p_more_values(s: Seq<char>, q: int) -> (Seq<Val>, int)
    decreases s.len() - q, 0int,
{
    if 0 <= q < s.len() && s[q] == ',' {
        match p_value(s, q + 1) {
            Some((v, r)) => if q < r <= s.len() {
                let (rest, t) = p_more_values(s, r);
                (seq![v] + rest, t)
            } else {
                (Seq::empty(), q)
            },
            None => (Seq::empty(), q),
        }
    } else {
        (Seq::empty(), q)
    }
}

/// `name=value`, where several comma-separated values make a list.
pub open spec fn p_kv(s: Seq<char>, p: int) -> Option<((Seq<char>, Val), int)>
    decreases s.len() - p, 0int,
{
    let e = key_end(s, p);
    if 0 <= p < e < s.len() && s[e] == '=' {
        let (vs, r) = p_value_list(s, e + 1);
        Some(((s.subrange(p, e), single_or_list(vs)), r))
    } else {
        None
    }
}

/// Named values separated by commas, as many as there are (possibly none).
pub open spec fn p_kv_list(s: Seq<char>, p: int) -> (Seq<(Seq<char>, Val)>, int)
    decreases s.len() - p, 1int,
{
    match p_kv(s, p) {
        Some((e, q)) => if p < q <= s.len() {
            let (rest, r) = p_more_kvs(s, q);
            (seq![e] + rest, r)
        } else {
            (Seq::empty(), p)
        },
        None => (Seq::empty(), p),
    }
}

/// Further named values, each after a comma.
pub open spec fn p_more_kvs(s: Seq<char>, q: int) -> (Seq<(Seq<char>, Val)>, int)
    decreases s.len() - q, 0int,
{
    if 0 <= q < s.len() && s[q] == ',' {
        match p_kv(s, q + 1) {
            Some((e, r)) => if q < r <= s.len() {
                let (rest, t) = p_more_kvs(s, r);
                (seq![e] + rest, t)
            } else {
                (Seq::empty(), q)
            },
            None => (Seq::empty(), q),
        }
    } else {
        (Seq::empty(), q)
    }
}

fn key_end_exec(s: &Vec<char>, i: usize) -> (r: usize)
    requires
        i <= s@.len(),
    ensures
        r as int == key_end(s@, i as int),
        i <= r <= s@.len(),
{
    let mut k = i;
    while k < s.len() && !(s[k] == '=' || s[k] == '{' || s[k] == '}')
        invariant
            i <= k <= s@.len(),
            key_end(s@, i as int) == key_end(s@, k as int),
        decreases s@.len() - k,
    {
        k = k + 1;
    }
    k
}

fn single_or_list_exec(vs: Vec<MiValue>) -> (r: MiValue)
    ensures
        r@ == single_or_list(vals_view(vs@)),
{
    let mut vs = vs;
    if vs.len() == 1 {
        let ghost before = vs@;
        let x = vs.pop().unwrap();
        proof {
            assert(x@ == vals_view(before)[0]);
        }
        x
    } else {
        proof {
            lemma_list_view(vs);
        }
        MiValue::List(vs)
    }
}

fn values_of_entries(kvs: Vec<(String, MiValue)>) -> (r: Vec<MiValue>)
    ensures
        vals_view(r@) == entries_view(kvs@).map_values(|e: (Seq<char>, Val)| e.1),
{
    let ghost all = entries_view(kvs@);
    let len = kvs.len();
    let mut rest = kvs;
    let mut out: Vec<MiValue> = Vec::new();
    let mut i: usize = 0;
    while rest.len() > 0
        invariant
            i + rest@.len() == len,
            all.len() == len,
            out@.len() == i,
            entries_view(rest@) == all.subrange(i as int, len as int),
            vals_view(out@) == all.subrange(0, i as int).map_values(|e: (Seq<char>, Val)| e.1),
        decreases rest@.len(),
    {
        let ghost rest_before = rest@;
        let ghost out_before = out@;
        let (_k, v) = rest.remove(0);
        proof {
            assert(entries_view(rest_before)[0] == all.subrange(i as int, len as int)[0]);
            assert forall|m: int| 0 <= m < rest@.len() implies entries_view(rest@)[m] == all.subrange(
                i + 1,
                len as int,
            )[m] by {
                assert(rest@[m] == rest_before[m + 1]);
                assert(entries_view(rest_before)[m + 1] == all.subrange(i as int, len as int)[m
                    + 1]);
            }
            assert(entries_view(rest@) =~= all.subrange(i + 1, len as int));
        }
        out.push(v);
        proof {
            let target = all.subrange(0, i + 1).map_values(|e: (Seq<char>, Val)| e.1);
            let prev = all.subrange(0, i as int).map_values(|e: (Seq<char>, Val)| e.1);
            assert forall|m: int| 0 <= m <= i implies vals_view(out@)[m] == target[m] by {
                if m < i {
                    assert(out@[m] == out_before[m]);
                    assert(vals_view(out_before)[m] == prev[m]);
                }
            }
            assert(vals_view(out@) =~= target);
        }
        i = i + 1;
    }
    proof {
        assert(all.subrange(0, len as int) =~= all);
    }
    out
}

fn value_exec(s: &Vec<char>, i: usize) -> (r: Option<(MiValue, usize)>)
    requires
        i <= s@.len(),
    ensures
        match r {
            Some((v, j)) => p_value(s@, i as int) == Some((v@, j as int)) && i < j <= s@.len(),
            None => p_value(s@, i as int) is None,
        },
    decreases s@.len() - i, 0int,
{
    if i >= s.len() {
        return None;
    }
    let c = s[i];
    if c == '"' {
        match str_body_exec(s, i + 1) {
            Some((t, j)) => {
                let st = string_of(&t);
                Some((MiValue::Str(st), j))
            },
            None => None,
        }
    } else if c == '{' {
        let (kvs, j) = kv_list_exec(s, i + 1);
        if j < s.len() && s[j] == '}' {
            let es = collapse_entries(kvs);
            proof {
                lemma_tuple_view(es);
            }
            Some((MiValue::Tuple(es), j + 1))
        } else {
            None
        }
    } else if c == '[' {
        let (vs, j) = value_list_exec(s, i + 1);
        if j < s.len() && s[j] == ']' {
            proof {
                lemma_list_view(vs);
            }
            Some((MiValue::List(vs), j + 1))
        } else {
            let (kvs, j2) = kv_list_exec(s, i + 1);
            if j2 < s.len() && s[j2] == ']' {
                let vs2 = values_of_entries(kvs);
                proof {
                    lemma_list_view(vs2);
                }
                Some((MiValue::List(vs2), j2 + 1))
            } else {
                None
            }
        }
    } else {
        None
    }
}

fn value_list_exec(s: &Vec<char>, p: usize) -> (r: (Vec<MiValue>, usize))
    requires
        p <= s@.len(),
    ensures
        (vals_view(r.0@), r.1 as int) == p_value_list(s@, p as int),
        p <= r.1 <= s@.len(),
    decreases s@.len() - p, 1int,
{
    match value_exec(s, p) {
        Some((v, q)) => {
            let (mut rest, r) = more_values_exec(s, q);
            let ghost rest_view = vals_view(rest@);
            rest.insert(0, v);
            proof {
                assert(vals_view(rest@) =~= seq![v@] + rest_view);
            }
            (rest, r)
        },
        None => {
            let out: Vec<MiValue> = Vec::new();
            proof {
                assert(vals_view(out@) =~= Seq::<Val>::empty());
            }
            (out, p)
        },
    }
}

fn more_values_exec(s: &Vec<char>, q: usize) -> (r: (Vec<MiValue>, usize))
    requires
        q <= s@.len(),
    ensures
        (vals_view(r.0@), r.1 as int) == p_more_values(s@, q as int),
        q <= r.1 <= s@.len(),
    decreases s@.len() - q, 0int,
{
    let mut acc: Vec<MiValue> = Vec::new();
    let mut k = q;
    proof {
        let m = p_more_values(s@, q as int);
        assert(vals_view(acc@) + m.0 =~= m.0);
    }
    loop
        invariant
            q <= k <= s@.len(),
            p_more_values(s@, q as int) == (
                vals_view(acc@) + p_more_values(s@, k as int).0,
                p_more_values(s@, k as int).1,
            ),
        decreases s@.len() - k,
    {
        if k < s.len() && s[k] == ',' {
            match value_exec(s, k + 1) {
                Some((v, r)) => {
                    let ghost before = vals_view(acc@);
                    acc.push(v);
                    proof {
                        assert(vals_view(acc@) =~= before.push(v@));
                        let m = p_more_values(s@, r as int);
                        assert(before + (seq![v@] + m.0) =~= vals_view(acc@) + m.0);
                    }
                    k = r;
                },
                None => {
                    proof {
                        assert(vals_view(acc@) + Seq::<Val>::empty() =~= vals_view(acc@));
                    }
                    return (acc, k);
                },
            }
        } else {
            proof {
                assert(vals_view(acc@) + Seq::<Val>::empty() =~= vals_view(acc@));
            }
            return (acc, k);
        }
    }
}

fn kv_exec(s: &Vec<char>, p: usize) -> (r: Option<((String, MiValue), usize)>)
    requires
        p <= s@.len(),
    ensures
        match r {
            Some((e, j)) => p_kv(s@, p as int) == Some(((e.0@, e.1@), j as int)) && p < j
                <= s@.len(),
            None => p_kv(s@, p as int) is None,
        },
    decreases s@.len() - p, 0int,
{
    let e = key_end_exec(s, p);
    if p < e && e < s.len() && s[e] == '=' {
        let (vs, r) = value_list_exec(s, e + 1);
        let key = substring(s, p, e);
        let v = single_or_list_exec(vs);
        Some(((key, v), r))
    } else {
        None
    }
}

fn kv_list_exec(s: &Vec<char>, p: usize) -> (r: (Vec<(String, MiValue)>, usize))
    requires
        p <= s@.len(),
    ensures
        (entries_view(r.0@), r.1 as int) == p_kv_list(s@, p as int),
        p <= r.1 <= s@.len(),
    decreases s@.len() - p, 1int,
{
    match kv_exec(s, p) {
        Some((e, q)) => {
            let (mut rest, r) = more_kvs_exec(s, q);
            let ghost rest_view = entries_view(rest@);
            let ghost ev = (e.0@, e.1@);
            rest.insert(0, e);
            proof {
                assert(entries_view(rest@) =~= seq![ev] + rest_view);
            }
            (rest, r)
        },
        None => {
            let out: Vec<(String, MiValue)> = Vec::new();
            proof {
                assert(entries_view(out@) =~= Seq::<(Seq<char>, Val)>::empty());
            }
            (out, p)
        },
    }
}

fn more_kvs_exec(s: &Vec<char>, q: usize) -> (r: (Vec<(String, MiValue)>, usize))
    requires
        q <= s@.len(),
    ensures
        (entries_view(r.0@), r.1 as int) == p_more_kvs(s@, q as int),
        q <= r.1 <= s@.len(),
    decreases s@.len() - q, 0int,
{
    let mut acc: Vec<(String, MiValue)> = Vec::new();
    let mut k = q;
    proof {
        let m = p_more_kvs(s@, q as int);
        assert(entries_view(acc@) + m.0 =~= m.0);
    }
    loop
        invariant
            q <= k <= s@.len(),
            p_more_kvs(s@, q as int) == (
                entries_view(acc@) + p_more_kvs(s@, k as int).0,
                p_more_kvs(s@, k as int).1,
            ),
        decreases s@.len() - k,
    {
        if k < s.len() && s[k] == ',' {
            match kv_exec(s, k + 1) {
                Some((e, r)) => {
                    let ghost before = entries_view(acc@);
                    let ghost ev = (e.0@, e.1@);
                    acc.push(e);
                    proof {
                        assert(entries_view(acc@) =~= before.push(ev));
                        let m = p_more_kvs(s@, r as int);
                        assert(before + (seq![ev] + m.0) =~= entries_view(acc@) + m.0);
                    }
                    k = r;
                },
                None => {
                    proof {
                        assert(entries_view(acc@) + Seq::<(Seq<char>, Val)>::empty() =~= entries_view(
                            acc@,
                        ));
                    }
                    return (acc, k);
                },
            }
        } else {
            proof {
                assert(entries_view(acc@) + Seq::<(Seq<char>, Val)>::empty() =~= entries_view(acc@));
            }
            return (acc, k);
        }
    }
}

/// The end of the class name that starts at `i`.
pub open spec fn word_end(s: Seq<char>, i: int) -> int
    decreases s.len() - i,
{
    if 0 <= i < s.len() && s[i] != ',' && s[i] != '\r' && s[i] != '\n' {
        word_end(s, i + 1)
    } else {
        i
    }
}

/// The number of decimal digits at `i`.
pub open spec fn digit_run(s: Seq<char>, i: int) -> nat
    decreases s.len() - i,
{
    if 0 <= i < s.len() && is_digit(s[i]) {
        1 + digit_run(s, i + 1)
    } else {
        0
    }
}

/// Whether the line ends at `i` with `\n` or `\r\n`.
pub open spec fn line_end_at(s: Seq<char>, i: int) -> bool {
    (i + 1 == s.len() && s[i] == '\n') || (i + 2 == s.len() && s[i] == '\r' && s[i + 1] == '\n')
}

pub open spec fn result_class_of(w: Seq<char>) -> Option<ResultClass> {
    if w == "done"@ {
        Some(ResultClass::Done)
    } else if w == "running"@ {
        Some(ResultClass::Running)
    } else if w == "connected"@ {
        Some(ResultClass::Connected)
    } else if w == "error"@ {
        Some(ResultClass::Error)
    } else if w == "exit"@ {
        Some(ResultClass::Exit)
    } else {
        None
    }
}

pub open spec fn async_class_of(w: Seq<char>) -> AsyncClassV {
    if w == "running"@ {
        AsyncClassV::Running
    } else if w == "stopped"@ {
        AsyncClassV::Stopped
    } else if w == "thread-created"@ {
        AsyncClassV::Thread(ThreadEvent::Created)
    } else if w == "thread-group-started"@ {
        AsyncClassV::Thread(ThreadEvent::GroupStarted)
    } else if w == "thread-exited"@ {
        AsyncClassV::Thread(ThreadEvent::Exited)
    } else if w == "thread-group-exited"@ {
        AsyncClassV::Thread(ThreadEvent::GroupExited)
    } else if w == "thread-selected"@ {
        AsyncClassV::Thread(ThreadEvent::Selected)
    } else if w == "cmd-param-changed"@ {
        AsyncClassV::CmdParamChanged
    } else if w == "library-loaded"@ {
        AsyncClassV::LibraryLoaded
    } else if w == "breakpoint-created"@ {
        AsyncClassV::BreakPoint(BreakPointEvent::Created)
    } else if w == "breakpoint-deleted"@ {
        AsyncClassV::BreakPoint(BreakPointEvent::Deleted)
    } else if w == "breakpoint-modified"@ {
        AsyncClassV::BreakPoint(BreakPointEvent::Modified)
    } else {
        AsyncClassV::Other(w)
    }
}

pub open spec fn async_kind_of(c: char) -> Option<AsyncKind> {
    if c == '*' {
        Some(AsyncKind::Exec)
    } else if c == '+' {
        Some(AsyncKind::Status)
    } else if c == '=' {
        Some(AsyncKind::Notify)
    } else {
        None
    }
}

pub open spec fn stream_kind_of(c: char) -> Option<StreamKind> {
    if c == '~' {
        Some(StreamKind::Console)
    } else if c == '@' {
        Some(StreamKind::Target)
    } else if c == '&' {
        Some(StreamKind::Log)
    } else {
        None
    }
}

/// The token that the line starts with, if any.
pub open spec fn line_token(s: Seq<char>) -> Option<u64> {
    let d = digit_run(s, 0);
    if d == 0 {
        None
    } else {
        Some(dec_value(s, 0, d) as u64)
    }
}

/// What a line of output (with its line ending) holds: a result record, an
/// asynchronous record, a stream record or the prompt, each followed directly
/// by the line ending; any other line is kept whole.
pub open spec fn parse_line(s: Seq<char>) -> OutputV {
    let d = digit_run(s, 0) as int;
    if d > 0 && dec_value(s, 0, d as nat) > u64::MAX {
        OutputV::Else(s)
    } else if d < s.len() && s[d] == '^' {
        let c = word_end(s, d + 1);
        match result_class_of(s.subrange(d + 1, c)) {
            Some(class) => {
                let (kvs, e) = p_more_kvs(s, c);
                if line_end_at(s, e) {
                    OutputV::Result {
                        token: line_token(s),
                        class,
                        results: Val::Tuple(collapse(kvs)),
                    }
                } else {
                    OutputV::Else(s)
                }
            },
            None => OutputV::Else(s),
        }
    } else if d < s.len() && async_kind_of(s[d]) is Some {
        let c = word_end(s, d + 1);
        let (kvs, e) = p_more_kvs(s, c);
        if d + 1 < c && line_end_at(s, e) {
            OutputV::Async {
                token: line_token(s),
                kind: async_kind_of(s[d])->0,
                class: async_class_of(s.subrange(d + 1, c)),
                results: Val::Tuple(collapse(kvs)),
            }
        } else {
            OutputV::Else(s)
        }
    } else if s.len() > 1 && stream_kind_of(s[0]) is Some && s[1] == '"' {
        match str_body(s, 2) {
            Some((t, e)) => if line_end_at(s, e) {
                OutputV::Stream { kind: stream_kind_of(s[0])->0, data: t }
            } else {
                OutputV::Else(s)
            },
            None => OutputV::Else(s),
        }
    } else if s.len() >= 6 && s.subrange(0, 6) == "(gdb) "@ && line_end_at(s, 6) {
        OutputV::Prompt
    } else {
        OutputV::Else(s)
    }
}

fn word_end_exec(s: &Vec<char>, i: usize) -> (r: usize)
    requires
        i <= s@.len(),
    ensures
        r as int == word_end(s@, i as int),
        i <= r <= s@.len(),
{
    let mut k = i;
    while k < s.len() && s[k] != ',' && s[k] != '\r' && s[k] != '\n'
        invariant
            i <= k <= s@.len(),
            word_end(s@, i as int) == word_end(s@, k as int),
        decreases s@.len() - k,
    {
        k = k + 1;
    }
    k
}

fn line_end_exec(s: &Vec<char>, i: usize) -> (r: bool)
    requires
        i <= s@.len(),
    ensures
        r == line_end_at(s@, i as int),
{
    (s.len() >= 1 && i == s.len() - 1 && s[i] == '\n') || (s.len() >= 2 && i == s.len() - 2 && s[i] == '\r' && s[i
        + 1] == '\n')
}

/// Whether `s[a..b]` spells `w`.
fn word_is(s: &Vec<char>, a: usize, b: usize, w: &str) -> (r: bool)
    requires
        a <= b <= s@.len(),
    ensures
        r == (s@.subrange(a as int, b as int) == w@),
{
    let wc = chars_of(w);
    segment_is(s, a, b, &wc)
}

fn result_class_exec(s: &Vec<char>, a: usize, b: usize) -> (r: Option<ResultClass>)
    requires
        a <= b <= s@.len(),
    ensures
        r == result_class_of(s@.subrange(a as int, b as int)),
{
    if word_is(s, a, b, "done") {
        Some(ResultClass::Done)
    } else if word_is(s, a, b, "running") {
        Some(ResultClass::Running)
    } else if word_is(s, a, b, "connected") {
        Some(ResultClass::Connected)
    } else if word_is(s, a, b, "error") {
        Some(ResultClass::Error)
    } else if word_is(s, a, b, "exit") {
        Some(ResultClass::Exit)
    } else {
        None
    }
}

fn async_class_exec(s: &Vec<char>, a: usize, b: usize) -> (r: AsyncClass)
    requires
        a <= b <= s@.len(),
    ensures
        r@ == async_class_of(s@.subrange(a as int, b as int)),
{
    if word_is(s, a, b, "running") {
        AsyncClass::Running
    } else if word_is(s, a, b, "stopped") {
        AsyncClass::Stopped
    } else if word_is(s, a, b, "thread-created") {
        AsyncClass::Thread(ThreadEvent::Created)
    } else if word_is(s, a, b, "thread-group-started") {
        AsyncClass::Thread(ThreadEvent::GroupStarted)
    } else if word_is(s, a, b, "thread-exited") {
        AsyncClass::Thread(ThreadEvent::Exited)
    } else if word_is(s, a, b, "thread-group-exited") {
        AsyncClass::Thread(ThreadEvent::GroupExited)
    } else if word_is(s, a, b, "thread-selected") {
        AsyncClass::Thread(ThreadEvent::Selected)
    } else if word_is(s, a, b, "cmd-param-changed") {
        AsyncClass::CmdParamChanged
    } else if word_is(s, a, b, "library-loaded") {
        AsyncClass::LibraryLoaded
    } else if word_is(s, a, b, "breakpoint-created") {
        AsyncClass::BreakPoint(BreakPointEvent::Created)
    } else if word_is(s, a, b, "breakpoint-deleted") {
        AsyncClass::BreakPoint(BreakPointEvent::Deleted)
    } else if word_is(s, a, b, "breakpoint-modified") {
        AsyncClass::BreakPoint(BreakPointEvent::Modified)
    } else {
        AsyncClass::Other(substring(s, a, b))
    }
}

proof fn lemma_digit_run(s: Seq<char>, i: int)
    requires
        0 <= i <= s.len(),
    ensures
        i + digit_run(s, i) <= s.len(),
        forall|k: int| i <= k < i + digit_run(s, i) ==> is_digit(#[trigger] s[k]),
        i + digit_run(s, i) < s.len() ==> !is_digit(s[i + digit_run(s, i)]),
    decreases s.len() - i,
{
    if 0 <= i < s.len() && is_digit(s[i]) {
        lemma_digit_run(s, i + 1);
    }
}

/// Reads the leading token: the number of digits, and their value unless it
/// does not fit in 64 bits.
fn token_exec(s: &Vec<char>) -> (r: (usize, Option<u64>))
    ensures
        r.0 as int == digit_run(s@, 0),
        r.1 is Some <==> dec_value(s@, 0, r.0 as nat) <= u64::MAX,
        r.1 is Some ==> r.1->0 as nat == dec_value(s@, 0, r.0 as nat),
{
    proof {
        lemma_digit_run(s@, 0);
    }
    let mut d: usize = 0;
    while d < s.len() && '0' <= s[d] && s[d] <= '9'
        invariant
            d <= s@.len(),
            digit_run(s@, 0) == d + digit_run(s@, d as int),
        decreases s@.len() - d,
    {
        d = d + 1;
    }
    proof {
        assert(digit_run(s@, d as int) == 0);
    }
    let mut v: u64 = 0;
    let mut k: usize = 0;
    while k < d
        invariant
            k <= d,
            d as int == digit_run(s@, 0),
            d <= s@.len(),
            forall|m: int| 0 <= m < d ==> is_digit(#[trigger] s@[m]),
            v as nat == dec_value(s@, 0, k as nat),
        decreases d - k,
    {
        let dig = (s[k] as u32 - '0' as u32) as u64;
        proof {
            assert(is_digit(s@[k as int]));
            assert(dig as nat == digit_val(s@[k as int]));
            assert(dec_value(s@, 0, (k + 1) as nat) == dec_value(s@, 0, k as nat) * 10 + digit_val(
                s@[k as int],
            ));
        }
        if v > (u64::MAX - dig) / 10 {
            proof {
                assert(v * 10 + dig > u64::MAX) by (nonlinear_arith)
                    requires
                        v > (u64::MAX - dig) / 10,
                        dig <= 9,
                ;
                lemma_dec_value_monotone(s@, 0, (k + 1) as nat, d as nat);
            }
            return (d, None);
        }
        proof {
            assert(v * 10 + dig <= u64::MAX) by (nonlinear_arith)
                requires
                    v <= (u64::MAX - dig) / 10,
                    dig <= 9,
            ;
        }
        v = v * 10 + dig;
        k = k + 1;
    }
    (d, Some(v))
}

/// Parses one line of debugger output, line ending included.
fn parse_chars(s: &Vec<char>) -> (r: Output)
    requires
    ensures
        r@ == parse_line(s@),
{
    let (d, tok) = token_exec(s);
    proof {
        lemma_digit_run(s@, 0);
    }
    let token = if d == 0 {
        None
    } else {
        tok
    };
    if d > 0 && tok.is_none() {
        return Output::SomethingElse(string_of(s));
    }
    proof {
        assert(token == line_token(s@));
    }
    if d < s.len() && s[d] == '^' {
        let c = word_end_exec(s, d + 1);
        match result_class_exec(s, d + 1, c) {
            Some(class) => {
                let (kvs, e) = more_kvs_exec(s, c);
                if line_end_exec(s, e) {
                    let es = collapse_entries(kvs);
                    proof {
                        lemma_tuple_view(es);
                    }
                    return Output::Result(ResultRecord { token, class, results: MiValue::Tuple(es) });
                }
                return Output::SomethingElse(string_of(s));
            },
            None => {
                return Output::SomethingElse(string_of(s));
            },
        }
    }
    if d < s.len() && (s[d] == '*' || s[d] == '+' || s[d] == '=') {
        let kind = if s[d] == '*' {
            AsyncKind::Exec
        } else if s[d] == '+' {
            AsyncKind::Status
        } else {
            AsyncKind::Notify
        };
        let c = word_end_exec(s, d + 1);
        let (kvs, e) = more_kvs_exec(s, c);
        if d + 1 < c && line_end_exec(s, e) {
            let class = async_class_exec(s, d + 1, c);
            let es = collapse_entries(kvs);
            proof {
                lemma_tuple_view(es);
            }
            return Output::OutOfBand(
                OutOfBandRecord::AsyncRecord { token, kind, class, results: MiValue::Tuple(es) },
            );
        }
        return Output::SomethingElse(string_of(s));
    }
    if s.len() > 1 && (s[0] == '~' || s[0] == '@' || s[0] == '&') && s[1] == '"' {
        let kind = if s[0] == '~' {
            StreamKind::Console
        } else if s[0] == '@' {
            StreamKind::Target
        } else {
            StreamKind::Log
        };
        match str_body_exec(s, 2) {
            Some((t, e)) => {
                if line_end_exec(s, e) {
                    return Output::OutOfBand(
                        OutOfBandRecord::StreamRecord { kind, data: string_of(&t) },
                    );
                }
                return Output::SomethingElse(string_of(s));
            },
            None => {
                return Output::SomethingElse(string_of(s));
            },
        }
    }
    if s.len() >= 6 && word_is(s, 0, 6, "(gdb) ") && line_end_exec(s, 6) {
        return Output::GDBLine;
    }
    Output::SomethingElse(string_of(s))
}

impl Output {
    /// Parses one line of debugger output, line ending included. A line that
    /// is not a well-formed record comes back whole as `SomethingElse`.
    pub fn parse(line: &str) -> (r: Output)
        ensures
            r@ == parse_line(line@),
    {
        let s = chars_of(line);
        parse_chars(&s)
    }
}

} // verus!
