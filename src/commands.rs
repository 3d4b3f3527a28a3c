use vstd::prelude::*;

use crate::text::{
    all_digits, chars_of, dec_chars, dec_str, dec_string, dec_value, hex_chars, hex_str, owned,
    parse_dec, push_all, string_of,
};

verus! {

/// A command in the debugger's machine interface: an operation (empty for a
/// bare flush), options, and parameters.
#[derive(Debug, Clone)]
pub struct MiCommand {
    pub operation: String,
    pub options: Option<Vec<String>>,
    pub parameters: Option<Vec<String>>,
}

/// The mathematical form of a command.
pub struct MiCommandV {
    pub operation: Seq<char>,
    pub options: Option<Seq<Seq<char>>>,
    pub parameters: Option<Seq<Seq<char>>>,
}

pub open spec fn strs_view(v: Seq<String>) -> Seq<Seq<char>> {
    v.map_values(|x: String| x@)
}

pub open spec fn opt_strs_view(v: Option<Vec<String>>) -> Option<Seq<Seq<char>>> {
    match v {
        Some(x) => Some(strs_view(x@)),
        None => None,
    }
}

impl View for MiCommand {
    type V = MiCommandV;

    open spec fn view(&self) -> MiCommandV {
        MiCommandV {
            operation: self.operation@,
            options: opt_strs_view(self.options),
            parameters: opt_strs_view(self.parameters),
        }
    }
}

/// A command with the given operation and arguments.
pub open spec fn cmd(
    op: Seq<char>,
    options: Option<Seq<Seq<char>>>,
    parameters: Option<Seq<Seq<char>>>,
) -> MiCommandV {
    MiCommandV { operation: op, options, parameters }
}

/// Each word preceded by a space.
pub open spec fn words(xs: Seq<Seq<char>>) -> Seq<char>
    decreases xs.len(),
{
    if xs.len() == 0 {
        Seq::empty()
    } else {
        words(xs.drop_last()) + seq![' '] + xs.last()
    }
}

/// The wire form of a command sent with `token`: `<token>-<operation>`
/// (nothing for an empty operation), the options, ` --` when both options
/// and parameters are given, the parameters, and a line break.
pub open spec fn encode_command(c: MiCommandV, token: u64) -> Seq<char> {
    (if c.operation.len() > 0 {
        dec_str(token as nat) + seq!['-'] + c.operation
    } else {
        Seq::empty()
    }) + (match c.options {
        Some(o) => words(o),
        None => Seq::empty(),
    }) + (match c.parameters {
        Some(p) => (if c.options is Some {
            seq![' ', '-', '-']
        } else {
            Seq::empty()
        }) + words(p),
        None => Seq::empty(),
    }) + seq!['\n']
}

/// One character inside a C-string literal: backslash and quote are escaped.
pub open spec fn escape_char(c: char) -> Seq<char> {
    if c == '\\' {
        seq!['\\', '\\']
    } else if c == '"' {
        seq!['\\', '"']
    } else {
        seq![c]
    }
}

pub open spec fn escape_body(s: Seq<char>) -> Seq<char>
    decreases s.len(),
{
    if s.len() == 0 {
        Seq::empty()
    } else {
        escape_body(s.drop_last()) + escape_char(s.last())
    }
}

/// `s` as a C-string literal.
pub open spec fn quoted(s: Seq<char>) -> Seq<char> {
    seq!['"'] + escape_body(s) + seq!['"']
}

/// Writes `input` as a C-string literal: enclosed in quotes, with backslash
/// and quote escaped and every other character kept as it is.
pub fn escape_command(input: &str) -> (r: String)
    ensures
        r@ == quoted(input@),
{
    let s = chars_of(input);
    let mut out: Vec<char> = Vec::new();
    out.push('"');
    let mut k: usize = 0;
    while k < s.len()
        invariant
            k <= s@.len(),
            s@ == input@,
            out@ == seq!['"'] + escape_body(s@.subrange(0, k as int)),
        decreases s@.len() - k,
    {
        let c = s[k];
        let ghost before = out@;
        if c == '\\' {
            out.push('\\');
            out.push('\\');
        } else if c == '"' {
            out.push('\\');
            out.push('"');
        } else {
            out.push(c);
        }
        proof {
            let pre = s@.subrange(0, k + 1);
            assert(pre.drop_last() =~= s@.subrange(0, k as int));
            assert(out@ =~= seq!['"'] + escape_body(pre));
        }
        k = k + 1;
    }
    out.push('"');
    proof {
        assert(s@.subrange(0, s@.len() as int) =~= s@);
        assert(out@ =~= quoted(input@));
    }
    string_of(&out)
}

pub enum DisassembleMode {
    DisassemblyOnly,
    DisassemblyWithRawOpcodes,
    MixedSourceAndDisassembly,
    MixedSourceAndDisassemblyWithRawOpcodes,
}

impl DisassembleMode {
    /// The mode's number on the wire.
    pub open spec fn spec_code(&self) -> u64 {
        match self {
            DisassembleMode::DisassemblyOnly => 0,
            DisassembleMode::DisassemblyWithRawOpcodes => 2,
            DisassembleMode::MixedSourceAndDisassembly => 1,
            DisassembleMode::MixedSourceAndDisassemblyWithRawOpcodes => 3,
        }
    }

    #[verifier::when_used_as_spec(spec_code)]
    pub fn code(&self) -> (r: u64)
        ensures
            r == self.spec_code(),
    {
        match self {
            DisassembleMode::DisassemblyOnly => 0,
            DisassembleMode::DisassemblyWithRawOpcodes => 2,
            DisassembleMode::MixedSourceAndDisassembly => 1,
            DisassembleMode::MixedSourceAndDisassemblyWithRawOpcodes => 3,
        }
    }
}

pub enum WatchMode {
    Read,
    Write,
    Access,
}

/// Where a breakpoint goes: an address, a function of a file, or a line of a file.
pub enum BreakPointLocation {
    Address(usize),
    Function(String, String),
    Line(String, usize),
}

/// A breakpoint number `N` or `N.M`.
#[derive(Debug, Copy, Clone, Hash, PartialEq, Eq, Structural)]
pub struct BreakPointNumber {
    pub major: usize,
    pub minor: Option<usize>,
}

/// The order of breakpoint numbers: by major, then minor, with no minor first.
pub open spec fn bp_lt(a: BreakPointNumber, b: BreakPointNumber) -> bool {
    a.major < b.major || (a.major == b.major && match (a.minor, b.minor) {
        (None, Some(_)) => true,
        (Some(x), Some(y)) => x < y,
        _ => false,
    })
}

/// The first index at or after `i` holding a dot, or the length.
pub open spec fn dot_at(s: Seq<char>, i: int) -> int
    decreases s.len() - i,
{
    if 0 <= i < s.len() && s[i] != '.' {
        dot_at(s, i + 1)
    } else {
        i
    }
}

/// Whether `s[a..b]` is a nonempty run of digits whose number fits in `usize`.
pub open spec fn usize_digits(s: Seq<char>, a: int, b: int) -> bool {
    a < b && all_digits(s, a, b) && dec_value(s, a, (b - a) as nat) <= usize::MAX
}

/// The breakpoint number that `s` spells, if any.
pub open spec fn bp_number_of(s: Seq<char>) -> Option<BreakPointNumber> {
    let d = dot_at(s, 0);
    if d < s.len() {
        if usize_digits(s, 0, d) && usize_digits(s, d + 1, s.len() as int) {
            Some(
                BreakPointNumber {
                    major: dec_value(s, 0, d as nat) as usize,
                    minor: Some(dec_value(s, d + 1, (s.len() - d - 1) as nat) as usize),
                },
            )
        } else {
            None
        }
    } else if usize_digits(s, 0, s.len() as int) {
        Some(
            BreakPointNumber {
                major: dec_value(s, 0, s.len() as nat) as usize,
                minor: None,
            },
        )
    } else {
        None
    }
}

/// The text of a breakpoint number.
pub open spec fn bp_text(b: BreakPointNumber) -> Seq<char> {
    match b.minor {
        Some(m) => dec_str(b.major as nat) + seq!['.'] + dec_str(m as nat),
        None => dec_str(b.major as nat),
    }
}

fn parse_usize(s: &Vec<char>, a: usize, b: usize) -> (r: Option<usize>)
    requires
        a <= b <= s@.len(),
    ensures
        r is Some <==> usize_digits(s@, a as int, b as int),
        r is Some ==> r->0 as nat == dec_value(s@, a as int, (b - a) as nat),
{
    match parse_dec(s, a, b) {
        Some(v) => {
            if v <= usize::MAX as u64 {
                Some(v as usize)
            } else {
                None
            }
        },
        None => None,
    }
}

impl BreakPointNumber {
    /// Reads `N` or `N.M`, each a run of decimal digits that fits in `usize`.
    pub fn from_str(s: &str) -> (r: Result<BreakPointNumber, String>)
        ensures
            match r {
                Ok(b) => bp_number_of(s@) == Some(b),
                Err(_) => bp_number_of(s@) is None,
            },
    {
        let c = chars_of(s);
        let mut d: usize = 0;
        while d < c.len() && c[d] != '.'
            invariant
                d <= c@.len(),
                c@ == s@,
                dot_at(c@, 0) == dot_at(c@, d as int),
            decreases c@.len() - d,
        {
            d = d + 1;
        }
        if d < c.len() {
            let major = parse_usize(&c, 0, d);
            let minor = parse_usize(&c, d + 1, c.len());
            match (major, minor) {
                (Some(a), Some(b)) => Ok(BreakPointNumber { major: a, minor: Some(b) }),
                _ => Err(owned("invalid breakpoint number")),
            }
        } else {
            match parse_usize(&c, 0, c.len()) {
                Some(a) => Ok(BreakPointNumber { major: a, minor: None }),
                None => Err(owned("invalid breakpoint number")),
            }
        }
    }

    /// `N`, or `N.M` when there is a minor number.
    pub fn to_text(&self) -> (r: String)
        ensures
            r@ == bp_text(*self),
    {
        let mut out = dec_chars(self.major as u64);
        match self.minor {
            Some(m) => {
                out.push('.');
                let mut t = dec_chars(m as u64);
                out.append(&mut t);
            },
            None => {},
        }
        string_of(&out)
    }

    /// Whether `self` comes before `other`.
    pub fn less_than(&self, other: &BreakPointNumber) -> (r: bool)
        ensures
            r == bp_lt(*self, *other),
    {
        if self.major != other.major {
            self.major < other.major
        } else {
            match (self.minor, other.minor) {
                (None, Some(_)) => true,
                (Some(x), Some(y)) => x < y,
                _ => false,
            }
        }
    }
}

/// Whether a sequence of breakpoint numbers is strictly increasing.
pub open spec fn strictly_sorted(v: Seq<BreakPointNumber>) -> bool {
    forall|i: int, j: int| 0 <= i < j < v.len() ==> bp_lt(v[i], v[j])
}

proof fn lemma_bp_lt_trans(a: BreakPointNumber, b: BreakPointNumber, c: BreakPointNumber)
    requires
        bp_lt(a, b),
        bp_lt(b, c),
    ensures
        bp_lt(a, c),
{
}

proof fn lemma_bp_lt_total(a: BreakPointNumber, b: BreakPointNumber)
    ensures
        a == b || bp_lt(a, b) || bp_lt(b, a),
{
}

/// Sorts breakpoint numbers and drops repeats.
pub fn sort_dedup(v: Vec<BreakPointNumber>) -> (r: Vec<BreakPointNumber>)
    ensures
        strictly_sorted(r@),
        forall|j: int| 0 <= j < v@.len() ==> r@.contains(#[trigger] v@[j]),
        forall|m: int| 0 <= m < r@.len() ==> v@.contains(#[trigger] r@[m]),
{
    let mut out: Vec<BreakPointNumber> = Vec::new();
    let mut k: usize = 0;
    while k < v.len()
        invariant
            k <= v@.len(),
            strictly_sorted(out@),
            forall|j: int| 0 <= j < k ==> out@.contains(#[trigger] v@[j]),
            forall|m: int| 0 <= m < out@.len() ==> v@.contains(#[trigger] out@[m]),
        decreases v@.len() - k,
    {
        let x = v[k];
        let mut pos: usize = 0;
        while pos < out.len() && out[pos].less_than(&x)
            invariant
                pos <= out@.len(),
                forall|m: int| 0 <= m < pos ==> bp_lt(#[trigger] out@[m], x),
            decreases out@.len() - pos,
        {
            pos = pos + 1;
        }
        let ghost before = out@;
        if pos < out.len() && out[pos] == x {
            proof {
                assert forall|j: int| 0 <= j < k + 1 implies out@.contains(#[trigger] v@[j]) by {
                    if j == k {
                        assert(out@[pos as int] == x);
                    }
                }
            }
        } else {
            proof {
                if pos < out@.len() {
                    lemma_bp_lt_total(out@[pos as int], x);
                    assert(bp_lt(x, out@[pos as int]));
                }
            }
            out.insert(pos, x);
            proof {
                assert forall|i: int, j: int| 0 <= i < j < out@.len() implies bp_lt(out@[i], out@[j]) by {
                    if j < pos {
                        assert(out@[i] == before[i] && out@[j] == before[j]);
                    } else if j == pos {
                        assert(out@[i] == before[i]);
                    } else if i == pos {
                        assert(out@[j] == before[j - 1]);
                        if j - 1 > pos {
                            assert(bp_lt(before[pos as int], before[j - 1]));
                            lemma_bp_lt_trans(x, before[pos as int], before[j - 1]);
                        }
                    } else if i < pos {
                        assert(out@[i] == before[i] && out@[j] == before[j - 1]);
                        assert(bp_lt(before[i], x));
                        if j - 1 > pos {
                            assert(bp_lt(before[pos as int], before[j - 1]));
                            lemma_bp_lt_trans(x, before[pos as int], before[j - 1]);
                        }
                        lemma_bp_lt_trans(before[i], x, before[j - 1]);
                    } else {
                        assert(out@[i] == before[i - 1] && out@[j] == before[j - 1]);
                    }
                }
                assert forall|j: int| 0 <= j < k + 1 implies out@.contains(#[trigger] v@[j]) by {
                    if j == k {
                        assert(out@[pos as int] == x);
                    } else {
                        assert(before.contains(v@[j]));
                        let m = choose|m: int| 0 <= m < before.len() && before[m] == v@[j];
                        if m < pos {
                            assert(out@[m] == v@[j]);
                        } else {
                            assert(out@[m + 1] == v@[j]);
                        }
                    }
                }
                assert forall|m: int| 0 <= m < out@.len() implies v@.contains(#[trigger] out@[m]) by {
                    if m < pos {
                        assert(out@[m] == before[m]);
                    } else if m == pos {
                        assert(v@[k as int] == x);
                    } else {
                        assert(out@[m] == before[m - 1]);
                    }
                }
            }
        }
        k = k + 1;
    }
    out
}

/// Appends `x` to a list of words.
fn push_word(v: &mut Vec<String>, x: String)
    ensures
        strs_view(final(v)@) == strs_view(old(v)@).push(x@),
{
    let ghost before = v@;
    v.push(x);
    proof {
        assert(strs_view(v@) =~= strs_view(before).push(x@));
    }
}

fn one_word(a: String) -> (r: Vec<String>)
    ensures
        strs_view(r@) == seq![a@],
{
    let mut v: Vec<String> = Vec::new();
    push_word(&mut v, a);
    proof {
        assert(strs_view(v@) =~= seq![a@]);
    }
    v
}

fn two_words(a: String, b: String) -> (r: Vec<String>)
    ensures
        strs_view(r@) == seq![a@, b@],
{
    let mut v = one_word(a);
    push_word(&mut v, b);
    proof {
        assert(strs_view(v@) =~= seq![a@, b@]);
    }
    v
}

/// Appends each word, preceded by a space.
fn push_words(out: &mut Vec<char>, xs: &Vec<String>)
    ensures
        final(out)@ == old(out)@ + words(strs_view(xs@)),
{
    let ghost start = out@;
    let mut k: usize = 0;
    proof {
        assert(strs_view(xs@).subrange(0, 0) =~= Seq::<Seq<char>>::empty());
        assert(start + Seq::<char>::empty() =~= start);
    }
    while k < xs.len()
        invariant
            k <= xs@.len(),
            out@ == start + words(strs_view(xs@).subrange(0, k as int)),
        decreases xs@.len() - k,
    {
        let ghost before = out@;
        out.push(' ');
        push_all(out, xs[k].as_str());
        proof {
            let pre = strs_view(xs@).subrange(0, k + 1);
            assert(pre.drop_last() =~= strs_view(xs@).subrange(0, k as int));
            assert(pre.last() == xs@[k as int]@);
            assert(out@ =~= start + words(pre));
        }
        k = k + 1;
    }
    proof {
        assert(strs_view(xs@).subrange(0, xs@.len() as int) =~= strs_view(xs@));
    }
}

impl MiCommand {
    /// The wire form of this command sent with `token`.
    pub fn encode(&self, token: u64) -> (r: String)
        ensures
            r@ == encode_command(self@, token),
    {
        let mut out: Vec<char> = Vec::new();
        if !self.operation.as_str().is_empty() {
            out = dec_chars(token);
            out.push('-');
            push_all(&mut out, self.operation.as_str());
        }
        let ghost head = out@;
        match &self.options {
            Some(o) => {
                push_words(&mut out, o);
            },
            None => {},
        }
        let ghost mid = out@;
        match &self.parameters {
            Some(p) => {
                if self.options.is_some() {
                    out.push(' ');
                    out.push('-');
                    out.push('-');
                }
                push_words(&mut out, p);
            },
            None => {},
        }
        out.push('\n');
        proof {
            assert(head =~= (if self@.operation.len() > 0 {
                dec_str(token as nat) + seq!['-'] + self@.operation
            } else {
                Seq::empty()
            }));
            let opts = match self@.options {
                Some(o) => words(o),
                None => Seq::<char>::empty(),
            };
            assert(mid =~= head + opts);
            let params = match self@.parameters {
                Some(p) => (if self@.options is Some {
                    seq![' ', '-', '-']
                } else {
                    Seq::<char>::empty()
                }) + words(p),
                None => Seq::<char>::empty(),
            };
            assert(out@ =~= head + opts + params + seq!['\n']);
        }
        string_of(&out)
    }

    pub fn interpreter_exec(interpreter: String, command: String) -> (r: MiCommand)
        ensures
            r@ == cmd("interpreter-exec"@, Some(seq![interpreter@, command@]), None),
    {
        MiCommand {
            operation: owned("interpreter-exec"),
            options: Some(two_words(interpreter, command)),
            parameters: None,
        }
    }

    /// Runs a console command, passed as a C-string literal.
    pub fn cli_exec(command: &str) -> (r: MiCommand)
        ensures
            r@ == cmd("interpreter-exec"@, Some(seq!["console"@, quoted(command@)]), None),
    {
        Self::interpreter_exec(owned("console"), escape_command(command))
    }

    pub fn data_disassemble_file(
        file: &str,
        linenum: usize,
        lines: Option<usize>,
        mode: DisassembleMode,
    ) -> (r: MiCommand)
        ensures
            r@ == cmd(
                "data-disassemble"@,
                Some(
                    seq![
                        "-f"@,
                        file@,
                        "-l"@,
                        dec_str(linenum as nat),
                        "-n"@,
                        match lines {
                            Some(l) => dec_str(l as nat),
                            None => "-1"@,
                        },
                    ],
                ),
                Some(seq![dec_str(mode.code() as nat)]),
            ),
    {
        let mut o = two_words(owned("-f"), owned(file));
        push_word(&mut o, owned("-l"));
        push_word(&mut o, dec_string(linenum as u64));
        push_word(&mut o, owned("-n"));
        let n = match lines {
            Some(l) => dec_string(l as u64),
            None => owned("-1"),
        };
        push_word(&mut o, n);
        proof {
            assert(strs_view(o@) =~= seq![
                "-f"@,
                file@,
                "-l"@,
                dec_str(linenum as nat),
                "-n"@,
                match lines {
                    Some(l) => dec_str(l as nat),
                    None => "-1"@,
                },
            ]);
        }
        MiCommand {
            operation: owned("data-disassemble"),
            options: Some(o),
            parameters: Some(one_word(dec_string(mode.code()))),
        }
    }

    pub fn data_disassemble_address(start_addr: usize, end_addr: usize, mode: DisassembleMode) -> (r:
        MiCommand)
        ensures
            r@ == cmd(
                "data-disassemble"@,
                Some(seq!["-s"@, dec_str(start_addr as nat), "-e"@, dec_str(end_addr as nat)]),
                Some(seq![dec_str(mode.code() as nat)]),
            ),
    {
        let mut o = two_words(owned("-s"), dec_string(start_addr as u64));
        push_word(&mut o, owned("-e"));
        push_word(&mut o, dec_string(end_addr as u64));
        proof {
            assert(strs_view(o@) =~= seq![
                "-s"@,
                dec_str(start_addr as nat),
                "-e"@,
                dec_str(end_addr as nat),
            ]);
        }
        MiCommand {
            operation: owned("data-disassemble"),
            options: Some(o),
            parameters: Some(one_word(dec_string(mode.code()))),
        }
    }

    /// Evaluates an expression, passed as a C-string literal.
    pub fn data_evaluate_expression(expression: String) -> (r: MiCommand)
        ensures
            r@ == cmd("data-evaluate-expression"@, Some(seq![quoted(expression@)]), None),
    {
        MiCommand {
            operation: owned("data-evaluate-expression"),
            options: Some(one_word(escape_command(expression.as_str()))),
            parameters: None,
        }
    }

    /// Inserts a breakpoint at `*0x<address>`, `<file>:<function>` or `<file>:<line>`.
    pub fn insert_breakpoint(location: BreakPointLocation) -> (r: MiCommand)
        ensures
            r@ == cmd(
                "break-insert"@,
                Some(
                    seq![
                        match location {
                            BreakPointLocation::Address(a) => seq!['*', '0', 'x'] + hex_str(a as nat),
                            BreakPointLocation::Function(p, f) => p@ + seq![':'] + f@,
                            BreakPointLocation::Line(p, l) => p@ + seq![':'] + dec_str(l as nat),
                        },
                    ],
                ),
                None,
            ),
    {
        let mut out: Vec<char> = Vec::new();
        match &location {
            BreakPointLocation::Address(a) => {
                out.push('*');
                out.push('0');
                out.push('x');
                let mut h = hex_chars(*a as u64);
                out.append(&mut h);
                proof {
                    assert(out@ =~= seq!['*', '0', 'x'] + hex_str(*a as nat));
                }
            },
            BreakPointLocation::Function(p, f) => {
                push_all(&mut out, p.as_str());
                out.push(':');
                push_all(&mut out, f.as_str());
                proof {
                    assert(out@ =~= p@ + seq![':'] + f@);
                }
            },
            BreakPointLocation::Line(p, l) => {
                push_all(&mut out, p.as_str());
                out.push(':');
                let mut d = dec_chars(*l as u64);
                out.append(&mut d);
                proof {
                    assert(out@ =~= p@ + seq![':'] + dec_str(*l as nat));
                }
            },
        }
        MiCommand {
            operation: owned("break-insert"),
            options: Some(one_word(string_of(&out))),
            parameters: None,
        }
    }

    /// Deletes breakpoints, given in increasing order without repeats.
    pub fn delete_breakpoints(breakpoint_numbers: Vec<BreakPointNumber>) -> (r: MiCommand)
        ensures
            r@.operation == "break-delete"@,
            r@.parameters is None,
            r@.options is Some,
            exists|sorted: Seq<BreakPointNumber>|
                {
                    &&& strictly_sorted(sorted)
                    &&& (forall|j: int|
                        0 <= j < breakpoint_numbers@.len() ==> sorted.contains(
                            #[trigger] breakpoint_numbers@[j],
                        ))
                    &&& (forall|m: int|
                        0 <= m < sorted.len() ==> breakpoint_numbers@.contains(#[trigger] sorted[m]))
                    &&& r@.options == Some(sorted.map_values(|b: BreakPointNumber| bp_text(b)))
                },
    {
        let sorted = sort_dedup(breakpoint_numbers);
        let mut o: Vec<String> = Vec::new();
        let mut k: usize = 0;
        while k < sorted.len()
            invariant
                k <= sorted@.len(),
                strs_view(o@) == sorted@.subrange(0, k as int).map_values(
                    |b: BreakPointNumber| bp_text(b),
                ),
            decreases sorted@.len() - k,
        {
            let t = sorted[k].to_text();
            push_word(&mut o, t);
            proof {
                assert(strs_view(o@) =~= sorted@.subrange(0, k + 1).map_values(
                    |b: BreakPointNumber| bp_text(b),
                ));
            }
            k = k + 1;
        }
        proof {
            assert(sorted@.subrange(0, sorted@.len() as int) =~= sorted@);
        }
        MiCommand { operation: owned("break-delete"), options: Some(o), parameters: None }
    }

    pub fn breakpoints_list() -> (r: MiCommand)
        ensures
            r@ == cmd("break-list"@, None, None),
    {
        MiCommand { operation: owned("break-list"), options: None, parameters: None }
    }

    /// Sets a watchpoint: `-r` to watch reads, `-a` for any access, nothing for writes.
    pub fn insert_watchpoing(expression: &str, mode: WatchMode) -> (r: MiCommand)
        ensures
            r@ == cmd(
                "break-watch"@,
                match mode {
                    WatchMode::Write => None,
                    WatchMode::Read => Some(seq!["-r"@]),
                    WatchMode::Access => Some(seq!["-a"@]),
                },
                Some(seq![expression@]),
            ),
    {
        let options = match mode {
            WatchMode::Write => None,
            WatchMode::Read => Some(one_word(owned("-r"))),
            WatchMode::Access => Some(one_word(owned("-a"))),
        };
        MiCommand {
            operation: owned("break-watch"),
            options,
            parameters: Some(one_word(owned(expression))),
        }
    }

    pub fn environment_pwd() -> (r: MiCommand)
        ensures
            r@ == cmd("environment-pwd"@, None, None),
    {
        MiCommand { operation: owned("environment-pwd"), options: None, parameters: None }
    }

    pub fn exec_interrupt() -> (r: MiCommand)
        ensures
            r@ == cmd("exec-interrupt"@, None, None),
    {
        MiCommand { operation: owned("exec-interrupt"), options: None, parameters: None }
    }

    pub fn exec_run() -> (r: MiCommand)
        ensures
            r@ == cmd("exec-run"@, None, None),
    {
        MiCommand { operation: owned("exec-run"), options: None, parameters: None }
    }

    pub fn exec_continue() -> (r: MiCommand)
        ensures
            r@ == cmd("exec-continue"@, None, None),
    {
        MiCommand { operation: owned("exec-continue"), options: None, parameters: None }
    }

    pub fn exec_step() -> (r: MiCommand)
        ensures
            r@ == cmd("exec-step"@, None, None),
    {
        MiCommand { operation: owned("exec-step"), options: None, parameters: None }
    }

    pub fn exec_next() -> (r: MiCommand)
        ensures
            r@ == cmd("exec-next"@, None, None),
    {
        MiCommand { operation: owned("exec-next"), options: None, parameters: None }
    }

    pub fn exec_arguments(args: Vec<String>) -> (r: MiCommand)
        ensures
            r@ == cmd("exec-arguments"@, Some(strs_view(args@)), None),
    {
        MiCommand { operation: owned("exec-arguments"), options: Some(args), parameters: None }
    }

    pub fn exit() -> (r: MiCommand)
        ensures
            r@ == cmd("gdb-exit"@, None, None),
    {
        MiCommand { operation: owned("gdb-exit"), options: None, parameters: None }
    }

    pub fn select_frame(frame_number: u64) -> (r: MiCommand)
        ensures
            r@ == cmd("stack-select-frame"@, Some(seq![dec_str(frame_number as nat)]), None),
    {
        MiCommand {
            operation: owned("stack-select-frame"),
            options: Some(one_word(dec_string(frame_number))),
            parameters: None,
        }
    }

    pub fn stack_info_frame(frame_number: Option<u64>) -> (r: MiCommand)
        ensures
            r@ == cmd(
                "stack-info-frame"@,
                match frame_number {
                    Some(n) => Some(seq![dec_str(n as nat)]),
                    None => None,
                },
                None,
            ),
    {
        let options = match frame_number {
            Some(n) => Some(one_word(dec_string(n))),
            None => None,
        };
        MiCommand { operation: owned("stack-info-frame"), options, parameters: None }
    }

    pub fn stack_info_depth() -> (r: MiCommand)
        ensures
            r@ == cmd("stack-info-depth"@, None, None),
    {
        MiCommand { operation: owned("stack-info-depth"), options: None, parameters: None }
    }

    /// Lists the variables of a frame, always with `--simple-values`.
    pub fn stack_list_variables(thread_number: Option<usize>, frame_number: Option<usize>) -> (r:
        MiCommand)
        ensures
            r@ == cmd(
                "stack-list-variables"@,
                None,
                Some(
                    (match thread_number {
                        Some(t) => seq!["--thread"@, dec_str(t as nat)],
                        None => Seq::empty(),
                    }) + (match frame_number {
                        Some(f) => seq!["--frame"@, dec_str(f as nat)],
                        None => Seq::empty(),
                    }) + seq!["--simple-values"@],
                ),
            ),
    {
        let mut p: Vec<String> = Vec::new();
        let ghost e0 = strs_view(p@);
        match thread_number {
            Some(t) => {
                push_word(&mut p, owned("--thread"));
                push_word(&mut p, dec_string(t as u64));
            },
            None => {},
        }
        let ghost e1 = strs_view(p@);
        match frame_number {
            Some(f) => {
                push_word(&mut p, owned("--frame"));
                push_word(&mut p, dec_string(f as u64));
            },
            None => {},
        }
        let ghost e2 = strs_view(p@);
        push_word(&mut p, owned("--simple-values"));
        proof {
            let tpart = match thread_number {
                Some(t) => seq!["--thread"@, dec_str(t as nat)],
                None => Seq::<Seq<char>>::empty(),
            };
            let fpart = match frame_number {
                Some(f) => seq!["--frame"@, dec_str(f as nat)],
                None => Seq::<Seq<char>>::empty(),
            };
            assert(e1 =~= tpart);
            assert(e2 =~= tpart + fpart);
            assert(strs_view(p@) =~= tpart + fpart + seq!["--simple-values"@]);
        }
        MiCommand { operation: owned("stack-list-variables"), options: None, parameters: Some(p) }
    }

    /// Lists frames between `low` and `high` (swapped when given the wrong
    /// way round; from 0 when only `high` is given; up to 99999 when only
    /// `low` is given).
    pub fn stack_list_frames(low_frame: Option<usize>, high_frame: Option<usize>) -> (r: MiCommand)
        ensures
            r@ == cmd(
                "stack-list-frames"@,
                match (low_frame, high_frame) {
                    (Some(l), Some(h)) => if l > h {
                        Some(seq![dec_str(h as nat), dec_str(l as nat)])
                    } else {
                        Some(seq![dec_str(l as nat), dec_str(h as nat)])
                    },
                    (Some(l), None) => Some(seq![dec_str(l as nat), "99999"@]),
                    (None, Some(h)) => Some(seq!["0"@, dec_str(h as nat)]),
                    (None, None) => None,
                },
                None,
            ),
    {
        let options = match (low_frame, high_frame) {
            (Some(l), Some(h)) => {
                if l > h {
                    Some(two_words(dec_string(h as u64), dec_string(l as u64)))
                } else {
                    Some(two_words(dec_string(l as u64), dec_string(h as u64)))
                }
            },
            (Some(l), None) => Some(two_words(dec_string(l as u64), owned("99999"))),
            (None, Some(h)) => Some(two_words(owned("0"), dec_string(h as u64))),
            (None, None) => None,
        };
        MiCommand { operation: owned("stack-list-frames"), options, parameters: None }
    }

    pub fn thread_info(thread_id: Option<u64>) -> (r: MiCommand)
        ensures
            r@ == cmd(
                "thread-info"@,
                match thread_id {
                    Some(n) => Some(seq![dec_str(n as nat)]),
                    None => None,
                },
                None,
            ),
    {
        let options = match thread_id {
            Some(n) => Some(one_word(dec_string(n))),
            None => None,
        };
        MiCommand { operation: owned("thread-info"), options, parameters: None }
    }

    pub fn file_exec_and_symbols(file: &str) -> (r: MiCommand)
        ensures
            r@ == cmd("file-exec-and-symbols"@, Some(seq![file@]), None),
    {
        MiCommand {
            operation: owned("file-exec-and-symbols"),
            options: Some(one_word(owned(file))),
            parameters: None,
        }
    }

    pub fn file_symbol_file(file: Option<&str>) -> (r: MiCommand)
        ensures
            r@ == cmd(
                "file-symbol-file"@,
                match file {
                    Some(f) => Some(seq![f@]),
                    None => None,
                },
                None,
            ),
    {
        let options = match file {
            Some(f) => Some(one_word(owned(f))),
            None => None,
        };
        MiCommand { operation: owned("file-symbol-file"), options, parameters: None }
    }

    pub fn list_thread_groups(list_all_available: bool, thread_group_ids: &[u32]) -> (r: MiCommand)
        ensures
            r@ == cmd(
                "list-thread-groups"@,
                if list_all_available {
                    Some(seq!["--available"@])
                } else {
                    None
                },
                Some(thread_group_ids@.map_values(|id: u32| dec_str(id as nat))),
            ),
    {
        let mut p: Vec<String> = Vec::new();
        let mut k: usize = 0;
        while k < thread_group_ids.len()
            invariant
                k <= thread_group_ids@.len(),
                strs_view(p@) == thread_group_ids@.subrange(0, k as int).map_values(
                    |id: u32| dec_str(id as nat),
                ),
            decreases thread_group_ids@.len() - k,
        {
            push_word(&mut p, dec_string(thread_group_ids[k] as u64));
            proof {
                assert(strs_view(p@) =~= thread_group_ids@.subrange(0, k + 1).map_values(
                    |id: u32| dec_str(id as nat),
                ));
            }
            k = k + 1;
        }
        proof {
            assert(thread_group_ids@.subrange(0, thread_group_ids@.len() as int)
                =~= thread_group_ids@);
        }
        let options = if list_all_available {
            Some(one_word(owned("--available")))
        } else {
            None
        };
        MiCommand { operation: owned("list-thread-groups"), options, parameters: Some(p) }
    }

    /// Creates a variable object: `"-"` asks for a generated name, `"*"` for
    /// the current frame.
    pub fn var_create(name: Option<String>, expression: &str, frame_addr: Option<u64>) -> (r:
        MiCommand)
        ensures
            r@ == cmd(
                "var-create"@,
                None,
                Some(
                    seq![
                        if name is Some {
                            name->0@
                        } else {
                            "\"-\""@
                        },
                        match frame_addr {
                            Some(a) => dec_str(a as nat),
                            None => "\"*\""@,
                        },
                        quoted(expression@),
                    ],
                ),
            ),
    {
        let ghost target: Seq<Seq<char>> = seq![
            if name is Some {
                name->0@
            } else {
                "\"-\""@
            },
            match frame_addr {
                Some(a) => dec_str(a as nat),
                None => "\"*\""@,
            },
            quoted(expression@),
        ];
        let n = match name {
            Some(n) => n,
            None => owned("\"-\""),
        };
        let f = match frame_addr {
            Some(a) => dec_string(a),
            None => owned("\"*\""),
        };
        let mut p = two_words(n, f);
        push_word(&mut p, escape_command(expression));
        proof {
            assert(strs_view(p@) =~= target);
        }
        MiCommand { operation: owned("var-create"), options: None, parameters: Some(p) }
    }

    pub fn var_delete(name: String, delete_children: bool) -> (r: MiCommand)
        ensures
            r@ == cmd(
                "var-delete"@,
                None,
                Some(
                    if delete_children {
                        seq!["-c"@, name@]
                    } else {
                        seq![name@]
                    },
                ),
            ),
    {
        let p = if delete_children {
            two_words(owned("-c"), name)
        } else {
            one_word(name)
        };
        MiCommand { operation: owned("var-delete"), options: None, parameters: Some(p) }
    }

    /// Lists the children of a variable object, optionally those from
    /// `from_to.0` up to `from_to.1`.
    pub fn var_list_children(name: String, print_values: bool, from_to: Option<(u64, u64)>) -> (r:
        MiCommand)
        ensures
            r@ == cmd(
                "var-list-children"@,
                None,
                Some(
                    seq![
                        if print_values {
                            "--all-values"@
                        } else {
                            "--no-values"@
                        },
                        name@,
                    ] + match from_to {
                        Some((a, b)) => seq![dec_str(a as nat), dec_str(b as nat)],
                        None => Seq::empty(),
                    },
                ),
            ),
    {
        let flag = if print_values {
            owned("--all-values")
        } else {
            owned("--no-values")
        };
        let ghost nv = name@;
        let mut p = two_words(flag, name);
        let ghost head = strs_view(p@);
        match from_to {
            Some((a, b)) => {
                push_word(&mut p, dec_string(a));
                push_word(&mut p, dec_string(b));
                proof {
                    assert(strs_view(p@) =~= head + seq![dec_str(a as nat), dec_str(b as nat)]);
                }
            },
            None => {
                proof {
                    assert(strs_view(p@) =~= head + Seq::<Seq<char>>::empty());
                }
            },
        }
        MiCommand { operation: owned("var-list-children"), options: None, parameters: Some(p) }
    }

    /// The empty command: only flushes what the debugger has to say.
    pub fn empty() -> (r: MiCommand)
        ensures
            r@ == cmd(Seq::empty(), None, None),
    {
        let op = owned("");
        proof {
            assert(op@.len() == 0) by {
                reveal_strlit("");
            }
            assert(op@ =~= Seq::<char>::empty());
        }
        MiCommand { operation: op, options: None, parameters: None }
    }
}

} // verus!
