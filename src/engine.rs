use vstd::prelude::*;

use crate::commands::{encode_command, MiCommand};
use crate::error::AppError;
use crate::output::{
    AsyncClass, OutOfBandRecord, Output, ResultClass, ResultRecord, StreamKind,
};
use crate::text::owned;
use crate::value::{str_field, Val};

verus! {

/// Why a command could not be run.
#[derive(Clone, Debug, PartialEq, Eq, Structural)]
pub enum ExecuteError {
    Busy,
    Quit,
}

impl ExecuteError {
    /// The application error of the same meaning.
    pub fn into_app_error(self) -> (r: AppError)
        ensures
            r == match self {
                ExecuteError::Busy => AppError::GDBBusy,
                ExecuteError::Quit => AppError::GDBQuit,
            },
    {
        match self {
            ExecuteError::Busy => AppError::GDBBusy,
            ExecuteError::Quit => AppError::GDBQuit,
        }
    }
}

/// The command that awaits its result: its token, and whether it was a bare
/// flush (empty operation), whose result may come without a token.
#[derive(Debug, Clone, Copy, PartialEq, Eq, Structural)]
pub struct PendingCommand {
    pub token: u64,
    pub flush: bool,
}

/// The state of one session's engine.
pub struct EngineState {
    /// Whether the debugged program runs, as last reported.
    pub running: bool,
    /// The token the next command gets.
    pub next_token: u64,
    /// The command in flight, if any.
    pub pending: Option<PendingCommand>,
    /// Tokens of commands given up on, whose results are still to be drained.
    pub abandoned: Seq<u64>,
}

/// The engine of one debugger session: assigns tokens, admits one command at
/// a time, matches results to commands and tracks whether the program runs.
pub struct GDB {
    is_running: bool,
    current_command_token: u64,
    pending: Option<PendingCommand>,
    abandoned: Vec<u64>,
    binary_path: String,
    init_options: Vec<String>,
}

/// Where the reader sends what a line of output held.
#[derive(Debug, PartialEq, Eq)]
pub enum ReaderAction {
    /// To the command that awaits a result.
    ToResult(ResultRecord),
    /// To the subscribers of asynchronous and stream records.
    ToOutOfBand(OutOfBandRecord),
    /// Nowhere (the prompt).
    Nothing,
}

impl View for GDB {
    type V = EngineState;

    closed spec fn view(&self) -> EngineState {
        EngineState {
            running: self.is_running,
            next_token: self.current_command_token,
            pending: self.pending,
            abandoned: self.abandoned@,
        }
    }
}

/// Whether a result with token `tok` answers the pending command.
pub open spec fn answers(p: PendingCommand, tok: Option<u64>) -> bool {
    tok == Some(p.token) || (tok is None && p.flush)
}

/// `s` without the occurrences of `t`.
pub open spec fn without(s: Seq<u64>, t: u64) -> Seq<u64>
    decreases s.len(),
{
    if s.len() == 0 {
        s
    } else if s.last() == t {
        without(s.drop_last(), t)
    } else {
        without(s.drop_last(), t).push(s.last())
    }
}

/// The message of an `^error` reply: its `msg`, or nothing when it has none.
pub open spec fn error_msg(results: Val) -> Seq<char> {
    match str_field(results, "msg"@) {
        Some(m) => m,
        None => Seq::empty(),
    }
}

/// Whether the engine refuses new commands.
pub open spec fn is_busy(s: EngineState) -> bool {
    s.running || s.pending is Some
}

/// The running flag after a line of output: set by a `running` result,
/// cleared by an `error` result or a `stopped` record.
pub open spec fn running_after(running: bool, out: Output) -> bool {
    match out {
        Output::Result(rec) => match rec.class {
            ResultClass::Running => true,
            ResultClass::Error => false,
            _ => running,
        },
        Output::OutOfBand(OutOfBandRecord::AsyncRecord { class: AsyncClass::Stopped, .. }) => false,
        _ => running,
    }
}

/// Where a line of output goes: result records to the awaiting command,
/// records out of band to subscribers, the prompt nowhere, and any other
/// line to subscribers as target stream output.
pub open spec fn routes(out: Output, r: ReaderAction) -> bool {
    match out {
        Output::Result(rec) => r == ReaderAction::ToResult(rec),
        Output::OutOfBand(rec) => r == ReaderAction::ToOutOfBand(rec),
        Output::GDBLine => r == ReaderAction::Nothing,
        Output::SomethingElse(t) => r == ReaderAction::ToOutOfBand(
            OutOfBandRecord::StreamRecord { kind: StreamKind::Target, data: t },
        ),
    }
}

fn remove_token(v: &Vec<u64>, t: u64) -> (r: Vec<u64>)
    ensures
        r@ == without(v@, t),
{
    let mut out: Vec<u64> = Vec::new();
    let mut k: usize = 0;
    proof {
        assert(v@.subrange(0, 0) =~= Seq::<u64>::empty());
    }
    while k < v.len()
        invariant
            k <= v@.len(),
            out@ == without(v@.subrange(0, k as int), t),
        decreases v@.len() - k,
    {
        proof {
            let pre = v@.subrange(0, k + 1);
            assert(pre.drop_last() =~= v@.subrange(0, k as int));
        }
        if v[k] != t {
            out.push(v[k]);
        }
        k = k + 1;
    }
    proof {
        assert(v@.subrange(0, v@.len() as int) =~= v@);
    }
    out
}

fn contains_token(v: &Vec<u64>, t: u64) -> (r: bool)
    ensures
        r == v@.contains(t),
{
    let mut k: usize = 0;
    while k < v.len()
        invariant
            k <= v@.len(),
            forall|m: int| 0 <= m < k ==> v@[m] != t,
        decreases v@.len() - k,
    {
        if v[k] == t {
            return true;
        }
        k = k + 1;
    }
    false
}

impl GDB {
    /// A fresh engine: nothing in flight, not running, first token 0.
    pub fn new(binary_path: String, init_options: Vec<String>) -> (r: GDB)
        ensures
            r@.running == false,
            r@.next_token == 0,
            r@.pending is None,
            r@.abandoned.len() == 0,
            r.spec_binary_path() == binary_path,
            r.spec_init_options() == init_options,
    {
        GDB {
            is_running: false,
            current_command_token: 0,
            pending: None,
            abandoned: Vec::new(),
            binary_path,
            init_options,
        }
    }

    pub closed spec fn spec_binary_path(&self) -> String {
        self.binary_path
    }

    pub closed spec fn spec_init_options(&self) -> Vec<String> {
        self.init_options
    }

    /// The debugger executable this session runs.
    pub fn binary_path(&self) -> (r: &String)
        ensures
            *r == self.spec_binary_path(),
    {
        &self.binary_path
    }

    /// The options the debugger was started with.
    pub fn init_options(&self) -> (r: &Vec<String>)
        ensures
            *r == self.spec_init_options(),
    {
        &self.init_options
    }

    pub fn is_running(&self) -> (r: bool)
        ensures
            r == self@.running,
    {
        self.is_running
    }

    /// Whether a command awaits its result.
    pub fn has_pending(&self) -> (r: bool)
        ensures
            r == self@.pending is Some,
    {
        self.pending.is_some()
    }

    /// The token of the command that awaits its result, if any.
    pub fn pending_token(&self) -> (r: Option<u64>)
        ensures
            r == match self@.pending {
                Some(p) => Some(p.token),
                None => None,
            },
    {
        match self.pending {
            Some(p) => Some(p.token),
            None => None,
        }
    }

    /// Hands out the next token.
    pub fn new_token(&mut self) -> (r: u64)
        requires
            old(self)@.next_token < u64::MAX,
        ensures
            r == old(self)@.next_token,
            final(self)@ == (EngineState { next_token: (r + 1) as u64, ..old(self)@ }),
            final(self).spec_binary_path() == old(self).spec_binary_path(),
            final(self).spec_init_options() == old(self).spec_init_options(),
    {
        let t = self.current_command_token;
        self.current_command_token = t + 1;
        t
    }

    /// Admits a command: refused with `GDBBusy` while another is in flight or
    /// the program runs; otherwise it gets the next token and becomes the
    /// pending command, and its wire form is returned to be written.
    pub fn begin_execute(&mut self, command: &MiCommand) -> (r: Result<(u64, String), AppError>)
        ensures
            is_busy(old(self)@) ==> r == Err::<(u64, String), AppError>(AppError::GDBBusy)
                && final(self)@ == old(self)@,
            !is_busy(old(self)@) && old(self)@.next_token == u64::MAX ==> r is Err && final(self)@
                == old(self)@,
            !is_busy(old(self)@) && old(self)@.next_token < u64::MAX ==> {
                &&& r is Ok
                &&& r->Ok_0.0 == old(self)@.next_token
                &&& r->Ok_0.1@ == encode_command(command@, old(self)@.next_token)
                &&& final(self)@ == (EngineState {
                    next_token: (old(self)@.next_token + 1) as u64,
                    pending: Some(
                        PendingCommand {
                            token: old(self)@.next_token,
                            flush: command@.operation.len() == 0,
                        },
                    ),
                    ..old(self)@
                })
            },
            final(self).spec_binary_path() == old(self).spec_binary_path(),
            final(self).spec_init_options() == old(self).spec_init_options(),
    {
        if self.is_running || self.pending.is_some() {
            return Err(AppError::GDBBusy);
        }
        if self.current_command_token == u64::MAX {
            return Err(AppError::InvalidArgument(owned("no command tokens left in this session")));
        }
        let token = self.new_token();
        let flush = command.operation.as_str().is_empty();
        self.pending = Some(PendingCommand { token, flush });
        Ok((token, command.encode(token)))
    }

    /// Decides what becomes of a line of output, and updates the running flag.
    pub fn on_output(&mut self, out: Output) -> (r: ReaderAction)
        ensures
            routes(out, r),
            final(self)@ == (EngineState { running: running_after(old(self)@.running, out), ..old(self)@ }),
            final(self).spec_binary_path() == old(self).spec_binary_path(),
            final(self).spec_init_options() == old(self).spec_init_options(),
    {
        match out {
            Output::Result(rec) => {
                match rec.class {
                    ResultClass::Running => {
                        self.is_running = true;
                    },
                    ResultClass::Error => {
                        self.is_running = false;
                    },
                    _ => {},
                }
                ReaderAction::ToResult(rec)
            },
            Output::OutOfBand(rec) => {
                match &rec {
                    OutOfBandRecord::AsyncRecord { class: AsyncClass::Stopped, .. } => {
                        self.is_running = false;
                    },
                    _ => {},
                }
                ReaderAction::ToOutOfBand(rec)
            },
            Output::GDBLine => ReaderAction::Nothing,
            Output::SomethingElse(t) => ReaderAction::ToOutOfBand(
                OutOfBandRecord::StreamRecord { kind: StreamKind::Target, data: t },
            ),
        }
    }

    /// Takes a result record off the result channel (`None`: the channel
    /// closed). Returns what the awaiting command gets (an `^error` reply as
    /// `GDBError` with its message), or `None` when the record is dropped:
    /// nothing awaits it, or it answers a command given up on.
    pub fn accept_result(&mut self, record: Option<ResultRecord>) -> (r: Option<
        Result<ResultRecord, AppError>,
    >)
        ensures
            final(self)@.running == old(self)@.running,
            final(self)@.next_token == old(self)@.next_token,
            final(self).spec_binary_path() == old(self).spec_binary_path(),
            final(self).spec_init_options() == old(self).spec_init_options(),
            record is None ==> r == Some(Err::<ResultRecord, AppError>(AppError::GDBQuit))
                && final(self)@.pending is None && final(self)@.abandoned == old(self)@.abandoned,
            record is Some && old(self)@.pending is None ==> r is None && final(self)@.pending is None
                && final(self)@.abandoned == match record->0.token {
                Some(t) => without(old(self)@.abandoned, t),
                None => old(self)@.abandoned,
            },
            record is Some && old(self)@.pending is Some ==> {
                let p = old(self)@.pending->0;
                let rec = record->0;
                if answers(p, rec.token) && rec.class == ResultClass::Error {
                    &&& r matches Some(Err(AppError::GDBError(m)))
                    &&& r->0->Err_0->GDBError_0@ == error_msg(rec.results@)
                    &&& final(self)@.pending is None
                    &&& final(self)@.abandoned == old(self)@.abandoned
                } else if answers(p, rec.token) {
                    &&& r == Some(Ok::<ResultRecord, AppError>(rec))
                    &&& final(self)@.pending is None
                    &&& final(self)@.abandoned == old(self)@.abandoned
                } else if rec.token is Some && old(self)@.abandoned.contains(rec.token->0) {
                    &&& r is None
                    &&& final(self)@.pending == old(self)@.pending
                    &&& final(self)@.abandoned == without(old(self)@.abandoned, rec.token->0)
                } else {
                    &&& r matches Some(Err(AppError::InvalidArgument(_)))
                    &&& final(self)@.pending is None
                    &&& final(self)@.abandoned == old(self)@.abandoned
                }
            },
    {
        match record {
            None => {
                self.pending = None;
                Some(Err(AppError::GDBQuit))
            },
            Some(rec) => {
                match self.pending {
                    None => {
                        match rec.token {
                            Some(t) => {
                                self.abandoned = remove_token(&self.abandoned, t);
                            },
                            None => {},
                        }
                        None
                    },
                    Some(p) => {
                        let matches = match rec.token {
                            Some(t) => t == p.token,
                            None => p.flush,
                        };
                        if matches {
                            self.pending = None;
                            if rec.class == ResultClass::Error {
                                let m = match rec.results.get_str("msg") {
                                    Some(t) => t.clone(),
                                    None => owned(""),
                                };
                                proof {
                                    reveal_strlit("");
                                    assert(m@ =~= error_msg(rec.results@));
                                }
                                Some(Err(AppError::GDBError(m)))
                            } else {
                                Some(Ok(rec))
                            }
                        } else {
                            match rec.token {
                                Some(t) => {
                                    if contains_token(&self.abandoned, t) {
                                        self.abandoned = remove_token(&self.abandoned, t);
                                        return None;
                                    }
                                },
                                None => {},
                            }
                            self.pending = None;
                            Some(Err(AppError::InvalidArgument(owned("unexpected command token"))))
                        }
                    },
                }
            },
        }
    }

    /// Gives up on the pending command (its timeout passed): the engine takes
    /// new commands again, and the result of this one is dropped when it comes.
    pub fn abandon(&mut self)
        ensures
            final(self)@.running == old(self)@.running,
            final(self)@.next_token == old(self)@.next_token,
            final(self)@.pending is None,
            final(self)@.abandoned == match old(self)@.pending {
                Some(p) => old(self)@.abandoned.push(p.token),
                None => old(self)@.abandoned,
            },
            final(self).spec_binary_path() == old(self).spec_binary_path(),
            final(self).spec_init_options() == old(self).spec_init_options(),
    {
        match self.pending {
            Some(p) => {
                self.abandoned.push(p.token);
            },
            None => {},
        }
        self.pending = None;
    }
}

/// Law: once a command is admitted, the engine is busy, so a second command
/// is refused with `GDBBusy` until the first is answered or given up on.
pub proof fn lemma_one_command_in_flight(s: EngineState, p: PendingCommand)
    ensures
        is_busy(EngineState { pending: Some(p), ..s }),
{
}

/// Law: the running flag reflects the last report: set by a `running`
/// result, cleared by an `error` result or a `stopped` record.
pub proof fn lemma_running_reflects_output(running: bool, out: Output)
    ensures
        out matches Output::Result(r) && r.class == ResultClass::Running ==> running_after(
            running,
            out,
        ),
        out matches Output::Result(r) && r.class == ResultClass::Error ==> !running_after(
            running,
            out,
        ),
        out matches Output::OutOfBand(OutOfBandRecord::AsyncRecord { class: AsyncClass::Stopped, .. })
            ==> !running_after(running, out),
{
}

/// Law: a line that is no record reaches the subscribers whole, as target
/// stream output.
pub proof fn lemma_unparsed_line_to_target(out: Output, r: ReaderAction)
    requires
        out is SomethingElse,
        routes(out, r),
    ensures
        r matches ReaderAction::ToOutOfBand(OutOfBandRecord::StreamRecord { kind, data }) && kind
            == StreamKind::Target && data@ == out->SomethingElse_0@,
{
}

} // verus!
