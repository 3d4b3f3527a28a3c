use vstd::prelude::*;

use crate::commands::strs_view;
use crate::error::AppError;
use crate::text::{dec_chars, dec_str, owned, push_all, string_of};

verus! {

/// The options a debugger is started with.
pub struct GDBBuilder {
    /// Path to the debugger executable
    pub gdb_path: String,
    /// Do not read ~/.gdbinit (--nh)
    pub opt_nh: bool,
    /// Do not read any .gdbinit (--nx)
    pub opt_nx: bool,
    /// Do not print the version number on startup (--quiet)
    pub opt_quiet: bool,
    /// Change the current directory (--cd=DIR)
    pub opt_cd: Option<String>,
    /// Serial port baud rate for remote debugging (-b BAUDRATE)
    pub opt_bps: Option<u32>,
    /// Read symbols from a file (--symbols=SYMFILE)
    pub opt_symbol_file: Option<String>,
    /// Analyze a core dump (--core=COREFILE)
    pub opt_core_file: Option<String>,
    /// Attach to a running process (--pid=PID)
    pub opt_proc_id: Option<u32>,
    /// Execute commands from a file (--command=FILE)
    pub opt_command: Option<String>,
    /// Search for source files in a directory (--directory=DIR)
    pub opt_source_dir: Option<String>,
    /// Arguments for the program (--args)
    pub opt_args: Vec<String>,
    /// The executable to debug
    pub opt_program: Option<String>,
    /// Terminal for the program's input and output (--tty=TTY)
    pub opt_tty: Option<String>,
}

pub open spec fn flag_part(on: bool, w: Seq<char>) -> Seq<Seq<char>> {
    if on {
        seq![w]
    } else {
        Seq::empty()
    }
}

pub open spec fn path_part(p: Option<String>, prefix: Seq<char>) -> Seq<Seq<char>> {
    match p {
        Some(x) => seq![prefix + x@],
        None => Seq::empty(),
    }
}

pub open spec fn bps_part(b: Option<u32>) -> Seq<Seq<char>> {
    match b {
        Some(x) => seq!["-b"@, dec_str(x as nat)],
        None => Seq::empty(),
    }
}

pub open spec fn pid_part(p: Option<u32>) -> Seq<Seq<char>> {
    match p {
        Some(x) => seq!["--pid="@ + dec_str(x as nat)],
        None => Seq::empty(),
    }
}

pub open spec fn program_part(program: Option<String>, args: Seq<String>) -> Seq<Seq<char>> {
    if args.len() > 0 {
        seq!["--args"@, program->0@] + strs_view(args)
    } else {
        match program {
            Some(p) => seq![p@],
            None => Seq::empty(),
        }
    }
}

/// The arguments the debugger is started with, or `None` when arguments for
/// the program are given without the program.
pub open spec fn command_line(b: GDBBuilder) -> Option<Seq<Seq<char>>> {
    if b.opt_args@.len() > 0 && b.opt_program is None {
        None
    } else {
        Some(
            seq!["--interpreter=mi"@] + flag_part(b.opt_nh, "--nh"@) + flag_part(b.opt_nx, "--nx"@)
                + flag_part(b.opt_quiet, "--quiet"@) + path_part(b.opt_cd, "--cd="@) + bps_part(
                b.opt_bps,
            ) + path_part(b.opt_symbol_file, "--symbols="@) + path_part(
                b.opt_core_file,
                "--core="@,
            ) + pid_part(b.opt_proc_id) + path_part(b.opt_command, "--command="@) + path_part(
                b.opt_source_dir,
                "--directory="@,
            ) + path_part(b.opt_tty, "--tty="@) + program_part(b.opt_program, b.opt_args@),
        )
    }
}

/// The options that are remembered with the session.
pub open spec fn init_options_of(b: GDBBuilder) -> Seq<Seq<char>> {
    flag_part(b.opt_nh, "--nh"@) + flag_part(b.opt_nx, "--nx"@)
}

fn append_part(v: &mut Vec<String>, part: Vec<String>)
    ensures
        strs_view(final(v)@) == strs_view(old(v)@) + strs_view(part@),
{
    let ghost before = v@;
    let mut p = part;
    let ghost pv = p@;
    v.append(&mut p);
    proof {
        assert(strs_view(v@) =~= strs_view(before) + strs_view(pv));
    }
}

fn flag_vec(on: bool, w: &str) -> (r: Vec<String>)
    ensures
        strs_view(r@) == flag_part(on, w@),
{
    let mut v: Vec<String> = Vec::new();
    if on {
        v.push(owned(w));
        proof {
            assert(strs_view(v@) =~= seq![w@]);
        }
    } else {
        proof {
            assert(strs_view(v@) =~= Seq::<Seq<char>>::empty());
        }
    }
    v
}

fn joined(prefix: &str, tail: &Vec<char>) -> (r: String)
    ensures
        r@ == prefix@ + tail@,
{
    let mut out: Vec<char> = Vec::new();
    push_all(&mut out, prefix);
    let mut t = tail.clone();
    out.append(&mut t);
    proof {
        assert(Seq::<char>::empty() + prefix@ =~= prefix@);
    }
    string_of(&out)
}

fn path_vec(p: &Option<String>, prefix: &str) -> (r: Vec<String>)
    ensures
        strs_view(r@) == path_part(*p, prefix@),
{
    let mut v: Vec<String> = Vec::new();
    match p {
        Some(x) => {
            let mut out: Vec<char> = Vec::new();
            push_all(&mut out, prefix);
            push_all(&mut out, x.as_str());
            v.push(string_of(&out));
            proof {
                assert(Seq::<char>::empty() + prefix@ =~= prefix@);
                assert(strs_view(v@) =~= seq![prefix@ + x@]);
            }
        },
        None => {
            proof {
                assert(strs_view(v@) =~= Seq::<Seq<char>>::empty());
            }
        },
    }
    v
}

impl GDBBuilder {
    /// Options for running `gdb`: none set.
    pub fn new(gdb: String) -> (r: GDBBuilder)
        ensures
            r.gdb_path == gdb,
            !r.opt_nh && !r.opt_nx && !r.opt_quiet,
            r.opt_cd is None && r.opt_bps is None && r.opt_symbol_file is None,
            r.opt_core_file is None && r.opt_proc_id is None && r.opt_command is None,
            r.opt_source_dir is None && r.opt_program is None && r.opt_tty is None,
            r.opt_args@.len() == 0,
    {
        GDBBuilder {
            gdb_path: gdb,
            opt_nh: false,
            opt_nx: false,
            opt_quiet: false,
            opt_cd: None,
            opt_bps: None,
            opt_symbol_file: None,
            opt_core_file: None,
            opt_proc_id: None,
            opt_command: None,
            opt_source_dir: None,
            opt_args: Vec::new(),
            opt_program: None,
            opt_tty: None,
        }
    }

    /// The arguments to start the debugger with, machine interface first;
    /// arguments for the program need the program.
    pub fn command_line(&self) -> (r: Result<Vec<String>, AppError>)
        ensures
            match r {
                Ok(v) => command_line(*self) == Some(strs_view(v@)),
                Err(e) => command_line(*self) is None && e is InvalidArgument,
            },
    {
        if self.opt_args.len() > 0 && self.opt_program.is_none() {
            return Err(
                AppError::InvalidArgument(owned("Program path is required if --args is provided")),
            );
        }
        let mut v: Vec<String> = Vec::new();
        v.push(owned("--interpreter=mi"));
        proof {
            assert(strs_view(v@) =~= seq!["--interpreter=mi"@]);
        }
        append_part(&mut v, flag_vec(self.opt_nh, "--nh"));
        append_part(&mut v, flag_vec(self.opt_nx, "--nx"));
        append_part(&mut v, flag_vec(self.opt_quiet, "--quiet"));
        append_part(&mut v, path_vec(&self.opt_cd, "--cd="));
        let mut bps: Vec<String> = Vec::new();
        match self.opt_bps {
            Some(b) => {
                bps.push(owned("-b"));
                bps.push(string_of(&dec_chars(b as u64)));
                proof {
                    assert(strs_view(bps@) =~= seq!["-b"@, dec_str(b as nat)]);
                }
            },
            None => {
                proof {
                    assert(strs_view(bps@) =~= Seq::<Seq<char>>::empty());
                }
            },
        }
        append_part(&mut v, bps);
        append_part(&mut v, path_vec(&self.opt_symbol_file, "--symbols="));
        append_part(&mut v, path_vec(&self.opt_core_file, "--core="));
        let mut pid: Vec<String> = Vec::new();
        match self.opt_proc_id {
            Some(p) => {
                pid.push(joined("--pid=", &dec_chars(p as u64)));
                proof {
                    assert(strs_view(pid@) =~= seq!["--pid="@ + dec_str(p as nat)]);
                }
            },
            None => {
                proof {
                    assert(strs_view(pid@) =~= Seq::<Seq<char>>::empty());
                }
            },
        }
        append_part(&mut v, pid);
        append_part(&mut v, path_vec(&self.opt_command, "--command="));
        append_part(&mut v, path_vec(&self.opt_source_dir, "--directory="));
        append_part(&mut v, path_vec(&self.opt_tty, "--tty="));
        let mut prog: Vec<String> = Vec::new();
        if self.opt_args.len() > 0 {
            match &self.opt_program {
                Some(p) => {
                    prog.push(owned("--args"));
                    prog.push(p.clone());
                    let mut k: usize = 0;
                    proof {
                        assert(strs_view(prog@) =~= seq!["--args"@, p@] + strs_view(
                            self.opt_args@.subrange(0, 0),
                        ));
                    }
                    while k < self.opt_args.len()
                        invariant
                            k <= self.opt_args@.len(),
                            strs_view(prog@) == seq!["--args"@, p@] + strs_view(
                                self.opt_args@.subrange(0, k as int),
                            ),
                        decreases self.opt_args@.len() - k,
                    {
                        let ghost before = prog@;
                        let a = self.opt_args[k].clone();
                        proof {
                            assert(a == self.opt_args@[k as int]);
                        }
                        prog.push(a);
                        proof {
                            assert(prog@ == before.push(self.opt_args@[k as int]));
                            assert(self.opt_args@.subrange(0, k + 1) =~= self.opt_args@.subrange(
                                0,
                                k as int,
                            ).push(self.opt_args@[k as int]));
                            assert(strs_view(self.opt_args@.subrange(0, k + 1)) =~= strs_view(
                                self.opt_args@.subrange(0, k as int),
                            ).push(self.opt_args@[k as int]@));
                            assert(strs_view(prog@) =~= strs_view(before).push(self.opt_args@[k as int]@));
                            assert(strs_view(prog@) =~= seq!["--args"@, p@] + strs_view(
                                self.opt_args@.subrange(0, k + 1),
                            ));
                        }
                        k = k + 1;
                    }
                    proof {
                        assert(self.opt_args@.subrange(0, self.opt_args@.len() as int)
                            =~= self.opt_args@);
                    }
                },
                None => {},
            }
        } else {
            match &self.opt_program {
                Some(p) => {
                    prog.push(p.clone());
                    proof {
                        assert(strs_view(prog@) =~= seq![p@]);
                    }
                },
                None => {
                    proof {
                        assert(strs_view(prog@) =~= Seq::<Seq<char>>::empty());
                    }
                },
            }
        }
        append_part(&mut v, prog);
        Ok(v)
    }

    /// The options that are remembered with the session: `--nh` and `--nx`.
    pub fn init_options(&self) -> (r: Vec<String>)
        ensures
            strs_view(r@) == init_options_of(*self),
    {
        let mut v = flag_vec(self.opt_nh, "--nh");
        append_part(&mut v, flag_vec(self.opt_nx, "--nx"));
        v
    }
}

} // verus!
