//! The interpreter core: shell state, the control-flow signal, the
//! file-descriptor table, command dispatch, and the tree walk over
//! pipelines, conjunctions and compound commands.
//!
//! Process creation, globbing and parsing are reached only through the
//! [`Host`] collaborator, which promises nothing; every decision the
//! interpreter itself makes is verified.

use vstd::prelude::*;

verus! {

use crate::command::Command;
use crate::command::CommandType;
use crate::command::CompleteCommand;
use crate::command::CompoundCommand;
use crate::command::Conjunction;
use crate::command::IORedirectionKind;
use crate::command::LogicalOp;
use crate::command::Pipeline;
use crate::command::Program;
use crate::command::Redirection;
use crate::command::RedirectionKind;
use crate::command::SimpleCommand;
use crate::environment::Environment;
use crate::expansion::expand_word_to_string;
use crate::strings::chars_of;
use crate::strings::str_equal;
use crate::strings::string_of_range;
use vstd::string::StringExecFns;

/// The control-flow signal that unwinds loops and functions.
#[derive(Debug, Clone, Copy, PartialEq, Eq, Structural)]
pub enum ControlFlowState {
    /// Normal execution.
    Running,
    /// Unwinding `n` enclosing loops.
    Break(u32),
    /// Skipping to the next iteration of the `n`-th enclosing loop.
    Continue(u32),
    /// Unwinding to the nearest function or dot-script boundary.
    Return,
}

/// What a redirection does to one file descriptor.
#[derive(Debug, Clone, PartialEq, Eq)]
pub enum FdAction {
    /// Open the named file with the operator's semantics; under
    /// `noclobber` a plain `>` must refuse an existing regular file,
    /// which the opener enforces.
    OpenFile { path: String, kind: IORedirectionKind, noclobber: bool },
    /// Duplicate another descriptor.
    Duplicate(u32),
    /// Close the descriptor.
    Close,
    /// Feed the given text as input.
    HereDoc(String),
}

/// The model of an action.
pub enum FdActionModel {
    OpenFile(Seq<char>, IORedirectionKind, bool),
    Duplicate(u32),
    Close,
    HereDoc(Seq<char>),
}

/// The model of one table entry.
pub open spec fn fd_entry_model(e: (u32, FdAction)) -> (u32, FdActionModel) {
    (
        e.0,
        match e.1 {
            FdAction::OpenFile { path, kind, noclobber } => FdActionModel::OpenFile(
                path@,
                kind,
                noclobber,
            ),
            FdAction::Duplicate(d) => FdActionModel::Duplicate(d),
            FdAction::Close => FdActionModel::Close,
            FdAction::HereDoc(t) => FdActionModel::HereDoc(t@),
        },
    )
}

/// The first entry for `fd`, if any.
pub open spec fn fd_lookup(m: Seq<(u32, FdActionModel)>, fd: u32) -> Option<FdActionModel>
    decreases m.len(),
{
    if m.len() == 0 {
        None
    } else if m.first().0 == fd {
        Some(m.first().1)
    } else {
        fd_lookup(m.drop_first(), fd)
    }
}

/// Distinct descriptors in the table.
pub open spec fn fd_wf(m: Seq<(u32, FdActionModel)>) -> bool {
    forall|i: int, j: int| 0 <= i < j < m.len() ==> (#[trigger] m[i]).0 != (#[trigger] m[j]).0
}

/// The per-execution file-descriptor table: what each small integer
/// descriptor is redirected to.
#[derive(Debug, PartialEq, Eq)]
pub struct FdTable {
    pub entries: Vec<(u32, FdAction)>,
}

impl View for FdTable {
    type V = Seq<(u32, FdActionModel)>;

    open spec fn view(&self) -> Seq<(u32, FdActionModel)> {
        self.entries@.map(|i: int, e: (u32, FdAction)| fd_entry_model(e))
    }
}

impl FdTable {
    /// An empty table: every descriptor still means what the parent
    /// meant by it.
    pub fn new() -> (r: FdTable)
        ensures
            r@ == Seq::<(u32, FdActionModel)>::empty(),
            fd_wf(r@),
    {
        let r = FdTable { entries: Vec::new() };
        assert(r@ =~= Seq::<(u32, FdActionModel)>::empty());
        r
    }

    /// Records that `fd` now means `action`, replacing any earlier
    /// recording: the last redirection of a descriptor wins.
    pub fn set(&mut self, fd: u32, action: FdAction)
        requires
            fd_wf(old(self)@),
        ensures
            fd_wf(final(self)@),
            fd_lookup(final(self)@, fd) == Some(fd_entry_model((fd, action)).1),
            forall|other: u32|
                other != fd ==> fd_lookup(final(self)@, other) == fd_lookup(
                    old(self)@,
                    other,
                ),
    {
        let ghost m0 = self@;
        let ghost am = fd_entry_model((fd, action)).1;
        let mut i: usize = 0;
        proof {
            assert(m0.skip(0) =~= m0);
        }
        while i < self.entries.len()
            invariant
                i <= self.entries@.len(),
                m0 == self@,
                m0 == old(self)@,
                am == fd_entry_model((fd, action)).1,
                fd_wf(m0),
                m0.len() == self.entries@.len(),
                fd_lookup(m0, fd) == fd_lookup(m0.skip(i as int), fd),
                forall|t: int| 0 <= t < i ==> (#[trigger] m0[t]).0 != fd,
            decreases self.entries@.len() - i,
        {
            proof {
                assert(m0.skip(i as int).first() == m0[i as int]);
                assert(m0.skip(i as int).drop_first() =~= m0.skip(i + 1));
            }
            if self.entries[i].0 == fd {
                proof {
                    assert(m0[i as int] == fd_entry_model(self.entries@[i as int]));
                }
                let ghost av = action;
                let ghost oldentries = self.entries@;
                self.entries.set(i, (fd, action));
                proof {
                    assert(self.entries@ == oldentries.update(i as int, (fd, av)));
                    assert forall|j: int| 0 <= j < self@.len() implies self@[j] == m0.update(
                        i as int,
                        (fd, am),
                    )[j] by {
                        assert(self@[j] == fd_entry_model(self.entries@[j]));
                        if j != i {
                            assert(self.entries@[j] == oldentries[j]);
                            assert(m0[j] == fd_entry_model(oldentries[j]));
                        } else {
                            assert(self.entries@[j] == (fd, av));
                            assert(self@[j] == fd_entry_model((fd, av)));
                            assert(fd_entry_model((fd, av)).0 == fd);
                            assert(fd_entry_model((fd, av)).1 == am);
                        }
                    }
                    assert(self@ =~= m0.update(i as int, (fd, am)));
                    lemma_fd_update(m0, i as int, fd, am);
                }
                return ;
            }
            i = i + 1;
        }
        self.entries.push((fd, action));
        proof {
            assert(self@ =~= m0.push((fd, am)));
            lemma_fd_push(m0, fd, am);
            assert forall|other: u32| other != fd implies fd_lookup(self@, other)
                == fd_lookup(m0, other) by {
                lemma_fd_push_other(m0, fd, am, other);
            }
        }
    }

    /// An independent copy, for a scope whose redirections must not
    /// outlive it.
    pub fn snapshot(&self) -> (r: FdTable)
        ensures
            r@ == self@,
    {
        let mut entries: Vec<(u32, FdAction)> = Vec::new();
        let mut i: usize = 0;
        while i < self.entries.len()
            invariant
                i <= self.entries@.len(),
                entries@.len() == i,
                forall|t: int|
                    0 <= t < i ==> fd_entry_model(#[trigger] entries@[t]) == fd_entry_model(
                        self.entries@[t],
                    ),
            decreases self.entries@.len() - i,
        {
            let fd = self.entries[i].0;
            let a = match &self.entries[i].1 {
                FdAction::OpenFile { path, kind, noclobber } => FdAction::OpenFile {
                    path: path.clone(),
                    kind: *kind,
                    noclobber: *noclobber,
                },
                FdAction::Duplicate(d) => FdAction::Duplicate(*d),
                FdAction::Close => FdAction::Close,
                FdAction::HereDoc(t) => FdAction::HereDoc(t.clone()),
            };
            entries.push((fd, a));
            i = i + 1;
        }
        let r = FdTable { entries };
        assert(r@ =~= self@);
        r
    }
}

/// Updating the only entry of `fd` rebinds `fd` and nothing else.
proof fn lemma_fd_update(m: Seq<(u32, FdActionModel)>, i: int, fd: u32, a: FdActionModel)
    requires
        0 <= i < m.len(),
        m[i].0 == fd,
        forall|t: int| 0 <= t < i ==> (#[trigger] m[t]).0 != fd,
        fd_wf(m),
    ensures
        fd_wf(m.update(i, (fd, a))),
        fd_lookup(m.update(i, (fd, a)), fd) == Some(a),
        forall|other: u32|
            other != fd ==> fd_lookup(m.update(i, (fd, a)), other) == fd_lookup(m, other),
{
    assert forall|other: u32| true implies fd_lookup(m.update(i, (fd, a)), other) == (
    if other == fd {
        Some(a)
    } else {
        fd_lookup(m, other)
    }) by {
        lemma_fd_update_inner(m, i, fd, a, other);
    }
}

/// The pointwise form of `lemma_fd_update`.
proof fn lemma_fd_update_inner(
    m: Seq<(u32, FdActionModel)>,
    i: int,
    fd: u32,
    a: FdActionModel,
    other: u32,
)
    requires
        0 <= i < m.len(),
        m[i].0 == fd,
        forall|t: int| 0 <= t < i ==> (#[trigger] m[t]).0 != fd,
    ensures
        fd_lookup(m.update(i, (fd, a)), other) == (if other == fd {
            Some(a)
        } else {
            fd_lookup(m, other)
        }),
    decreases m.len(),
{
    let m2 = m.update(i, (fd, a));
    if m.len() > 0 {
        if i == 0 {
            assert(m2.first() == (fd, a));
            if other != fd {
                assert(m2.drop_first() =~= m.drop_first());
            }
        } else {
            assert(m2.first() == m.first());
            assert(m2.drop_first() =~= m.drop_first().update(i - 1, (fd, a)));
            lemma_fd_update_inner(m.drop_first(), i - 1, fd, a, other);
        }
    }
}

/// Appending an entry for a fresh descriptor finds that entry.
proof fn lemma_fd_push(m: Seq<(u32, FdActionModel)>, fd: u32, a: FdActionModel)
    requires
        forall|t: int| 0 <= t < m.len() ==> (#[trigger] m[t]).0 != fd,
    ensures
        fd_lookup(m.push((fd, a)), fd) == Some(a),
        fd_wf(m) ==> fd_wf(m.push((fd, a))),
    decreases m.len(),
{
    let m2 = m.push((fd, a));
    if m.len() == 0 {
        assert(m2.first() == (fd, a));
    } else {
        assert(m2.first() == m.first());
        assert(m2.drop_first() =~= m.drop_first().push((fd, a)));
        lemma_fd_push(m.drop_first(), fd, a);
    }
    if fd_wf(m) {
        assert forall|i: int, j: int|
            0 <= i < j < m2.len() implies (#[trigger] m2[i]).0 != (#[trigger] m2[j]).0 by {
            if j < m.len() {
            } else {
                assert(m2[j].0 == fd);
                assert(m2[i].0 == m[i].0);
            }
        }
    }
}

/// Appending an entry leaves every other descriptor's lookup alone.
proof fn lemma_fd_push_other(
    m: Seq<(u32, FdActionModel)>,
    fd: u32,
    a: FdActionModel,
    other: u32,
)
    requires
        other != fd,
    ensures
        fd_lookup(m.push((fd, a)), other) == fd_lookup(m, other),
    decreases m.len(),
{
    let m2 = m.push((fd, a));
    if m.len() == 0 {
        assert(m2.first() == (fd, a));
        assert(m2.drop_first() =~= Seq::<(u32, FdActionModel)>::empty());
        assert(fd_lookup(m2.drop_first(), other) is None);
    } else {
        assert(m2.first() == m.first());
        assert(m2.drop_first() =~= m.drop_first().push((fd, a)));
        lemma_fd_push_other(m.drop_first(), fd, a, other);
    }
}

} // verus!

verus! {

use crate::command::FunctionDefinition;
use crate::environment::Variable;

/// The interpreter's state: variables, functions, the descriptor
/// table, the control-flow signal and the bookkeeping counters.
pub struct Shell {
    pub environment: Environment,
    pub opened_files: FdTable,
    pub functions: Vec<(String, std::rc::Rc<CompoundCommand>)>,
    pub control_flow_state: ControlFlowState,
    pub loop_depth: u32,
    pub function_call_depth: u32,
    pub dot_script_depth: u32,
    pub last_pipeline_exit_status: i32,
    pub last_command_substitution_status: i32,
    pub noclobber: bool,
    pub shell_pid: i32,
    pub most_recent_background_command_pid: i32,
    pub current_directory: String,
}

/// A well-formed shell: its variable names and descriptor table are
/// free of duplicates.
pub open spec fn shell_wf(s: Shell) -> bool {
    &&& crate::environment::env_wf(s.environment@)
    &&& fd_wf(s.opened_files@)
}

impl Shell {
    /// A fresh shell with nothing set.
    pub fn new() -> (r: Shell)
        ensures
            shell_wf(r),
            r.control_flow_state == ControlFlowState::Running,
            r.loop_depth == 0,
            r.function_call_depth == 0,
            r.dot_script_depth == 0,
            r.last_pipeline_exit_status == 0,
            !r.noclobber,
            r.environment@ == Seq::<(Seq<char>, crate::environment::VarModel)>::empty(),
    {
        Shell {
            environment: Environment::new(),
            opened_files: FdTable::new(),
            functions: Vec::new(),
            control_flow_state: ControlFlowState::Running,
            loop_depth: 0,
            function_call_depth: 0,
            dot_script_depth: 0,
            last_pipeline_exit_status: 0,
            last_command_substitution_status: 0,
            noclobber: false,
            shell_pid: 0,
            most_recent_background_command_pid: 0,
            current_directory: "/".to_owned(),
        }
    }
}

/// The outside world: processes, the filesystem and the parser.  The
/// interpreter assumes nothing about any of these calls; whatever they
/// return, its own bookkeeping stays correct.
pub trait Host {
    /// Runs an external executable with the given arguments, exported
    /// environment and descriptor table, and reports its exit status.
    fn run_external(
        &mut self,
        path: &String,
        args: &Vec<String>,
        env_vars: &Vec<(String, String)>,
        fds: &FdTable,
    ) -> i32;

    /// Runs a multi-stage pipeline, one process per stage, and reports
    /// each stage's exit status in order.
    fn run_pipeline_stages(&mut self, shell: &Shell, pipeline: &Pipeline) -> Vec<i32>;

    /// The filesystem entries matching a pattern, from the given
    /// directory.
    fn glob_matches(&mut self, cwd: &String, pattern: &String) -> Vec<String>;

    /// Whether a path names a regular file.
    fn is_file(&mut self, path: &String) -> bool;

    /// Parses shell text into a program, if it is syntactically whole.
    fn parse_program(&mut self, text: &String) -> Option<Program>;

    /// Launches a conjunction in the background, without waiting, and
    /// reports the spawned process id.
    fn launch_async(&mut self, shell: &Shell, conjunction: &Conjunction) -> i32;

    /// Reports a diagnostic to the standard error stream.
    fn report_error(&mut self, message: &String);
}

/// Why a redirection list could not be applied.
#[derive(Debug, Clone, Copy, PartialEq, Eq, Structural)]
pub enum RedirError {
    /// A `>&` or `<&` target that is neither a descriptor number nor
    /// `-`.
    BadDupTarget,
}

/// The descriptor a redirection kind touches when none is written:
/// standard output for the output operators, standard input otherwise.
pub open spec fn default_fd(kind: IORedirectionKind) -> u32 {
    match kind {
        IORedirectionKind::RedirectOutput => 1,
        IORedirectionKind::RedirectOutputClobber => 1,
        IORedirectionKind::RedirectOuputAppend => 1,
        IORedirectionKind::DuplicateOutput => 1,
        IORedirectionKind::RedirectInput => 0,
        IORedirectionKind::DuplicateInput => 0,
        IORedirectionKind::OpenRW => 0,
    }
}

/// Whether the operator duplicates descriptors rather than opening a
/// file.
pub open spec fn is_dup(kind: IORedirectionKind) -> bool {
    kind == IORedirectionKind::DuplicateOutput || kind == IORedirectionKind::DuplicateInput
}

/// The numeric value of an all-digit descriptor text below 2^32.
pub open spec fn dup_target_value(t: Seq<char>) -> Option<u32> {
    if t.len() > 0 && crate::cut::all_digits(t) && crate::tr::dec_val(t) < 0x1_0000_0000 {
        Some(crate::tr::dec_val(t) as u32)
    } else {
        None
    }
}

/// What one redirection resolves to: the descriptor it touches and the
/// action recorded for it, with the target word expanded.
pub open spec fn spec_resolve(
    r: Redirection,
    env: Seq<(Seq<char>, crate::environment::VarModel)>,
    noclobber: bool,
) -> Result<(u32, FdActionModel), RedirError> {
    match r.kind {
        RedirectionKind::IORedirection { kind, file } => {
            let fd = match r.file_descriptor {
                Some(n) => n,
                None => default_fd(kind),
            };
            let t = crate::expansion::spec_expand_word_to_string(file.word, true, env);
            if is_dup(kind) {
                if t == "-"@ {
                    Ok((fd, FdActionModel::Close))
                } else {
                    match dup_target_value(t) {
                        Some(n) => Ok((fd, FdActionModel::Duplicate(n))),
                        None => Err(RedirError::BadDupTarget),
                    }
                }
            } else {
                Ok((fd, FdActionModel::OpenFile(t, kind, noclobber)))
            }
        },
        RedirectionKind::HereDocument(w) => Ok(
            (0, FdActionModel::HereDoc(crate::expansion::spec_expand_word_to_string(w, true, env))),
        ),
        RedirectionKind::QuotedHereDocument(s) => Ok((0, FdActionModel::HereDoc(s@))),
    }
}

/// The action of the last redirection among the first `n` that touches
/// `fd`, when every one of them resolves.
pub open spec fn last_action_for(
    rs: Seq<Redirection>,
    n: int,
    env: Seq<(Seq<char>, crate::environment::VarModel)>,
    noclobber: bool,
    fd: u32,
) -> Option<FdActionModel>
    decreases n,
{
    if n <= 0 {
        None
    } else {
        match spec_resolve(rs[n - 1], env, noclobber) {
            Ok((f, a)) => if f == fd {
                Some(a)
            } else {
                last_action_for(rs, n - 1, env, noclobber, fd)
            },
            Err(_) => last_action_for(rs, n - 1, env, noclobber, fd),
        }
    }
}

/// Whether every one of the first `n` redirections resolves.
pub open spec fn all_resolve(
    rs: Seq<Redirection>,
    n: int,
    env: Seq<(Seq<char>, crate::environment::VarModel)>,
    noclobber: bool,
) -> bool
    decreases n,
{
    if n <= 0 {
        true
    } else {
        all_resolve(rs, n - 1, env, noclobber) && spec_resolve(rs[n - 1], env, noclobber)
            is Ok
    }
}

/// Reads an all-digit descriptor number.
fn parse_fd(cs: &Vec<char>) -> (r: Option<u32>)
    ensures
        r == dup_target_value(cs@),
{
    if cs.len() == 0 {
        return None;
    }
    let mut v: u64 = 0;
    let mut i: usize = 0;
    while i < cs.len()
        invariant
            i <= cs@.len(),
            crate::cut::all_digits(cs@.take(i as int)),
            v == crate::tr::dec_val(cs@.take(i as int)),
            v < 0x1_0000_0000,
        decreases cs@.len() - i,
    {
        let c = cs[i];
        let cv = c as u32;
        if cv < 48 || cv > 57 {
            assert(!crate::tr::spec_is_digit(cs@[i as int]));
            assert(!crate::cut::all_digits(cs@));
            return None;
        }
        proof {
            assert(cs@.take(i + 1 as int).drop_last() =~= cs@.take(i as int));
            assert(cs@.take(i + 1 as int).last() == cs@[i as int]);
        }
        let v2: u64 = v * 10 + (cv - 48) as u64;
        if v2 >= 0x1_0000_0000 {
            proof {
                crate::tr::lemma_val_prefix_le(cs@, i + 1 as int);
            }
            return None;
        }
        v = v2;
        assert(crate::cut::all_digits(cs@.take(i + 1 as int)));
        i = i + 1;
    }
    assert(cs@.take(cs@.len() as int) =~= cs@);
    Some(v as u32)
}

/// Resolves one redirection against the environment.
fn resolve_redirection(r: &Redirection, env: &Environment, noclobber: bool) -> (res: Result<
    (u32, FdAction),
    RedirError,
>)
    ensures
        match res {
            Ok(p) => spec_resolve(*r, env@, noclobber) == Ok::<
                (u32, FdActionModel),
                RedirError,
            >(fd_entry_model(p)),
            Err(e) => spec_resolve(*r, env@, noclobber) == Err::<
                (u32, FdActionModel),
                RedirError,
            >(e),
        },
{
    match &r.kind {
        RedirectionKind::IORedirection { kind, file } => {
            let fd = match r.file_descriptor {
                Some(n) => n,
                None => {
                    match kind {
                        IORedirectionKind::RedirectOutput => 1,
                        IORedirectionKind::RedirectOutputClobber => 1,
                        IORedirectionKind::RedirectOuputAppend => 1,
                        IORedirectionKind::DuplicateOutput => 1,
                        IORedirectionKind::RedirectInput => 0,
                        IORedirectionKind::DuplicateInput => 0,
                        IORedirectionKind::OpenRW => 0,
                    }
                },
            };
            let t = expand_word_to_string(&file.word, false, env);
            let dup = match kind {
                IORedirectionKind::DuplicateOutput => true,
                IORedirectionKind::DuplicateInput => true,
                _ => false,
            };
            if dup {
                if str_equal(t.as_str(), "-") {
                    Ok((fd, FdAction::Close))
                } else {
                    let cs = chars_of(t.as_str());
                    match parse_fd(&cs) {
                        Some(n) => Ok((fd, FdAction::Duplicate(n))),
                        None => Err(RedirError::BadDupTarget),
                    }
                }
            } else {
                Ok((fd, FdAction::OpenFile { path: t, kind: *kind, noclobber }))
            }
        },
        RedirectionKind::HereDocument(w) => {
            let t = expand_word_to_string(w, false, env);
            Ok((0, FdAction::HereDoc(t)))
        },
        RedirectionKind::QuotedHereDocument(s) => Ok((0, FdAction::HereDoc(s.clone()))),
    }
}

/// Applies a redirection list, in order, to the table: later entries
/// override earlier ones aimed at the same descriptor, so the table
/// reflects only the last redirection of each.  A failing entry stops
/// the walk.
pub fn apply_redirections(
    table: &mut FdTable,
    redirections: &Vec<Redirection>,
    env: &Environment,
    noclobber: bool,
) -> (r: Result<(), RedirError>)
    requires
        fd_wf(old(table)@),
    ensures
        fd_wf(final(table)@),
        r is Ok ==> all_resolve(redirections@, redirections@.len() as int, env@, noclobber)
            && (forall|fd: u32|
            fd_lookup(final(table)@, fd) == (match last_action_for(
                redirections@,
                redirections@.len() as int,
                env@,
                noclobber,
                fd,
            ) {
                Some(a) => Some(a),
                None => fd_lookup(old(table)@, fd),
            })),
        r is Err ==> !all_resolve(
            redirections@,
            redirections@.len() as int,
            env@,
            noclobber,
        ),
{
    let mut i: usize = 0;
    while i < redirections.len()
        invariant
            i <= redirections@.len(),
            fd_wf(table@),
            all_resolve(redirections@, i as int, env@, noclobber),
            forall|fd: u32|
                fd_lookup(table@, fd) == (match last_action_for(
                    redirections@,
                    i as int,
                    env@,
                    noclobber,
                    fd,
                ) {
                    Some(a) => Some(a),
                    None => fd_lookup(old(table)@, fd),
                }),
        decreases redirections@.len() - i,
    {
        match resolve_redirection(&redirections[i], env, noclobber) {
            Ok((fd, action)) => {
                let ghost am = fd_entry_model((fd, action)).1;
                table.set(fd, action);
                proof {
                    assert forall|f: u32|
                        fd_lookup(table@, f) == (match last_action_for(
                            redirections@,
                            i + 1 as int,
                            env@,
                            noclobber,
                            f,
                        ) {
                            Some(a) => Some(a),
                            None => fd_lookup(old(table)@, f),
                        }) by {}
                }
                i = i + 1;
            },
            Err(e) => {
                proof {
                    lemma_unresolved(
                        redirections@,
                        i as int,
                        redirections@.len() as int,
                        env@,
                        noclobber,
                    );
                }
                return Err(e);
            },
        }
    }
    Ok(())
}

/// A failure among the first `n` redirections is a failure among any
/// more.
proof fn lemma_unresolved(
    rs: Seq<Redirection>,
    n: int,
    m: int,
    env: Seq<(Seq<char>, crate::environment::VarModel)>,
    noclobber: bool,
)
    requires
        0 <= n < m,
        n < rs.len(),
        spec_resolve(rs[n], env, noclobber) is Err,
    ensures
        !all_resolve(rs, m, env, noclobber),
    decreases m,
{
    if n + 1 <= m {
        if m > n + 1 {
            lemma_unresolved(rs, n, m - 1, env, noclobber);
        }
    }
}

} // verus!

verus! {

use crate::control_flow::get_special_builtin_utility;
use crate::control_flow::Break;
use crate::control_flow::Continue;
use crate::control_flow::Eval;
use crate::control_flow::Return;
use crate::control_flow::SpecialBuiltin;
use crate::expansion::PartModel;
use crate::wordexp::append_model;
use crate::wordexp::split_fields;
use crate::wordexp::ExpandedWord;
use crate::wordexp::PartTag;

/// The status a pipeline reports: the last stage's status, inverted to
/// a boolean when the pipeline is negated.
pub open spec fn spec_pipeline_status(last: i32, negate: bool) -> i32 {
    if negate {
        if last == 0 {
            1
        } else {
            0
        }
    } else {
        last
    }
}

/// Applies status negation: `!` turns success into failure and any
/// failure into success; without it the status passes through.
pub fn pipeline_status(last: i32, negate: bool) -> (r: i32)
    ensures
        r == spec_pipeline_status(last, negate),
{
    if negate {
        if last == 0 {
            1
        } else {
            0
        }
    } else {
        last
    }
}

/// What one loop boundary does to the signal after a body run:
/// whether this loop stops, and the signal it passes out.  A break or
/// continue aimed at this loop is consumed; one aimed further out is
/// decremented and passed on; a return passes untouched.
pub open spec fn spec_loop_boundary(st: ControlFlowState) -> (bool, ControlFlowState) {
    match st {
        ControlFlowState::Running => (false, ControlFlowState::Running),
        ControlFlowState::Return => (true, ControlFlowState::Return),
        ControlFlowState::Break(n) => (
            true,
            if n > 1 {
                ControlFlowState::Break((n - 1) as u32)
            } else {
                ControlFlowState::Running
            },
        ),
        ControlFlowState::Continue(n) => (
            n > 1,
            if n > 1 {
                ControlFlowState::Continue((n - 1) as u32)
            } else {
                ControlFlowState::Running
            },
        ),
    }
}

/// `break 2` inside two nested loops ends both and nothing more: with
/// two loops open the builtin raises the two-level break; the inner
/// boundary stops and passes the signal out one level down; the outer
/// boundary stops and consumes it, so execution resumes after the
/// outer loop.  A plain `continue` at the same spot only skips to the
/// inner loop's next iteration.
pub proof fn law_break_two_unwinds_both_loops(loop_depth: u32)
    requires
        loop_depth >= 2,
    ensures
        crate::control_flow::spec_loop_control(
            loop_depth,
            seq![seq!['2']],
            crate::control_flow::LoopControlKind::BreakLoop,
        ) == Ok::<ControlFlowState, crate::control_flow::ControlFlowError>(
            ControlFlowState::Break(2),
        ),
        spec_loop_boundary(ControlFlowState::Break(2)) == (true, ControlFlowState::Break(1)),
        spec_loop_boundary(ControlFlowState::Break(1)) == (true, ControlFlowState::Running),
        crate::control_flow::spec_loop_control(
            loop_depth,
            Seq::empty(),
            crate::control_flow::LoopControlKind::ContinueLoop,
        ) == Ok::<ControlFlowState, crate::control_flow::ControlFlowError>(
            ControlFlowState::Continue(1),
        ),
        spec_loop_boundary(ControlFlowState::Continue(1)) == (
            false,
            ControlFlowState::Running,
        ),
{
    let two = seq!['2'];
    assert(crate::cut::all_digits(two)) by {
        assert(two[0] == '2');
        assert(crate::tr::spec_is_digit('2'));
    }
    assert(crate::tr::dec_val(two) == 2) by {
        assert(two.drop_last() =~= Seq::<char>::empty());
        assert(crate::tr::dec_val(Seq::<char>::empty()) == 0);
        assert(two.last() == '2');
        assert('2' as u32 == 50);
        assert(crate::tr::digit_val('2') == 2);
    }
    assert(crate::control_flow::spec_parse_i32(two) == Some(2i32)) by {
        assert(two.len() == 1 && two[0] != '-');
    }
}

/// The status a stage list reports: the last stage's status, or 127
/// when no stage ran at all.
pub open spec fn spec_last_status(ss: Seq<i32>) -> i32 {
    if ss.len() == 0 {
        127
    } else {
        ss.last()
    }
}

/// Picks the last stage's status out of what the host collected; an
/// empty collection reports 127.
pub fn last_status_or_127(ss: &Vec<i32>) -> (r: i32)
    ensures
        r == spec_last_status(ss@),
{
    if ss.len() == 0 {
        127
    } else {
        ss[ss.len() - 1]
    }
}

/// Whether the pipeline after an operator runs, given the status so
/// far: after `&&` only success goes on, after `||` only failure, and
/// a plain sequence always goes on.
pub open spec fn spec_runs_next(status: i32, prev_op: LogicalOp) -> bool {
    match prev_op {
        LogicalOp::And => status == 0,
        LogicalOp::Or => status != 0,
        LogicalOp::End => true,
    }
}

/// The short-circuit decision of a conjunction: whether the next
/// pipeline runs or is skipped with the status kept.
pub fn runs_next(status: i32, prev_op: LogicalOp) -> (r: bool)
    ensures
        r == spec_runs_next(status, prev_op),
{
    match prev_op {
        LogicalOp::And => status == 0,
        LogicalOp::Or => status != 0,
        LogicalOp::End => true,
    }
}

/// What pathname expansion yields for one field: the matches when the
/// filesystem offered any, the field itself otherwise.
pub open spec fn spec_pathname_expand(field: String, matches: Seq<String>) -> Seq<String> {
    if matches.len() == 0 {
        seq![field]
    } else {
        matches
    }
}

/// What pathname expansion makes of one field, given what the
/// filesystem matched: the matches when there are any, the field
/// itself, untouched, when there are none.  It never fails.
pub fn pathname_expand_field(field: String, matches: Vec<String>) -> (r: Vec<String>)
    ensures
        r@ == spec_pathname_expand(field, matches@),
{
    if matches.len() == 0 {
        let mut r: Vec<String> = Vec::new();
        r.push(field);
        assert(r@ =~= seq![field]);
        r
    } else {
        matches
    }
}

/// Re-running pathname expansion on a pattern that matched nothing is
/// idempotent: with no filesystem matches the field comes back as the
/// one result, and expanding that result again, still with no
/// matches, changes nothing; no input makes it fail.
pub proof fn law_pathname_expansion_idempotent(field: String)
    ensures
        spec_pathname_expand(field, Seq::empty()) == seq![field],
        spec_pathname_expand(
            spec_pathname_expand(field, Seq::empty())[0],
            Seq::empty(),
        ) == spec_pathname_expand(field, Seq::empty()),
{
    assert(spec_pathname_expand(field, Seq::empty()) == seq![field]);
    assert(seq![field][0] == field);
}

/// Whether a field asks for pathname expansion: some part of it that
/// did not come from quoted text holds `*`, `?` or `[`.  Quoted text
/// never turns into a pattern.
pub open spec fn spec_field_has_pattern(m: Seq<(PartTag, Seq<char>)>) -> bool {
    exists|k: int|
        0 <= k < m.len() && (#[trigger] m[k]).0 != PartTag::Quoted && (m[k].1.contains('*')
            || m[k].1.contains('?') || m[k].1.contains('['))
}

/// Decides whether a field is a pattern, looking only at its unquoted
/// parts.
pub fn field_has_pattern(w: &crate::wordexp::ExpandedWord) -> (r: bool)
    ensures
        r == spec_field_has_pattern(w@),
{
    let mut k: usize = 0;
    while k < w.parts.len()
        invariant
            k <= w.parts@.len(),
            forall|t: int|
                0 <= t < k ==> !((#[trigger] w@[t]).0 != PartTag::Quoted && (w@[t].1.contains(
                    '*',
                ) || w@[t].1.contains('?') || w@[t].1.contains('['))),
        decreases w.parts@.len() - k,
    {
        proof {
            assert(w@[k as int] == crate::wordexp::part_model(w.parts@[k as int]));
        }
        let quoted = matches!(
            crate::wordexp::part_tag(&w.parts[k]),
            PartTag::Quoted
        );
        if !quoted {
            let text = crate::wordexp::part_text_pub(&w.parts[k]);
            let cs = crate::strings::chars_of(text.as_str());
            let a = crate::strings::vec_contains_char(&cs, '*');
            let b = crate::strings::vec_contains_char(&cs, '?');
            let c = crate::strings::vec_contains_char(&cs, '[');
            if a || b || c {
                return true;
            }
        }
        k = k + 1;
    }
    false
}

/// The separator set the environment prescribes: the value of `IFS`
/// when it is set.
pub open spec fn spec_env_ifs(
    env: Seq<(Seq<char>, crate::environment::VarModel)>,
) -> Option<Seq<char>> {
    match crate::environment::spec_lookup(env, "IFS"@) {
        Some(vm) => Some(vm.value),
        None => None,
    }
}

/// The fields a command word expands to: tilde rewrite, parameter
/// expansion, then field splitting by `IFS`.
pub open spec fn spec_word_fields(
    w: crate::command::Word,
    env: Seq<(Seq<char>, crate::environment::VarModel)>,
) -> Seq<Seq<(PartTag, Seq<char>)>> {
    let m = crate::expansion::tilde_rewritten(crate::expansion::word_model(w), env);
    crate::wordexp::spec_split_fields(
        built_expansion(m, m.len() as int, env),
        spec_env_ifs(env),
    )
}

/// Whether no field of any of the words is a pattern: every field of
/// every word is free of unquoted pattern characters.
pub open spec fn spec_words_all_literal(
    words: Seq<crate::command::WordPair>,
    env: Seq<(Seq<char>, crate::environment::VarModel)>,
) -> bool {
    forall|w: int, k: int|
        0 <= w < words.len() && 0 <= k < spec_word_fields(
            (#[trigger] words[w]).word,
            env,
        ).len() ==> !spec_field_has_pattern(#[trigger] spec_word_fields(words[w].word, env)[k])
}

/// The argument texts the words contribute, in order: each word's
/// field texts, concatenated over the first `n` words.
pub open spec fn spec_stage_args(
    words: Seq<crate::command::WordPair>,
    env: Seq<(Seq<char>, crate::environment::VarModel)>,
    n: int,
) -> Seq<Seq<char>>
    decreases n,
{
    if n <= 0 {
        Seq::empty()
    } else {
        spec_stage_args(words, env, n - 1) + spec_word_fields(words[n - 1].word, env).map(
            |k: int, f: Seq<(PartTag, Seq<char>)>| crate::wordexp::joined_text(f),
        )
    }
}

/// The expanded-word model a parsed word builds: each part appended
/// with its quoting, parameters expanded from the environment and
/// marked as generated.
pub open spec fn built_expansion(
    m: Seq<PartModel>,
    n: int,
    env: Seq<(Seq<char>, crate::environment::VarModel)>,
) -> Seq<(PartTag, Seq<char>)>
    decreases n,
{
    if n <= 0 {
        Seq::empty()
    } else {
        let prev = built_expansion(m, n - 1, env);
        match m[n - 1] {
            PartModel::Unquoted(s) => append_model(prev, s, false, false),
            PartModel::Quoted(s) => append_model(prev, s, true, false),
            PartModel::Param(name, dq) => append_model(
                prev,
                crate::expansion::param_value(env, name),
                dq,
                true,
            ),
        }
    }
}

impl Shell {
    /// The fields a command word expands to: tilde rewrite, parameter
    /// expansion, then field splitting by `IFS`; pathname expansion is
    /// the caller's next step.
    pub fn expand_word_fields(&self, word: &crate::command::Word) -> (r: Vec<ExpandedWord>)
        ensures
            crate::wordexp::words_model(r@) == spec_word_fields(*word, self.environment@),
    {
        let ghost m = crate::expansion::tilde_rewritten(
            crate::expansion::word_model(*word),
            self.environment@,
        );
        let mut ew = ExpandedWord { parts: Vec::new() };
        assert(ew@ =~= Seq::<(PartTag, Seq<char>)>::empty());
        let mut i: usize = 0;
        let tilde_start = crate::expansion::word_starts_with_tilde_pub(word);
        if tilde_start {
            let home = match self.environment.get_value("HOME") {
                Some(v) => v,
                None => String::new(),
            };
            let mut first_text = home;
            match &word.parts[0] {
                crate::command::WordPart::UnquotedLiteral(s) => {
                    let cs = crate::strings::chars_of(s.as_str());
                    let rest = crate::strings::string_of_range(&cs, 1, cs.len());
                    first_text.append(rest.as_str());
                    proof {
                        assert(cs@.subrange(1, cs@.len() as int) =~= s@.skip(1));
                    }
                },
                _ => {
                    proof {
                        assert(false);
                    }
                },
            }
            ew.append(first_text.as_str(), false, false);
            i = 1;
            proof {
                assert(crate::expansion::word_model(*word)[0] == crate::expansion::part_model(
                    word.parts@[0],
                ));
                assert(built_expansion(m, 0, self.environment@) == Seq::<(
                    PartTag,
                    Seq<char>,
                )>::empty());
                assert(m[0] == PartModel::Unquoted(
                    crate::expansion::param_value(self.environment@, "HOME"@)
                        + crate::expansion::word_model(*word)[0]->Unquoted_0.skip(1),
                ));
                assert(ew@ == built_expansion(m, 1, self.environment@));
            }
        } else {
            assert(ew@ == built_expansion(m, 0, self.environment@));
        }
        while i < word.parts.len()
            invariant
                i <= word.parts@.len(),
                m == crate::expansion::tilde_rewritten(
                    crate::expansion::word_model(*word),
                    self.environment@,
                ),
                m.len() == word.parts@.len(),
                i == 0 ==> !crate::expansion::tilde_applies(
                    crate::expansion::word_model(*word),
                ),
                !crate::expansion::tilde_applies(crate::expansion::word_model(*word)) ==> m
                    == crate::expansion::word_model(*word),
                forall|t: int|
                    1 <= t < m.len() ==> m[t] == crate::expansion::part_model(
                        #[trigger] word.parts@[t],
                    ),
                ew@ == built_expansion(m, i as int, self.environment@),
            decreases word.parts@.len() - i,
        {
            proof {
                if i == 0 {
                    assert(m[0] == crate::expansion::part_model(word.parts@[0]));
                }
            }
            match &word.parts[i] {
                crate::command::WordPart::UnquotedLiteral(s) => {
                    ew.append(s.as_str(), false, false);
                },
                crate::command::WordPart::QuotedLiteral(s) => {
                    ew.append(s.as_str(), true, false);
                },
                crate::command::WordPart::ParameterExpansion { name, inside_double_quotes } => {
                    let v = match self.environment.get_value(name.as_str()) {
                        Some(v) => v,
                        None => String::new(),
                    };
                    ew.append(v.as_str(), *inside_double_quotes, true);
                },
            }
            i = i + 1;
        }
        let ifs = self.environment.get_value("IFS");
        match ifs {
            Some(v) => split_fields(ew, Some(v.as_str())),
            None => split_fields(ew, None),
        }
    }
}

} // verus!

verus! {

use crate::command::Word;
use crate::strings::rc_clone;

/// The environment after the first `n` assignments are applied in
/// order: each value is expanded against the environment the earlier
/// ones built and bound unexported; a read-only variable fails the
/// whole walk.
pub open spec fn spec_assignments_applied(
    m: Seq<(Seq<char>, crate::environment::VarModel)>,
    assigns: Seq<crate::command::Assignment>,
    n: int,
) -> Result<Seq<(Seq<char>, crate::environment::VarModel)>, ()>
    decreases n,
{
    if n <= 0 {
        Ok(m)
    } else {
        match spec_assignments_applied(m, assigns, n - 1) {
            Err(e) => Err(e),
            Ok(m2) => {
                let a = assigns[n - 1];
                let value = crate::expansion::spec_expand_word_to_string(
                    a.value.word,
                    true,
                    m2,
                );
                if crate::environment::spec_lookup(m2, a.name@) matches Some(vm)
                    && vm.readonly {
                    Err(())
                } else {
                    Ok(
                        crate::environment::env_set_model(
                            m2,
                            a.name@,
                            crate::environment::VarModel {
                                value,
                                export: false,
                                readonly: false,
                            },
                        ),
                    )
                }
            },
        }
    }
}

/// A failed assignment stays failed however many more follow.
proof fn lemma_assignments_err(
    m: Seq<(Seq<char>, crate::environment::VarModel)>,
    assigns: Seq<crate::command::Assignment>,
    n: int,
    k: int,
)
    requires
        0 <= n <= k,
        spec_assignments_applied(m, assigns, n) is Err,
    ensures
        spec_assignments_applied(m, assigns, k) is Err,
    decreases k - n,
{
    if n < k {
        lemma_assignments_err(m, assigns, n + 1, k);
    }
}

/// A command that is nothing but assignments: no words and no
/// redirections.
pub open spec fn bare_assignment_command(c: Command) -> bool {
    &&& c.type_ matches CommandType::SimpleCommand(sc)
    &&& c.type_->SimpleCommand_0.words@.len() == 0
    &&& c.type_->SimpleCommand_0.redirections@.len() == 0
}

/// The assignments of a simple command node.
pub open spec fn command_assignments(c: Command) -> Seq<crate::command::Assignment> {
    c.type_->SimpleCommand_0.assignments@
}

/// A complete command that is one synchronous, unnegated,
/// single-stage pipeline holding one bare-assignment command.
pub open spec fn bare_assignment_complete(cc: CompleteCommand) -> bool {
    &&& cc.commands.tail@.len() == 0
    &&& !cc.commands.head.is_async
    &&& cc.commands.head.elements.tail@.len() == 0
    &&& !cc.commands.head.elements.head.0.negate_status
    &&& cc.commands.head.elements.head.0.commands.tail@.len() == 0
    &&& bare_assignment_command(cc.commands.head.elements.head.0.commands.head)
}

/// The assignments of such a complete command.
pub open spec fn complete_assignments(cc: CompleteCommand) -> Seq<crate::command::Assignment> {
    command_assignments(cc.commands.head.elements.head.0.commands.head)
}

/// Whether some pattern of a case item, expanded against the
/// environment, equals the value exactly.
pub open spec fn spec_case_matches(
    item: crate::command::CaseItem,
    value: Seq<char>,
    env: Seq<(Seq<char>, crate::environment::VarModel)>,
) -> bool {
    ||| crate::expansion::spec_expand_word_to_string(item.pattern.head.word, true, env)
        == value
    ||| exists|k: int|
        0 <= k < item.pattern.tail@.len() && crate::expansion::spec_expand_word_to_string(
            (#[trigger] item.pattern.tail@[k]).word,
            true,
            env,
        ) == value
}

/// The four special-builtin names the dispatcher knows.
pub open spec fn spec_special_name(name: Seq<char>) -> bool {
    name == "break"@ || name == "continue"@ || name == "return"@ || name == "eval"@
}

/// Whether a function of that name is defined.
pub open spec fn spec_function_defined(
    fs: Seq<(String, std::rc::Rc<CompoundCommand>)>,
    name: Seq<char>,
) -> bool {
    exists|k: int| 0 <= k < fs.len() && (#[trigger] fs[k]).0@ == name
}

/// The status of a command no dispatch class claimed: a diagnostic
/// naming it goes to standard error and the status is 127, the shell
/// itself carrying on.
pub fn not_found_status<H: Host>(host: &mut H, name: &String) -> (r: i32)
    ensures
        r == 127,
{
    let mut msg = name.clone();
    msg.append(": command not found");
    host.report_error(&msg);
    127
}

/// Whether a name carries a slash, and so names its executable
/// directly instead of asking for a path search.
pub fn has_slash(s: &str) -> (r: bool)
    ensures
        r == s@.contains('/'),
{
    let cs = chars_of(s);
    crate::strings::vec_contains_char(&cs, '/')
}

impl Shell {
    /// Expands one command word to its final argument strings: fields,
    /// then pathname expansion through the host for fields whose
    /// unquoted text carries pattern characters, a field with no
    /// matches passing unchanged.  A word none of whose fields is a
    /// pattern — quoted pattern characters never count — asks the
    /// filesystem nothing: its arguments are exactly its field texts,
    /// in order.
    fn expand_word_args<H: Host>(&self, host: &mut H, word: &Word) -> (r: Vec<String>)
        ensures
            (forall|k: int|
                0 <= k < spec_word_fields(*word, self.environment@).len()
                    ==> !spec_field_has_pattern(
                    #[trigger] spec_word_fields(*word, self.environment@)[k],
                )) ==> crate::pattern::strs_model(r@) == spec_word_fields(
                *word,
                self.environment@,
            ).map(|k: int, f: Seq<(PartTag, Seq<char>)>| crate::wordexp::joined_text(f)),
    {
        let ghost sw = spec_word_fields(*word, self.environment@);
        let ghost texts = sw.map(
            |k: int, f: Seq<(PartTag, Seq<char>)>| crate::wordexp::joined_text(f),
        );
        let fields = self.expand_word_fields(word);
        proof {
            assert(crate::wordexp::words_model(fields@).len() == fields@.len());
        }
        let mut out: Vec<String> = Vec::new();
        let mut i: usize = 0;
        proof {
            assert(crate::pattern::strs_model(out@) =~= texts.take(0));
        }
        while i < fields.len()
            invariant
                i <= fields@.len(),
                sw == spec_word_fields(*word, self.environment@),
                texts == sw.map(
                    |k: int, f: Seq<(PartTag, Seq<char>)>| crate::wordexp::joined_text(f),
                ),
                crate::wordexp::words_model(fields@) == sw,
                sw.len() == fields@.len(),
                (forall|k: int|
                    0 <= k < sw.len() ==> !spec_field_has_pattern(#[trigger] sw[k]))
                    ==> crate::pattern::strs_model(out@) == texts.take(i as int),
            decreases fields@.len() - i,
        {
            proof {
                assert(fields@[i as int]@ == sw[i as int]);
            }
            let is_pattern = field_has_pattern(&fields[i]);
            let text = fields[i].to_string();
            let ghost om = crate::pattern::strs_model(out@);
            if is_pattern {
                let matches = host.glob_matches(&self.current_directory, &text);
                let expanded = pathname_expand_field(text, matches);
                let mut j: usize = 0;
                while j < expanded.len()
                    invariant
                        j <= expanded@.len(),
                    decreases expanded@.len() - j,
                {
                    out.push(expanded[j].clone());
                    j = j + 1;
                }
            } else {
                out.push(text);
                proof {
                    assert(crate::pattern::strs_model(out@) =~= om.push(
                        crate::wordexp::joined_text(sw[i as int]),
                    ));
                    assert(texts[i as int] == crate::wordexp::joined_text(sw[i as int]));
                    assert(texts.take(i + 1 as int) =~= texts.take(i as int).push(
                        texts[i as int],
                    ));
                }
            }
            i = i + 1;
        }
        proof {
            assert(texts.take(sw.len() as int) =~= texts);
        }
        out
    }

    /// Expands a simple command's words to the argument strings one
    /// pipeline stage executes: fields, then pathname expansion
    /// through the host, in word order.  When no field of any word is
    /// a pattern, the result is exactly the field texts of the words
    /// in order, the filesystem never asked.
    pub fn expand_words_for_exec<H: Host>(
        &self,
        host: &mut H,
        words: &Vec<crate::command::WordPair>,
    ) -> (r: Vec<String>)
        ensures
            spec_words_all_literal(words@, self.environment@)
                ==> crate::pattern::strs_model(r@) == spec_stage_args(
                words@,
                self.environment@,
                words@.len() as int,
            ),
    {
        let ghost env = self.environment@;
        let mut out: Vec<String> = Vec::new();
        let mut wi: usize = 0;
        proof {
            assert(crate::pattern::strs_model(out@) =~= Seq::<Seq<char>>::empty());
        }
        while wi < words.len()
            invariant
                wi <= words@.len(),
                env == self.environment@,
                spec_words_all_literal(words@, env) ==> crate::pattern::strs_model(out@)
                    == spec_stage_args(words@, env, wi as int),
            decreases words@.len() - wi,
        {
            let ghost pre = crate::pattern::strs_model(out@);
            let ghost wtexts = spec_word_fields(words@[wi as int].word, env).map(
                |k: int, f: Seq<(PartTag, Seq<char>)>| crate::wordexp::joined_text(f),
            );
            let args = self.expand_word_args(host, &words[wi].word);
            let mut k: usize = 0;
            while k < args.len()
                invariant
                    k <= args@.len(),
                    env == self.environment@,
                    spec_words_all_literal(words@, env) ==> crate::pattern::strs_model(
                        args@,
                    ) == wtexts && crate::pattern::strs_model(out@) == pre + wtexts.take(
                        k as int,
                    ),
                decreases args@.len() - k,
            {
                let ghost om2 = crate::pattern::strs_model(out@);
                out.push(args[k].clone());
                proof {
                    assert(crate::pattern::strs_model(out@) =~= om2.push(args@[k as int]@));
                    if spec_words_all_literal(words@, env) {
                        assert(crate::pattern::strs_model(args@)[k as int]
                            == args@[k as int]@);
                        assert(wtexts.take(k + 1 as int) =~= wtexts.take(k as int).push(
                            wtexts[k as int],
                        ));
                        assert(crate::pattern::strs_model(out@) =~= pre + wtexts.take(
                            k + 1 as int,
                        ));
                    }
                }
                k = k + 1;
            }
            proof {
                if spec_words_all_literal(words@, env) {
                    assert(wtexts.take(args@.len() as int) =~= wtexts);
                }
            }
            wi = wi + 1;
        }
        out
    }

    /// Applies the leading assignments of a simple command to this
    /// environment, in order, each value expanded against the
    /// environment the earlier assignments built; a read-only variable
    /// stops the walk.
    fn perform_assignments(&mut self, assignments: &Vec<crate::command::Assignment>) -> (r:
        Result<(), crate::environment::EnvError>)
        requires
            shell_wf(*old(self)),
        ensures
            shell_wf(*final(self)),
            final(self).loop_depth == old(self).loop_depth,
            final(self).function_call_depth == old(self).function_call_depth,
            final(self).control_flow_state == old(self).control_flow_state,
            final(self).opened_files == old(self).opened_files,
            final(self).dot_script_depth == old(self).dot_script_depth,
            final(self).functions == old(self).functions,
            final(self).noclobber == old(self).noclobber,
            final(self).last_command_substitution_status == old(self).last_command_substitution_status,
            r is Ok ==> spec_assignments_applied(
                old(self).environment@,
                assignments@,
                assignments@.len() as int,
            ) == Ok::<Seq<(Seq<char>, crate::environment::VarModel)>, ()>(
                final(self).environment@,
            ),
            r is Err ==> spec_assignments_applied(
                old(self).environment@,
                assignments@,
                assignments@.len() as int,
            ) is Err,
    {
        let mut i: usize = 0;
        while i < assignments.len()
            invariant
                i <= assignments@.len(),
                shell_wf(*self),
                self.loop_depth == old(self).loop_depth,
                self.function_call_depth == old(self).function_call_depth,
                self.control_flow_state == old(self).control_flow_state,
                self.opened_files == old(self).opened_files,
                self.dot_script_depth == old(self).dot_script_depth,
                self.functions == old(self).functions,
                self.noclobber == old(self).noclobber,
                self.last_command_substitution_status == old(self).last_command_substitution_status,
                spec_assignments_applied(old(self).environment@, assignments@, i as int)
                    == Ok::<Seq<(Seq<char>, crate::environment::VarModel)>, ()>(
                    self.environment@,
                ),
            decreases assignments@.len() - i,
        {
            let value = expand_word_to_string(
                &assignments[i].value.word,
                true,
                &self.environment,
            );
            match self.environment.set(assignments[i].name.as_str(), value, false) {
                Ok(()) => {},
                Err(e) => {
                    proof {
                        lemma_assignments_err(
                            old(self).environment@,
                            assignments@,
                            i + 1 as int,
                            assignments@.len() as int,
                        );
                    }
                    return Err(e);
                },
            }
            i = i + 1;
        }
        Ok(())
    }

    /// The function a name denotes, if one is defined.
    fn find_function(&self, name: &str) -> (r: Option<std::rc::Rc<CompoundCommand>>)
        ensures
            r is Some <==> spec_function_defined(self.functions@, name@),
    {
        let mut i: usize = 0;
        while i < self.functions.len()
            invariant
                i <= self.functions@.len(),
                forall|t: int| 0 <= t < i ==> (#[trigger] self.functions@[t]).0@ != name@,
            decreases self.functions@.len() - i,
        {
            if str_equal(self.functions[i].0.as_str(), name) {
                assert(self.functions@[i as int].0@ == name@);
                return Some(rc_clone(&self.functions[i].1));
            }
            i = i + 1;
        }
        None
    }

    /// Defines or replaces a function.
    fn define_function(&mut self, name: String, body: std::rc::Rc<CompoundCommand>)
        ensures
            final(self).environment == old(self).environment,
            final(self).loop_depth == old(self).loop_depth,
            final(self).function_call_depth == old(self).function_call_depth,
            final(self).control_flow_state == old(self).control_flow_state,
            final(self).opened_files == old(self).opened_files,
    {
        let mut i: usize = 0;
        while i < self.functions.len()
            invariant
                i <= self.functions@.len(),
                self.environment == old(self).environment,
                self.loop_depth == old(self).loop_depth,
                self.function_call_depth == old(self).function_call_depth,
                self.control_flow_state == old(self).control_flow_state,
                self.opened_files == old(self).opened_files,
            decreases self.functions@.len() - i,
        {
            if str_equal(self.functions[i].0.as_str(), name.as_str()) {
                self.functions.set(i, (name, body));
                return ;
            }
            i = i + 1;
        }
        self.functions.push((name, body));
    }

    /// The search-path hit for a command name: the first `dir/name`
    /// the host says is a regular file, scanning the colon-separated
    /// path left to right.  Whatever the host answers, a hit is one of
    /// the path's own segments joined with the command.
    pub fn find_in_path<H: Host>(
        &self,
        host: &mut H,
        command: &str,
        env_path: &str,
    ) -> (r: Option<String>)
        ensures
            r matches Some(p) ==> spec_path_candidate(p@, env_path@, command@),
    {
        let cs = chars_of(env_path);
        let mut start: usize = 0;
        let mut i: usize = 0;
        let n = cs.len();
        while i < n
            invariant
                start <= i <= n,
                n == cs@.len(),
                cs@ == env_path@,
                start == 0 || cs@[start - 1] == ':',
            decreases n - i,
        {
            if cs[i] == ':' {
                match try_path_candidate(host, &cs, start, i, command) {
                    Some(p) => {
                        proof {
                            assert(p@ == env_path@.subrange(start as int, i as int) + "/"@
                                + command@);
                            assert(spec_path_candidate(p@, env_path@, command@));
                        }
                        return Some(p);
                    },
                    None => {},
                }
                start = i + 1;
            }
            i = i + 1;
        }
        match try_path_candidate(host, &cs, start, n, command) {
            Some(p) => {
                proof {
                    assert(p@ == env_path@.subrange(start as int, n as int) + "/"@
                        + command@);
                    assert(spec_path_candidate(p@, env_path@, command@));
                }
                Some(p)
            },
            None => None,
        }
    }

    /// Runs one simple command: expands the words, then dispatches on
    /// them.  When every word is free of patterns the dispatch
    /// contract applies verbatim to the spec-level expansion, so a
    /// command that expands to nothing persists its assignments here.
    #[verifier::loop_isolation(false)]
    fn interpret_simple_command<H: Host>(
        &mut self,
        host: &mut H,
        sc: &SimpleCommand,
        fuel: u64,
    ) -> (r: i32)
        requires
            shell_wf(*old(self)),
        ensures
            shell_wf(*final(self)),
            final(self).loop_depth == old(self).loop_depth,
            final(self).function_call_depth == old(self).function_call_depth,
            spec_words_all_literal(sc.words@, old(self).environment@) && spec_stage_args(
                sc.words@,
                old(self).environment@,
                sc.words@.len() as int,
            ).len() == 0 ==> match spec_assignments_applied(
                old(self).environment@,
                sc.assignments@,
                sc.assignments@.len() as int,
            ) {
                Ok(e) => final(self).environment@ == e && final(self).opened_files == old(self).opened_files && r == (if all_resolve(
                    sc.redirections@,
                    sc.redirections@.len() as int,
                    e,
                    old(self).noclobber,
                ) {
                    0i32
                } else {
                    1i32
                }),
                Err(_) => r == 1,
            },
        decreases fuel, sc, 1int,
    {
        self.last_command_substitution_status = 0;
        let expanded_words = self.expand_words_for_exec(host, &sc.words);
        proof {
            if spec_words_all_literal(sc.words@, self.environment@) {
                assert(crate::pattern::strs_model(expanded_words@).len()
                    == expanded_words@.len());
            }
        }
        self.dispatch_simple_command(host, sc, &expanded_words, fuel)
    }

    /// Dispatches one simple command on its already-expanded words:
    /// nothing expanded persists the assignments; `break`, `continue`
    /// and `return` apply assignments and redirections to this shell
    /// and raise their signal exactly; a word that is neither a
    /// special builtin nor a defined function leaves this shell's
    /// environment, descriptor table and signal untouched, whatever
    /// the external world answers.
    #[verifier::loop_isolation(false)]
    pub fn dispatch_simple_command<H: Host>(
        &mut self,
        host: &mut H,
        sc: &SimpleCommand,
        expanded_words: &Vec<String>,
        fuel: u64,
    ) -> (r: i32)
        requires
            shell_wf(*old(self)),
        ensures
            shell_wf(*final(self)),
            final(self).loop_depth == old(self).loop_depth,
            final(self).function_call_depth == old(self).function_call_depth,
            expanded_words@.len() == 0 ==> match spec_assignments_applied(
                old(self).environment@,
                sc.assignments@,
                sc.assignments@.len() as int,
            ) {
                Ok(e) => final(self).environment@ == e && final(self).opened_files == old(self).opened_files && r == (if all_resolve(
                    sc.redirections@,
                    sc.redirections@.len() as int,
                    e,
                    old(self).noclobber,
                ) {
                    0i32
                } else {
                    1i32
                }),
                Err(_) => r == 1,
            },
            expanded_words@.len() > 0 && !spec_special_name(expanded_words@[0]@)
                && !spec_function_defined(old(self).functions@, expanded_words@[0]@) ==> final(self).environment@ == old(self).environment@ && final(self).opened_files@ == old(self).opened_files@ && final(self).control_flow_state == old(self).control_flow_state,
            expanded_words@.len() > 0 && (expanded_words@[0]@ == "break"@
                || expanded_words@[0]@ == "continue"@) ==> match spec_assignments_applied(
                old(self).environment@,
                sc.assignments@,
                sc.assignments@.len() as int,
            ) {
                Err(_) => r == 1,
                Ok(e) => final(self).environment@ == e && (if !all_resolve(
                    sc.redirections@,
                    sc.redirections@.len() as int,
                    e,
                    old(self).noclobber,
                ) {
                    r == 1
                } else {
                    match crate::control_flow::spec_loop_control(
                        old(self).loop_depth,
                        crate::pattern::strs_model(expanded_words@).skip(1),
                        if expanded_words@[0]@ == "break"@ {
                            crate::control_flow::LoopControlKind::BreakLoop
                        } else {
                            crate::control_flow::LoopControlKind::ContinueLoop
                        },
                    ) {
                        Ok(st) => r == 0 && final(self).control_flow_state == st,
                        Err(_) => r == 1 && final(self).control_flow_state == old(self).control_flow_state,
                    }
                }),
            },
            expanded_words@.len() > 0 && expanded_words@[0]@ == "return"@
                ==> match spec_assignments_applied(
                old(self).environment@,
                sc.assignments@,
                sc.assignments@.len() as int,
            ) {
                Err(_) => r == 1,
                Ok(e) => final(self).environment@ == e && (if !all_resolve(
                    sc.redirections@,
                    sc.redirections@.len() as int,
                    e,
                    old(self).noclobber,
                ) {
                    r == 1
                } else {
                    match crate::control_flow::spec_return_control(
                        old(self).function_call_depth,
                        old(self).dot_script_depth,
                        crate::pattern::strs_model(expanded_words@).skip(1),
                    ) {
                        Ok(v) => r == v && final(self).control_flow_state
                            == ControlFlowState::Return,
                        Err(_) => r == 1 && final(self).control_flow_state == old(self).control_flow_state,
                    }
                }),
            },
        decreases fuel, sc, 0int,
    {
        if expanded_words.len() == 0 {
            match self.perform_assignments(&sc.assignments) {
                Ok(()) => {},
                Err(_) => {
                    return 1;
                },
            }
            if sc.redirections.len() > 0 {
                let mut scoped = self.opened_files.snapshot();
                match apply_redirections(&mut scoped, &sc.redirections, &self.environment, self.noclobber) {
                    Ok(()) => {},
                    Err(_) => {
                        return 1;
                    },
                }
            }
            return 0;
        }
        let name = expanded_words[0].clone();
        if let Some(builtin) = get_special_builtin_utility(name.as_str()) {
            assert(spec_special_name(expanded_words@[0]@));
            match self.perform_assignments(&sc.assignments) {
                Ok(()) => {},
                Err(_) => {
                    return 1;
                },
            }
            let mut table = self.opened_files.snapshot();
            match apply_redirections(&mut table, &sc.redirections, &self.environment, self.noclobber) {
                Ok(()) => {
                    self.opened_files = table;
                },
                Err(_) => {
                    return 1;
                },
            }
            let mut args: Vec<String> = Vec::new();
            let mut k: usize = 1;
            assert(crate::pattern::strs_model(args@) =~= crate::pattern::strs_model(
                expanded_words@,
            ).subrange(1, 1));
            while k < expanded_words.len()
                invariant
                    1 <= k <= expanded_words@.len(),
                    crate::pattern::strs_model(args@) == crate::pattern::strs_model(
                        expanded_words@,
                    ).subrange(1, k as int),
                decreases expanded_words@.len() - k,
            {
                let ghost am = crate::pattern::strs_model(args@);
                args.push(expanded_words[k].clone());
                proof {
                    assert(crate::pattern::strs_model(args@) =~= am.push(
                        expanded_words@[k as int]@,
                    ));
                    assert(crate::pattern::strs_model(expanded_words@).subrange(
                        1,
                        k + 1 as int,
                    ) =~= crate::pattern::strs_model(expanded_words@).subrange(
                        1,
                        k as int,
                    ).push(crate::pattern::strs_model(expanded_words@)[k as int]));
                }
                k = k + 1;
            }
            proof {
                assert(crate::pattern::strs_model(args@) =~= crate::pattern::strs_model(
                    expanded_words@,
                ).skip(1));
                assert(args.deep_view() =~= crate::pattern::strs_model(args@));
            }
            let result: Result<i32, crate::control_flow::ControlFlowError> = match builtin {
                SpecialBuiltin::BreakBuiltin => Break.exec(&args, self),
                SpecialBuiltin::ContinueBuiltin => Continue.exec(&args, self),
                SpecialBuiltin::ReturnBuiltin => Return.exec(&args, self),
                SpecialBuiltin::EvalBuiltin => {
                    if fuel == 0 {
                        Ok(1)
                    } else {
                        let text = Eval.program_text(&args);
                        match host.parse_program(&text) {
                            Some(program) => Ok(
                                self.interpret_program(host, &program, fuel - 1),
                            ),
                            None => {
                                let msg = "eval: parsing error".to_owned();
                                host.report_error(&msg);
                                Ok(2)
                            },
                        }
                    }
                },
            };
            let status_r: i32 = match result {
                Ok(status) => status,
                Err(e) => {
                    let msg = e.message(name.as_str());
                    host.report_error(&msg);
                    1
                },
            };
            return status_r;
        }
        if let Some(body) = self.find_function(name.as_str()) {
            if fuel == 0 {
                return 1;
            }
            match self.perform_assignments(&sc.assignments) {
                Ok(()) => {},
                Err(_) => {
                    return 1;
                },
            }
            // The call's redirections live only for the call: a scoped
            // table is installed and the old one put back after.
            let mut scoped = self.opened_files.snapshot();
            match apply_redirections(&mut scoped, &sc.redirections, &self.environment, self.noclobber) {
                Ok(()) => {},
                Err(_) => {
                    return 1;
                },
            }
            let saved = self.opened_files.snapshot();
            self.opened_files = scoped;
            let bumped = self.function_call_depth < u32::MAX;
            if bumped {
                self.function_call_depth = self.function_call_depth + 1;
            }
            let empty_redirections: Vec<Redirection> = Vec::new();
            let status = self.interpret_compound(host, &body, &empty_redirections, fuel - 1);
            if bumped {
                self.function_call_depth = self.function_call_depth - 1;
            }
            self.opened_files = saved;
            // The return signal is consumed at this boundary, and a
            // loop signal escaping a function body is clamped.
            self.control_flow_state = ControlFlowState::Running;
            return status;
        }
        let mut child_env = self.environment.snapshot();
        let mut ai: usize = 0;
        while ai < sc.assignments.len()
            invariant
                ai <= sc.assignments@.len(),
                crate::environment::env_wf(child_env@),
            decreases sc.assignments@.len() - ai,
        {
            let value = expand_word_to_string(&sc.assignments[ai].value.word, true, &child_env);
            match child_env.set(sc.assignments[ai].name.as_str(), value, true) {
                Ok(()) => {},
                Err(_) => {
                    return 1;
                },
            }
            ai = ai + 1;
        }
        let mut table = self.opened_files.snapshot();
        match apply_redirections(&mut table, &sc.redirections, &child_env, self.noclobber) {
            Ok(()) => {},
            Err(_) => {
                return 1;
            },
        }
        let path = if has_slash(name.as_str()) {
            Some(name.clone())
        } else {
            let env_path = match self.environment.get_value("PATH") {
                Some(p) => p,
                None => String::new(),
            };
            self.find_in_path(host, name.as_str(), env_path.as_str())
        };
        match path {
            Some(p) => {
                let envs = child_env.exported();
                let mut args: Vec<String> = Vec::new();
                let mut k: usize = 1;
                while k < expanded_words.len()
                    invariant
                        1 <= k <= expanded_words@.len(),
                    decreases expanded_words@.len() - k,
                {
                    args.push(expanded_words[k].clone());
                    k = k + 1;
                }
                host.run_external(&p, &args, &envs, &table)
            },
            None => {
                not_found_status(host, &name)
            },
        }
    }

    /// Runs one command of any kind; a function definition installs
    /// the function and succeeds.
    #[verifier::loop_isolation(false)]
    fn interpret_command<H: Host>(&mut self, host: &mut H, cmd: &Command, fuel: u64) -> (r:
        i32)
        requires
            shell_wf(*old(self)),
        ensures
            shell_wf(*final(self)),
            final(self).loop_depth == old(self).loop_depth,
            final(self).function_call_depth == old(self).function_call_depth,
            fuel > 0 && bare_assignment_command(*cmd) ==> match spec_assignments_applied(
                old(self).environment@,
                command_assignments(*cmd),
                command_assignments(*cmd).len() as int,
            ) {
                Ok(e) => r == 0 && final(self).environment@ == e && final(self).opened_files
                    == old(self).opened_files,
                Err(_) => r == 1,
            },
        decreases fuel, cmd, 0int,
    {
        match &cmd.type_ {
            CommandType::SimpleCommand(sc) => {
                if fuel == 0 {
                    return 1;
                }
                self.interpret_simple_command(host, sc, fuel - 1)
            },
            CommandType::CompoundCommand { command, redirections } => self.interpret_compound(
                host,
                command,
                redirections,
                fuel,
            ),
            CommandType::FunctionDefinition(f) => {
                self.define_function(f.name.clone(), rc_clone(&f.body));
                0
            },
        }
    }

    /// Runs one compound command: its redirections go into a scoped
    /// table the body runs under, and the parent's table comes back
    /// afterwards whatever the body did.
    #[verifier::loop_isolation(false)]
    fn interpret_compound<H: Host>(
        &mut self,
        host: &mut H,
        cc: &CompoundCommand,
        redirections: &Vec<Redirection>,
        fuel: u64,
    ) -> (r: i32)
        requires
            shell_wf(*old(self)),
        ensures
            shell_wf(*final(self)),
            final(self).loop_depth == old(self).loop_depth,
            final(self).function_call_depth == old(self).function_call_depth,
        decreases fuel, cc, 1int,
    {
        if redirections.len() > 0 {
            let mut scoped = self.opened_files.snapshot();
            match apply_redirections(&mut scoped, redirections, &self.environment, self.noclobber) {
                Ok(()) => {},
                Err(_) => {
                    return 1;
                },
            }
            let saved = self.opened_files.snapshot();
            self.opened_files = scoped;
            let status = self.interpret_compound_body(host, cc, fuel);
            self.opened_files = saved;
            status
        } else {
            self.interpret_compound_body(host, cc, fuel)
        }
    }

    /// The body dispatch of a compound command; loops raise the
    /// open-loop count around their bodies and consume or pass on the
    /// break and continue signals by their level.
    #[verifier::loop_isolation(false)]
    fn interpret_compound_body<H: Host>(
        &mut self,
        host: &mut H,
        cc: &CompoundCommand,
        fuel: u64,
    ) -> (r: i32)
        requires
            shell_wf(*old(self)),
        ensures
            shell_wf(*final(self)),
            final(self).loop_depth == old(self).loop_depth,
            final(self).function_call_depth == old(self).function_call_depth,
        decreases fuel, cc, 0int,
    {
        match cc {
            CompoundCommand::BraceGroup(body) => self.interpret_complete_command(
                host,
                body,
                fuel,
            ),
            CompoundCommand::Subshell(body) => {
                let mut sub = Shell {
                    environment: self.environment.snapshot(),
                    opened_files: self.opened_files.snapshot(),
                    functions: clone_functions(&self.functions),
                    control_flow_state: ControlFlowState::Running,
                    loop_depth: 0,
                    function_call_depth: self.function_call_depth,
                    dot_script_depth: self.dot_script_depth,
                    last_pipeline_exit_status: self.last_pipeline_exit_status,
                    last_command_substitution_status: self.last_command_substitution_status,
                    noclobber: self.noclobber,
                    shell_pid: self.shell_pid,
                    most_recent_background_command_pid: self.most_recent_background_command_pid,
                    current_directory: self.current_directory.clone(),
                };
                sub.interpret_complete_command(host, body, fuel)
            },
            CompoundCommand::ForClause { iter_var, words, body } => {
                if self.loop_depth == u32::MAX {
                    return 1;
                }
                self.loop_depth = self.loop_depth + 1;
                let mut status: i32 = 0;
                let mut wi: usize = 0;
                let mut stopped = false;
                while !stopped && wi < words.len()
                    invariant
                        wi <= words@.len(),
                        shell_wf(*self),
                        self.loop_depth == old(self).loop_depth + 1,
                        self.function_call_depth == old(self).function_call_depth,
                    decreases words@.len() - wi,
                {
                    let fields = self.expand_word_fields(&words[wi].word);
                    let mut fi: usize = 0;
                    while !stopped && fi < fields.len()
                        invariant
                            fi <= fields@.len(),
                            shell_wf(*self),
                            self.loop_depth == old(self).loop_depth + 1,
                            self.function_call_depth == old(self).function_call_depth,
                        decreases fields@.len() - fi,
                    {
                        let value = fields[fi].to_string();
                        match self.environment.set(iter_var.as_str(), value, false) {
                            Ok(()) => {},
                            Err(_) => {
                                status = 1;
                                stopped = true;
                            },
                        }
                        if !stopped {
                            status = self.interpret_complete_command(host, body, fuel);
                            if self.check_loop_signal() {
                                stopped = true;
                            }
                        }
                        fi = fi + 1;
                    }
                    wi = wi + 1;
                }
                self.loop_depth = self.loop_depth - 1;
                status
            },
            CompoundCommand::CaseClause { arg, cases } => {
                let value = expand_word_to_string(&arg.word, false, &self.environment);
                let mut ci: usize = 0;
                while ci < cases.len()
                    invariant
                        ci <= cases@.len(),
                        shell_wf(*self),
                        self.loop_depth == old(self).loop_depth,
                        self.function_call_depth == old(self).function_call_depth,
                    decreases cases@.len() - ci,
                {
                    if self.case_item_matches(&cases[ci], value.as_str()) {
                        return self.interpret_complete_command(host, &cases[ci].body, fuel);
                    }
                    ci = ci + 1;
                }
                0
            },
            CompoundCommand::IfClause { if_chain, else_body } => {
                let cond = self.interpret_complete_command(host, &if_chain.head.condition, fuel);
                if cond == 0 {
                    return self.interpret_complete_command(host, &if_chain.head.body, fuel);
                }
                let mut bi: usize = 0;
                while bi < if_chain.tail.len()
                    invariant
                        bi <= if_chain.tail@.len(),
                        shell_wf(*self),
                        self.loop_depth == old(self).loop_depth,
                        self.function_call_depth == old(self).function_call_depth,
                    decreases if_chain.tail@.len() - bi,
                {
                    let c = self.interpret_complete_command(
                        host,
                        &if_chain.tail[bi].condition,
                        fuel,
                    );
                    if c == 0 {
                        return self.interpret_complete_command(
                            host,
                            &if_chain.tail[bi].body,
                            fuel,
                        );
                    }
                    bi = bi + 1;
                }
                match else_body {
                    Some(e) => self.interpret_complete_command(host, e, fuel),
                    None => 0,
                }
            },
            CompoundCommand::WhileClause { condition, body } => self.interpret_loop(
                host,
                condition,
                body,
                false,
                fuel,
            ),
            CompoundCommand::UntilClause { condition, body } => self.interpret_loop(
                host,
                condition,
                body,
                true,
                fuel,
            ),
        }
    }

    /// Whether any pattern of a case item, expanded to a string,
    /// equals the argument exactly.
    fn case_item_matches(&self, item: &crate::command::CaseItem, value: &str) -> (r: bool)
        ensures
            r == spec_case_matches(*item, value@, self.environment@),
    {
        let p0 = expand_word_to_string(&item.pattern.head.word, false, &self.environment);
        if str_equal(p0.as_str(), value) {
            return true;
        }
        let mut i: usize = 0;
        while i < item.pattern.tail.len()
            invariant
                i <= item.pattern.tail@.len(),
                crate::expansion::spec_expand_word_to_string(
                    item.pattern.head.word,
                    true,
                    self.environment@,
                ) != value@,
                forall|k: int|
                    0 <= k < i ==> crate::expansion::spec_expand_word_to_string(
                        (#[trigger] item.pattern.tail@[k]).word,
                        true,
                        self.environment@,
                    ) != value@,
            decreases item.pattern.tail@.len() - i,
        {
            let p = expand_word_to_string(
                &item.pattern.tail[i].word,
                false,
                &self.environment,
            );
            if str_equal(p.as_str(), value) {
                assert(crate::expansion::spec_expand_word_to_string(
                    item.pattern.tail@[i as int].word,
                    true,
                    self.environment@,
                ) == value@);
                return true;
            }
            i = i + 1;
        }
        false
    }

    /// Inspects the loop signal after one body run: consumes a break
    /// or continue aimed at this loop, decrements and passes on one
    /// aimed further out, and passes a return untouched.  True when
    /// this loop must stop.
    fn check_loop_signal(&mut self) -> (stop: bool)
        ensures
            final(self).loop_depth == old(self).loop_depth,
            final(self).function_call_depth == old(self).function_call_depth,
            final(self).environment == old(self).environment,
            final(self).opened_files == old(self).opened_files,
            (stop, final(self).control_flow_state) == spec_loop_boundary(
                old(self).control_flow_state,
            ),
    {
        match self.control_flow_state {
            ControlFlowState::Running => false,
            ControlFlowState::Return => true,
            ControlFlowState::Break(n) => {
                if n > 1 {
                    self.control_flow_state = ControlFlowState::Break(n - 1);
                } else {
                    self.control_flow_state = ControlFlowState::Running;
                }
                true
            },
            ControlFlowState::Continue(n) => {
                if n > 1 {
                    self.control_flow_state = ControlFlowState::Continue(n - 1);
                    true
                } else {
                    self.control_flow_state = ControlFlowState::Running;
                    false
                }
            },
        }
    }

    /// Runs a `while` or `until` loop: the condition, then the body
    /// while the condition keeps the loop going, with the signal
    /// checked after the condition and after every body run.
    #[verifier::loop_isolation(false)]
    fn interpret_loop<H: Host>(
        &mut self,
        host: &mut H,
        condition: &CompleteCommand,
        body: &CompleteCommand,
        until: bool,
        fuel: u64,
    ) -> (r: i32)
        requires
            shell_wf(*old(self)),
        ensures
            shell_wf(*final(self)),
            final(self).loop_depth == old(self).loop_depth,
            final(self).function_call_depth == old(self).function_call_depth,
        decreases fuel, condition, 0int,
    {
        if self.loop_depth == u32::MAX {
            return 1;
        }
        self.loop_depth = self.loop_depth + 1;
        let mut status: i32 = 0;
        let mut f = fuel;
        loop
            invariant
                shell_wf(*self),
                self.loop_depth == old(self).loop_depth + 1,
                self.function_call_depth == old(self).function_call_depth,
                f <= fuel,
            decreases f,
        {
            if f == 0 {
                status = 1;
                break;
            }
            f = f - 1;
            let c = self.interpret_complete_command(host, condition, f);
            if self.check_loop_signal() {
                break;
            }
            let run_body = if until {
                c != 0
            } else {
                c == 0
            };
            if !run_body {
                break;
            }
            status = self.interpret_complete_command(host, body, f);
            if self.check_loop_signal() {
                break;
            }
        }
        self.loop_depth = self.loop_depth - 1;
        status
    }

    /// Runs one pipeline: a single command runs in this shell; a
    /// multi-stage pipeline runs through the host, one process per
    /// stage, and reports the last stage's status; `!` negates the
    /// reported status.
    #[verifier::loop_isolation(false)]
    fn interpret_pipeline<H: Host>(&mut self, host: &mut H, p: &Pipeline, fuel: u64) -> (r:
        i32)
        requires
            shell_wf(*old(self)),
        ensures
            shell_wf(*final(self)),
            final(self).loop_depth == old(self).loop_depth,
            final(self).function_call_depth == old(self).function_call_depth,
            p.negate_status ==> r == 0 || r == 1,
            fuel > 0 && p.commands.tail@.len() == 0 && !p.negate_status
                && bare_assignment_command(p.commands.head) ==> match spec_assignments_applied(
                old(self).environment@,
                command_assignments(p.commands.head),
                command_assignments(p.commands.head).len() as int,
            ) {
                Ok(e) => r == 0 && final(self).environment@ == e && final(self).opened_files
                    == old(self).opened_files,
                Err(_) => r == 1,
            },
        decreases fuel, p, 0int,
    {
        let status: i32 = if p.commands.tail.len() == 0 {
            self.interpret_command(host, &p.commands.head, fuel)
        } else {
            let statuses = host.run_pipeline_stages(self, p);
            last_status_or_127(&statuses)
        };
        pipeline_status(status, p.negate_status)
    }

    /// Runs one conjunction left to right: after `&&` the next
    /// pipeline runs only on success, after `||` only on failure; a
    /// skipped pipeline keeps the status, so a later operator can
    /// still fire.  A raised signal stops the walk.
    #[verifier::loop_isolation(false)]
    fn interpret_conjunction<H: Host>(
        &mut self,
        host: &mut H,
        cj: &Conjunction,
        fuel: u64,
    ) -> (r: i32)
        requires
            shell_wf(*old(self)),
        ensures
            shell_wf(*final(self)),
            final(self).loop_depth == old(self).loop_depth,
            final(self).function_call_depth == old(self).function_call_depth,
            fuel > 0 && cj.elements.tail@.len() == 0 && !cj.elements.head.0.negate_status
                && cj.elements.head.0.commands.tail@.len() == 0 && bare_assignment_command(
                cj.elements.head.0.commands.head,
            ) ==> match spec_assignments_applied(
                old(self).environment@,
                command_assignments(cj.elements.head.0.commands.head),
                command_assignments(cj.elements.head.0.commands.head).len() as int,
            ) {
                Ok(e) => r == 0 && final(self).environment@ == e && final(self).opened_files
                    == old(self).opened_files,
                Err(_) => r == 1,
            },
        decreases fuel, cj, 0int,
    {
        let mut status = self.interpret_pipeline(host, &cj.elements.head.0, fuel);
        if !matches!(self.control_flow_state, ControlFlowState::Running) {
            return status;
        }
        let mut prev_op = cj.elements.head.1;
        let mut i: usize = 0;
        while i < cj.elements.tail.len()
            invariant
                i <= cj.elements.tail@.len(),
                shell_wf(*self),
                self.loop_depth == old(self).loop_depth,
                self.function_call_depth == old(self).function_call_depth,
                cj.elements.tail@.len() == 0 && fuel > 0
                    && !cj.elements.head.0.negate_status
                    && cj.elements.head.0.commands.tail@.len() == 0
                    && bare_assignment_command(cj.elements.head.0.commands.head)
                    ==> match spec_assignments_applied(
                    old(self).environment@,
                    command_assignments(cj.elements.head.0.commands.head),
                    command_assignments(cj.elements.head.0.commands.head).len() as int,
                ) {
                    Ok(e) => status == 0 && self.environment@ == e && self.opened_files
                        == old(self).opened_files,
                    Err(_) => status == 1,
                },
            decreases cj.elements.tail@.len() - i,
        {
            if runs_next(status, prev_op) {
                status = self.interpret_pipeline(host, &cj.elements.tail[i].0, fuel);
                if !matches!(self.control_flow_state, ControlFlowState::Running) {
                    return status;
                }
            }
            prev_op = cj.elements.tail[i].1;
            i = i + 1;
        }
        status
    }

    /// Runs one complete command: its conjunctions in order, recording
    /// the last status; a raised signal stops the walk so the
    /// enclosing construct can see it.
    #[verifier::loop_isolation(false)]
    fn interpret_complete_command<H: Host>(
        &mut self,
        host: &mut H,
        cc: &CompleteCommand,
        fuel: u64,
    ) -> (r: i32)
        requires
            shell_wf(*old(self)),
        ensures
            shell_wf(*final(self)),
            final(self).loop_depth == old(self).loop_depth,
            final(self).function_call_depth == old(self).function_call_depth,
            r == final(self).last_pipeline_exit_status,
            fuel > 0 && bare_assignment_complete(*cc) ==> match spec_assignments_applied(
                old(self).environment@,
                complete_assignments(*cc),
                complete_assignments(*cc).len() as int,
            ) {
                Ok(e) => r == 0 && final(self).environment@ == e && final(self).opened_files
                    == old(self).opened_files,
                Err(_) => r == 1,
            },
            cc.commands.tail@.len() == 0 && cc.commands.head.is_async ==> r == 0 && final(self).environment@ == old(self).environment@ && final(self).opened_files == old(self).opened_files,
        decreases fuel, cc, 0int,
    {
        let mut status: i32;
        if cc.commands.head.is_async {
            // An asynchronous conjunction runs without this shell
            // waiting; only the spawned process id is recorded.
            let pid = host.launch_async(self, &cc.commands.head);
            self.most_recent_background_command_pid = pid;
            status = 0;
        } else {
            status = self.interpret_conjunction(host, &cc.commands.head, fuel);
        }
        self.last_pipeline_exit_status = status;
        if !matches!(self.control_flow_state, ControlFlowState::Running) {
            return status;
        }
        let mut i: usize = 0;
        while i < cc.commands.tail.len()
            invariant
                i <= cc.commands.tail@.len(),
                shell_wf(*self),
                self.loop_depth == old(self).loop_depth,
                self.function_call_depth == old(self).function_call_depth,
                status == self.last_pipeline_exit_status,
                cc.commands.tail@.len() == 0 && fuel > 0 && bare_assignment_complete(*cc)
                    ==> match spec_assignments_applied(
                    old(self).environment@,
                    complete_assignments(*cc),
                    complete_assignments(*cc).len() as int,
                ) {
                    Ok(e) => status == 0 && self.environment@ == e && self.opened_files
                        == old(self).opened_files,
                    Err(_) => status == 1,
                },
                cc.commands.tail@.len() == 0 && cc.commands.head.is_async ==> status == 0
                    && self.environment@ == old(self).environment@ && self.opened_files
                    == old(self).opened_files,
            decreases cc.commands.tail@.len() - i,
        {
            if cc.commands.tail[i].is_async {
                let pid = host.launch_async(self, &cc.commands.tail[i]);
                self.most_recent_background_command_pid = pid;
                status = 0;
            } else {
                status = self.interpret_conjunction(host, &cc.commands.tail[i], fuel);
            }
            self.last_pipeline_exit_status = status;
            if !matches!(self.control_flow_state, ControlFlowState::Running) {
                return status;
            }
            i = i + 1;
        }
        status
    }

    /// Runs a whole program and reports the status of the last
    /// command run, zero for an empty program.
    #[verifier::loop_isolation(false)]
    pub fn interpret_program<H: Host>(&mut self, host: &mut H, p: &Program, fuel: u64) -> (r:
        i32)
        requires
            shell_wf(*old(self)),
        ensures
            shell_wf(*final(self)),
            final(self).loop_depth == old(self).loop_depth,
            final(self).function_call_depth == old(self).function_call_depth,
            p.commands@.len() == 0 ==> r == 0 && *final(self) == *old(self),
            p.commands@.len() > 0 ==> r == final(self).last_pipeline_exit_status,
            fuel > 0 && p.commands@.len() == 1 && bare_assignment_complete(p.commands@[0])
                ==> match spec_assignments_applied(
                old(self).environment@,
                complete_assignments(p.commands@[0]),
                complete_assignments(p.commands@[0]).len() as int,
            ) {
                Ok(e) => r == 0 && final(self).environment@ == e,
                Err(_) => r == 1,
            },
        decreases fuel, p.commands@, 0int,
    {
        let mut status: i32 = 0;
        let mut i: usize = 0;
        while i < p.commands.len()
            invariant
                i <= p.commands@.len(),
                shell_wf(*self),
                self.loop_depth == old(self).loop_depth,
                self.function_call_depth == old(self).function_call_depth,
                i == 0 ==> *self == *old(self) && status == 0,
                i > 0 ==> status == self.last_pipeline_exit_status,
                fuel > 0 && p.commands@.len() == 1 && bare_assignment_complete(
                    p.commands@[0],
                ) && i == 1 ==> match spec_assignments_applied(
                    old(self).environment@,
                    complete_assignments(p.commands@[0]),
                    complete_assignments(p.commands@[0]).len() as int,
                ) {
                    Ok(e) => status == 0 && self.environment@ == e,
                    Err(_) => status == 1,
                },
            decreases p.commands@.len() - i,
        {
            proof {
                assert(decreases_to!(p.commands@ => p.commands@[i as int]));
            }
            status = self.interpret_complete_command(host, &p.commands[i], fuel);
            i = i + 1;
        }
        status
    }
}

/// Whether `p` is one colon-delimited segment of `path`, joined with a
/// slash and the command name.
pub open spec fn spec_path_candidate(p: Seq<char>, path: Seq<char>, cmd: Seq<char>) -> bool {
    exists|i: int, j: int|
        0 <= i <= j <= path.len() && p == #[trigger] path.subrange(i, j) + "/"@ + cmd && (i
            == 0 || path[i - 1] == ':') && (j == path.len() || path[j] == ':')
}

/// Probes one path segment: `dir/command`, through the host.
fn try_path_candidate<H: Host>(
    host: &mut H,
    cs: &Vec<char>,
    start: usize,
    end: usize,
    command: &str,
) -> (r: Option<String>)
    requires
        start <= end <= cs@.len(),
    ensures
        r matches Some(p) ==> p@ == cs@.subrange(start as int, end as int) + "/"@ + command@,
{
    let dir = string_of_range(cs, start, end);
    let mut candidate = dir;
    candidate.append("/");
    candidate.append(command);
    if host.is_file(&candidate) {
        Some(candidate)
    } else {
        None
    }
}

/// Copies a function table; the shared bodies are shared on.
fn clone_functions(fs: &Vec<(String, std::rc::Rc<CompoundCommand>)>) -> (r: Vec<
    (String, std::rc::Rc<CompoundCommand>),
>)
    ensures
        r@.len() == fs@.len(),
{
    let mut r: Vec<(String, std::rc::Rc<CompoundCommand>)> = Vec::new();
    let mut i: usize = 0;
    while i < fs.len()
        invariant
            i <= fs@.len(),
            r@.len() == i,
        decreases fs@.len() - i,
    {
        r.push((fs[i].0.clone(), rc_clone(&fs[i].1)));
        i = i + 1;
    }
    r
}

} // verus!
