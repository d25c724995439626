//! The pseudo-terminal session manager: how a shell is launched, and what
//! each operation on a session identifier does to the registry of sessions.
//!
//! Opening the terminal, spawning the shell, writing, resizing and killing
//! are the caller's work, done on the handles that a session owns. This
//! module decides what is launched, which sessions exist, and what an
//! operation on an identifier amounts to.

use crate::introspect::QueryError;
use crate::registry::{Registry, RegistryState};
use crate::text::text_of;
use crate::writer::{WriteJob, WriteJobState};
use vstd::prelude::*;

verus! {

/// The size of a terminal in character cells, and of a cell in pixels.
#[derive(Clone, Copy, Debug, PartialEq, Eq, Structural)]
pub struct TerminalSize {
    pub rows: u16,
    pub cols: u16,
    pub pixel_width: u16,
    pub pixel_height: u16,
}

impl TerminalSize {
    /// A terminal of `rows` by `cols` cells. Pixel dimensions are not
    /// tracked: they are always zero.
    pub open spec fn cells(rows: u16, cols: u16) -> TerminalSize {
        TerminalSize { rows, cols, pixel_width: 0, pixel_height: 0 }
    }

    /// A terminal of `rows` by `cols` cells.
    pub fn of_cells(rows: u16, cols: u16) -> (size: TerminalSize)
        ensures
            size == TerminalSize::cells(rows, cols),
    {
        TerminalSize { rows, cols, pixel_width: 0, pixel_height: 0 }
    }
}

/// What the launch of a shell reads from the environment of the host
/// process. A variable that is unset, or that does not hold text, is `None`.
#[derive(Clone, Debug, PartialEq, Eq)]
pub struct HostEnv {
    pub shell: Option<String>,
    pub home: Option<String>,
    pub user: Option<String>,
    pub path: Option<String>,
    pub lang: Option<String>,
}

/// A `HostEnv` as a mathematical value.
pub struct HostEnvView {
    pub shell: Option<Seq<char>>,
    pub home: Option<Seq<char>>,
    pub user: Option<Seq<char>>,
    pub path: Option<Seq<char>>,
    pub lang: Option<Seq<char>>,
}

impl View for HostEnv {
    type V = HostEnvView;

    open spec fn view(&self) -> HostEnvView {
        HostEnvView {
            shell: text_of(self.shell),
            home: text_of(self.home),
            user: text_of(self.user),
            path: text_of(self.path),
            lang: text_of(self.lang),
        }
    }
}

/// The command that starts a session's shell.
#[derive(Clone, Debug, PartialEq, Eq)]
pub struct ShellCommand {
    pub program: String,
    pub args: Vec<String>,
    /// The working directory, or `None` for that of the host process.
    pub cwd: Option<String>,
    /// The whole environment of the child: no other variable is passed on.
    pub env: Vec<(String, String)>,
}

/// A `ShellCommand` as a mathematical value.
#[verifier::ext_equal]
pub struct ShellCommandView {
    pub program: Seq<char>,
    pub args: Seq<Seq<char>>,
    pub cwd: Option<Seq<char>>,
    pub env: Seq<(Seq<char>, Seq<char>)>,
}

impl View for ShellCommand {
    type V = ShellCommandView;

    open spec fn view(&self) -> ShellCommandView {
        ShellCommandView {
            program: self.program@,
            args: self.args@.map_values(|arg: String| arg@),
            cwd: text_of(self.cwd),
            env: self.env@.map_values(|entry: (String, String)| (entry.0@, entry.1@)),
        }
    }
}

/// The shell that is run when the environment names none.
pub open spec fn default_shell() -> Seq<char> {
    "/bin/zsh"@
}

/// The flag that makes the shell a login shell, so that it loads the user's
/// configuration.
pub open spec fn login_flag() -> Seq<char> {
    "-l"@
}

/// The terminal type that the child is told it runs in.
pub open spec fn terminal_type() -> Seq<char> {
    "xterm-256color"@
}

/// The entry for `name` in the child's environment: present exactly when the
/// host has a value for it.
pub open spec fn passed_on(name: Seq<char>, value: Option<Seq<char>>) -> Seq<
    (Seq<char>, Seq<char>),
> {
    match value {
        Some(value) => seq![(name, value)],
        None => Seq::empty(),
    }
}

/// The environment of the child: the terminal type, and of the host's
/// variables only `HOME`, `USER`, `PATH` and `LANG`.
pub open spec fn child_env(host: HostEnvView) -> Seq<(Seq<char>, Seq<char>)> {
    seq![("TERM"@, terminal_type())] + passed_on("HOME"@, host.home) + passed_on(
        "USER"@,
        host.user,
    ) + passed_on("PATH"@, host.path) + passed_on("LANG"@, host.lang)
}

/// The command for a session: the configured shell, or the default one, as
/// a login shell; in the directory that the caller asked for, else in the
/// user's home directory, else where the host process is.
pub open spec fn shell_command(cwd: Option<Seq<char>>, host: HostEnvView) -> ShellCommandView {
    ShellCommandView {
        program: match host.shell {
            Some(shell) => shell,
            None => default_shell(),
        },
        args: seq![login_flag()],
        cwd: match cwd {
            Some(dir) => Some(dir),
            None => host.home,
        },
        env: child_env(host),
    }
}

/// What to open and what to spawn for a new session.
#[derive(Clone, Debug, PartialEq, Eq)]
pub struct LaunchPlan {
    pub size: TerminalSize,
    pub command: ShellCommand,
}

fn copy_text(text: &Option<String>) -> (copy: Option<String>)
    ensures
        text_of(copy) == text_of(*text),
{
    match text {
        Some(text) => Some(text.clone()),
        None => None,
    }
}

fn pass_on(env: &mut Vec<(String, String)>, name: &str, value: &Option<String>)
    ensures
        final(env)@.map_values(|entry: (String, String)| (entry.0@, entry.1@)) == old(
            env,
        )@.map_values(|entry: (String, String)| (entry.0@, entry.1@)) + passed_on(
            name@,
            text_of(*value),
        ),
{
    let ghost view_of = |entry: (String, String)| (entry.0@, entry.1@);
    match value {
        Some(value) => {
            env.push((name.to_owned(), value.clone()));
            assert(env@.map_values(view_of) =~= old(env)@.map_values(view_of) + seq![
                (name@, value@),
            ]);
        },
        None => {
            assert(env@.map_values(view_of) =~= old(env)@.map_values(view_of) + Seq::empty());
        },
    }
}

/// Plans the launch of a session's shell in a terminal of `rows` by `cols`
/// cells.
pub fn plan_launch(rows: u16, cols: u16, cwd: Option<String>, host: &HostEnv) -> (plan: LaunchPlan)
    ensures
        plan.size == TerminalSize::cells(rows, cols),
        plan.command@ == shell_command(text_of(cwd), host@),
{
    let program = match &host.shell {
        Some(shell) => shell.clone(),
        None => "/bin/zsh".to_owned(),
    };
    let mut args: Vec<String> = Vec::new();
    args.push("-l".to_owned());
    let dir = match cwd {
        Some(dir) => Some(dir),
        None => copy_text(&host.home),
    };
    let mut env: Vec<(String, String)> = Vec::new();
    env.push(("TERM".to_owned(), "xterm-256color".to_owned()));
    let ghost view_of = |entry: (String, String)| (entry.0@, entry.1@);
    assert(env@.map_values(view_of) =~= seq![("TERM"@, terminal_type())]);
    pass_on(&mut env, "HOME", &host.home);
    pass_on(&mut env, "USER", &host.user);
    pass_on(&mut env, "PATH", &host.path);
    pass_on(&mut env, "LANG", &host.lang);
    assert(args@.map_values(|arg: String| arg@) =~= seq![login_flag()]);
    LaunchPlan {
        size: TerminalSize::of_cells(rows, cols),
        command: ShellCommand { program, args, cwd: dir, env },
    }
}

/// The step of a launch that failed.
#[derive(Clone, Copy, Debug, PartialEq, Eq, Structural)]
pub enum SpawnStage {
    /// Opening the pseudo-terminal pair.
    OpenPty,
    /// Spawning the shell on the terminal's slave side.
    Spawn,
    /// Taking the terminal's writer.
    TakeWriter,
    /// Cloning the terminal's reader.
    CloneReader,
}

/// A launch that failed: no session was registered.
#[derive(Clone, Debug, PartialEq, Eq)]
pub struct SpawnError {
    pub stage: SpawnStage,
    /// The text of the underlying error.
    pub detail: String,
}

impl SpawnStage {
    /// The words that introduce an error of this step.
    pub open spec fn label(self) -> Seq<char> {
        match self {
            SpawnStage::OpenPty => "openpty failed: "@,
            SpawnStage::Spawn => "spawn failed: "@,
            SpawnStage::TakeWriter => "take_writer failed: "@,
            SpawnStage::CloneReader => "clone_reader failed: "@,
        }
    }
}

impl SpawnError {
    /// The words of the error.
    pub open spec fn message_text(self) -> Seq<char> {
        self.stage.label() + self.detail@
    }

    /// The error as the caller reports it: the failed step, then the text
    /// of the underlying error.
    pub fn message(&self) -> (message: String)
        ensures
            message@ == self.message_text(),
    {
        let mut message = match self.stage {
            SpawnStage::OpenPty => "openpty failed: ".to_owned(),
            SpawnStage::Spawn => "spawn failed: ".to_owned(),
            SpawnStage::TakeWriter => "take_writer failed: ".to_owned(),
            SpawnStage::CloneReader => "clone_reader failed: ".to_owned(),
        };
        message.append(self.detail.as_str());
        message
    }
}

/// A running session: the handles that the caller writes to, resizes and
/// tears down, and the process identifier of the shell where it is known.
/// Dropping the instance releases the terminal and ends the shell.
pub struct PtyInstance<H> {
    pub handles: H,
    pub pid: Option<u32>,
}

/// The sessions that are alive, by identifier.
pub struct PtyManager<H> {
    instances: Registry<PtyInstance<H>>,
}

impl<H> View for PtyManager<H> {
    type V = RegistryState<PtyInstance<H>>;

    closed spec fn view(&self) -> RegistryState<PtyInstance<H>> {
        self.instances@
    }
}

impl<H> PtyManager<H> {
    /// The invariant that every operation keeps.
    pub open spec fn wf(&self) -> bool {
        self@.wf()
    }

    /// A manager without sessions; its first session gets the identifier 1.
    pub fn new() -> (manager: Self)
        ensures
            manager@ == RegistryState::<PtyInstance<H>>::empty(),
            manager.wf(),
    {
        PtyManager { instances: Registry::new() }
    }

    /// Whether an identifier is left for one more session.
    pub fn can_create(&self) -> (left: bool)
        ensures
            left == self@.can_allocate(),
    {
        self.instances.can_allocate()
    }

    /// The session registered under `id`, if there is one.
    pub fn instance(&self, id: u32) -> (found: Option<&PtyInstance<H>>)
        ensures
            match found {
                Some(instance) => self@.get(id) == Some(*instance),
                None => self@.get(id) is None,
            },
    {
        self.instances.get(id)
    }

    /// Mutable access to the session registered under `id`, if there is
    /// one, for the caller to use its handles. No other session changes.
    pub fn instance_mut(&mut self, id: u32) -> (found: Option<&mut PtyInstance<H>>)
        requires
            old(self).wf(),
        ensures
            final(self).wf(),
            match found {
                Some(instance) => old(self)@.get(id) == Some(*instance)
                    && final(self)@ == old(self)@.insert(id, *final(instance)),
                None => old(self)@.get(id) is None && final(self)@ == old(self)@,
            },
    {
        self.instances.get_mut(id)
    }

    /// The number of sessions alive.
    pub fn len(&self) -> (count: usize)
        ensures
            count == self@.sessions.len(),
    {
        self.instances.len()
    }
}

/// Registers the session that a launch produced and returns its identifier:
/// the next one in line, never used before. The session is in the registry
/// when the identifier is returned, before any of its output is read. A
/// failed launch is passed on and leaves the registry as it was.
pub fn create_pty<H>(state: &mut PtyManager<H>, spawned: Result<PtyInstance<H>, SpawnError>) -> (created:
    Result<u32, SpawnError>)
    requires
        old(state).wf(),
        spawned is Ok ==> old(state)@.can_allocate(),
    ensures
        final(state).wf(),
        match spawned {
            Ok(instance) => created == Ok::<u32, SpawnError>(old(state)@.next_id())
                && !old(state)@.contains(old(state)@.next_id())
                && final(state)@ == old(state)@.register(instance),
            Err(error) => created == Err::<u32, SpawnError>(error) && final(state)@ == old(state)@,
        },
{
    match spawned {
        Ok(instance) => {
            let id = state.instances.allocate_id();
            let stored = state.instances.insert(id, instance);
            assert(stored is Ok);
            Ok(id)
        },
        Err(error) => Err(error),
    }
}

/// What a write of `data` to the session `id` amounts to: the delivery of
/// `data` in full where the session is alive, and nothing at all, done
/// successfully, where it is not.
pub open spec fn write_plan<H>(
    state: RegistryState<PtyInstance<H>>,
    id: u32,
    data: Seq<u8>,
) -> WriteJobState {
    if state.contains(id) {
        WriteJobState::fresh(data)
    } else {
        WriteJobState::skipped()
    }
}

/// Starts a write of `data` to the session `id`. The caller runs the job on
/// the session's write handle.
pub fn write_pty<H>(state: &PtyManager<H>, id: u32, data: Vec<u8>) -> (job: WriteJob)
    ensures
        job@ == write_plan(state@, id, data@),
        job.wf(),
{
    if state.instances.contains(id) {
        WriteJob::new(data)
    } else {
        WriteJob::skipped()
    }
}

/// What a resize of the session `id` amounts to: the size to set on its
/// terminal where the session is alive, and nothing where it is not.
pub open spec fn resize_plan<H>(
    state: RegistryState<PtyInstance<H>>,
    id: u32,
    rows: u16,
    cols: u16,
) -> Option<TerminalSize> {
    if state.contains(id) {
        Some(TerminalSize::cells(rows, cols))
    } else {
        None
    }
}

/// The size that the caller is to set on the terminal of the session `id`,
/// or `None` where there is no such session and nothing to do.
pub fn resize_pty<H>(state: &PtyManager<H>, id: u32, rows: u16, cols: u16) -> (request: Option<
    TerminalSize,
>)
    ensures
        request == resize_plan(state@, id, rows, cols),
{
    if state.instances.contains(id) {
        Some(TerminalSize::of_cells(rows, cols))
    } else {
        None
    }
}

/// Takes the session `id` out of the registry, whether or not its shell is
/// still running, and hands it to the caller, whose dropping it ends the
/// shell and releases the terminal. Where there is no such session nothing
/// happens.
pub fn kill_pty<H>(state: &mut PtyManager<H>, id: u32) -> (killed: Option<PtyInstance<H>>)
    requires
        old(state).wf(),
    ensures
        final(state).wf(),
        final(state)@ == old(state)@.remove(id),
        killed == old(state)@.get(id),
        !final(state)@.contains(id),
{
    state.instances.remove(id)
}

/// The process to ask about the working directory of the session `id`.
pub open spec fn cwd_subject<H>(state: RegistryState<PtyInstance<H>>, id: u32) -> Result<
    u32,
    QueryError,
> {
    match state.get(id) {
        None => Err(QueryError::NotFound),
        Some(instance) => match instance.pid {
            None => Err(QueryError::NoPid),
            Some(pid) => Ok(pid),
        },
    }
}

/// The process identifier of the shell of the session `id`, from which the
/// lookup of the session's working directory starts. Fails where the
/// session is unknown or its process identifier was never learnt.
pub fn get_pty_cwd<H>(state: &PtyManager<H>, id: u32) -> (subject: Result<u32, QueryError>)
    ensures
        subject == cwd_subject(state@, id),
{
    match state.instances.get(id) {
        None => Err(QueryError::NotFound),
        Some(instance) => match instance.pid {
            None => Err(QueryError::NoPid),
            Some(pid) => Ok(pid),
        },
    }
}

/// Once a session is killed it is gone: a lookup finds nothing, and a later
/// write, resize or kill under the same identifier does nothing and
/// succeeds.
pub proof fn law_killed_session_is_gone<H>(
    state: RegistryState<PtyInstance<H>>,
    id: u32,
    data: Seq<u8>,
    rows: u16,
    cols: u16,
)
    ensures
        state.remove(id).get(id) is None,
        write_plan(state.remove(id), id, data) == WriteJobState::skipped(),
        crate::writer::step_of(write_plan(state.remove(id), id, data))
            == crate::writer::WriteStepView::Finished(Ok(())),
        resize_plan(state.remove(id), id, rows, cols) is None,
        state.remove(id).remove(id) == state.remove(id),
        cwd_subject(state.remove(id), id) == Err::<u32, QueryError>(QueryError::NotFound),
{
    crate::registry::law_remove_is_idempotent(state, id);
}

/// Operations on one session leave every other session alone.
pub proof fn law_sessions_are_independent<H>(
    state: RegistryState<PtyInstance<H>>,
    id: u32,
    other: u32,
    instance: PtyInstance<H>,
)
    requires
        id != other,
    ensures
        state.remove(id).get(other) == state.get(other),
        state.insert(id, instance).get(other) == state.get(other),
{
}

} // verus!
