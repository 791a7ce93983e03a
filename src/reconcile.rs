//! Bringing a running tmux server in line with the declared sessions and windows.
use vstd::prelude::*;

use crate::command_line::{render_command, texts, CommandLine};
use crate::config::{Config, Session, Window};
use crate::name_map::NameMap;
use crate::planner::{
    determine_commands_for_window, first_missing, linked_names, plan_matches, planned_commands,
    TmuxError,
};
use crate::state::{insert_clamped, TmuxState};
use crate::text::{decimal, decimal_string, push_text};

verus! {

/// Session names mapped to their window names, left to right.
pub type TmuxModel = Map<Seq<char>, Seq<Seq<char>>>;

/// Whether the session `session` exists and has a window named `window`.
pub open spec fn window_exists(state: TmuxModel, session: Seq<char>, window: Seq<char>) -> bool {
    state.contains_key(session) && state[session].contains(window)
}

/// `-c <dir>` when the window names a working directory.
pub open spec fn path_args(w: Window) -> Seq<Seq<char>> {
    match w.path {
        Some(p) => seq!["-c"@, p@],
        None => Seq::empty(),
    }
}

/// `-e <name>=<value>` for each variable, in order of the names.
pub open spec fn env_pair_args(pairs: Seq<(Seq<char>, Seq<char>)>) -> Seq<Seq<char>>
    decreases pairs.len(),
{
    if pairs.len() == 0 {
        Seq::empty()
    } else {
        env_pair_args(pairs.drop_last()) + seq!["-e"@, pairs.last().0 + "="@ + pairs.last().1]
    }
}

/// The environment arguments of a window.
pub open spec fn env_args(w: Window) -> Seq<Seq<char>> {
    match w.env {
        Some(m) => env_pair_args(m.pairs()),
        None => Seq::empty(),
    }
}

/// Arguments of the command that creates `session` with `w` as its first window.
pub open spec fn new_session_args(socket: Seq<char>, session: Seq<char>, w: Window) -> Seq<Seq<char>> {
    seq!["-L"@, socket, "new-session"@, "-d"@, "-s"@, session, "-n"@, w.name@] + path_args(w)
        + env_args(w)
}

/// The target `session:n` of the window that stands at zero-based position `index`;
/// tmux numbers windows from one.
pub open spec fn window_target(session: Seq<char>, index: nat) -> Seq<char> {
    session + ":"@ + decimal(index + 1)
}

/// Arguments of the command that creates `w` in `session` before whatever window holds
/// the slot of position `index`.
pub open spec fn new_window_args(socket: Seq<char>, session: Seq<char>, index: nat, w: Window) -> Seq<
    Seq<char>,
> {
    seq!["-L"@, socket, "new-window"@, "-t"@, window_target(session, index), "-n"@, w.name@, "-b"@]
        + path_args(w) + env_args(w)
}

/// Arguments of the command that types `line` into the window `w` of `session` and submits it.
pub open spec fn send_keys_args(socket: Seq<char>, session: Seq<char>, w: Window, line: Seq<char>) -> Seq<
    Seq<char>,
> {
    seq!["-L"@, socket, "send-keys"@, "-t"@, session + ":"@ + w.name@, line, "Enter"@]
}

/// Arguments of the command that creates `w`, as a new session or in an existing one.
pub open spec fn creation_args(
    state: TmuxModel,
    socket: Seq<char>,
    session: Seq<char>,
    index: nat,
    w: Window,
) -> Seq<Seq<char>> {
    if state.contains_key(session) {
        new_window_args(socket, session, index, w)
    } else {
        new_session_args(socket, session, w)
    }
}

/// The argument lists of every command issued for `w`: none when it exists already, else its
/// creation followed by one `send-keys` for each planned command line.
pub open spec fn step_commands(
    state: TmuxModel,
    socket: Seq<char>,
    session: Seq<char>,
    index: nat,
    w: Window,
    crates: Map<Seq<char>, Seq<char>>,
) -> Seq<Seq<Seq<char>>> {
    if window_exists(state, session, w.name@) {
        Seq::empty()
    } else {
        let lines = planned_commands(w, crates);
        seq![creation_args(state, socket, session, index, w)] + Seq::new(
            lines.len(),
            |i: int| send_keys_args(socket, session, w, lines[i]),
        )
    }
}

/// The server's sessions once `w` is in place: a new session holds it alone; in an existing
/// session it goes to its declared position.
pub open spec fn state_after(state: TmuxModel, session: Seq<char>, index: nat, w: Window) -> TmuxModel {
    if !state.contains_key(session) {
        state.insert(session, seq![w.name@])
    } else if state[session].contains(w.name@) {
        state
    } else {
        state.insert(session, insert_clamped(state[session], index, w.name@))
    }
}

/// The crate that stops the creation of `w`, if any: a window that exists already is not planned.
pub open spec fn step_failure(
    state: TmuxModel,
    session: Seq<char>,
    w: Window,
    crates: Map<Seq<char>, Seq<char>>,
) -> Option<Seq<char>> {
    if window_exists(state, session, w.name@) {
        None
    } else {
        first_missing(linked_names(w), crates)
    }
}

/// The program every command runs.
pub open spec fn all_tmux(v: Seq<CommandLine>) -> bool {
    forall|i: int| 0 <= i < v.len() ==> (#[trigger] v[i]).program@ == "tmux"@
}

/// The argument lists of a sequence of commands.
pub open spec fn command_args(v: Seq<CommandLine>) -> Seq<Seq<Seq<char>>> {
    v.map_values(|c: CommandLine| c.arg_texts())
}

/// The text of the socket name that the options select.
pub open spec fn socket_of(options: TmuxOptions) -> Seq<char> {
    match options.socket_name {
        Some(s) => s@,
        None => "default"@,
    }
}

/// Options of a tmux setup run.
#[derive(Debug, Clone, PartialEq, Eq)]
pub struct TmuxOptions {
    /// Report the commands without running them.
    pub dry_run: bool,
    /// Log more.
    pub debug: bool,
    /// The socket of the tmux server; `None` selects tmux's default socket.
    pub socket_name: Option<String>,
    /// Whether to attach once set up; `None` leaves it to whether the run is inside tmux.
    pub attach: Option<bool>,
    /// The configuration file to read in place of the default one.
    pub config_file: Option<String>,
    /// Check the tracked state against the server after every window, and never attach.
    pub testing: bool,
}

impl TmuxOptions {
    /// Whether commands are reported without being run.
    pub fn is_dry_run(&self) -> (r: bool)
        ensures
            r == self.dry_run,
    {
        self.dry_run
    }

    /// Whether the run logs more.
    pub fn is_debug(&self) -> (r: bool)
        ensures
            r == self.debug,
    {
        self.debug
    }

    /// The socket of the tmux server, where one is chosen.
    pub fn socket_name(&self) -> (r: Option<String>)
        ensures
            r == self.socket_name,
    {
        self.socket_name.clone()
    }

    /// The attach preference, where one is given.
    pub fn should_attach(&self) -> (r: Option<bool>)
        ensures
            r == self.attach,
    {
        self.attach
    }

    /// The configuration file to read, where one is chosen.
    pub fn config_file(&self) -> (r: Option<String>)
        ensures
            r == self.config_file,
    {
        self.config_file.clone()
    }

    /// Whether the run is a test run.
    pub fn is_testing(&self) -> (r: bool)
        ensures
            r == self.testing,
    {
        self.testing
    }
}

/// The socket name to hand to tmux.
pub fn get_socket_name(options: &TmuxOptions) -> (r: String)
    ensures
        r@ == socket_of(*options),
{
    match &options.socket_name {
        Some(s) => s.clone(),
        None => String::from_str("default"),
    }
}

fn literal(s: &str) -> (r: String)
    ensures
        r@ == s@,
{
    String::from_str(s)
}

fn tmux_command(args: Vec<String>) -> (r: CommandLine)
    ensures
        r.program@ == "tmux"@,
        r.args == args,
{
    CommandLine { program: literal("tmux"), args }
}

fn push_path_and_env(args: &mut Vec<String>, window: &Window)
    ensures
        texts(final(args)@) == texts(old(args)@) + path_args(*window) + env_args(*window),
{
    let ghost start = texts(args@);
    if let Some(p) = &window.path {
        args.push(literal("-c"));
        args.push(p.clone());
    }
    assert(texts(args@) =~= start + path_args(*window));
    let ghost with_path = texts(args@);
    if let Some(env) = &window.env {
        let mut i: usize = 0;
        while i < env.len()
            invariant
                i <= env.pairs().len(),
                texts(args@) == with_path + env_pair_args(env.pairs().take(i as int)),
            decreases env.pairs().len() - i,
        {
            let mut pair = String::new();
            push_text(&mut pair, env.key_at(i).as_str());
            push_text(&mut pair, "=");
            push_text(&mut pair, env.value_at(i).as_str());
            let ghost before = texts(args@);
            args.push(literal("-e"));
            args.push(pair);
            proof {
                let p = env.pairs().take(i + 1);
                assert(p.drop_last() =~= env.pairs().take(i as int));
                assert(texts(args@) =~= before + seq!["-e"@, p.last().0 + "="@ + p.last().1]);
            }
            i = i + 1;
        }
        assert(env.pairs().take(i as int) =~= env.pairs());
    }
    assert(texts(args@) =~= start + path_args(*window) + env_args(*window));
}

fn session_target(session_name: &String, suffix: &str) -> (r: String)
    ensures
        r@ == session_name@ + ":"@ + suffix@,
{
    let mut t = session_name.clone();
    push_text(&mut t, ":");
    push_text(&mut t, suffix);
    t
}

/// The command that creates `window` as the first window of the new session `session_name`.
fn new_session_command(socket: &String, session_name: &String, window: &Window) -> (r: CommandLine)
    ensures
        r.program@ == "tmux"@,
        r.arg_texts() == new_session_args(socket@, session_name@, *window),
{
    let mut args: Vec<String> = Vec::new();
    args.push(literal("-L"));
    args.push(socket.clone());
    args.push(literal("new-session"));
    args.push(literal("-d"));
    args.push(literal("-s"));
    args.push(session_name.clone());
    args.push(literal("-n"));
    args.push(window.name.clone());
    let ghost head = texts(args@);
    assert(head =~= seq!["-L"@, socket@, "new-session"@, "-d"@, "-s"@, session_name@, "-n"@, window.name@]);
    push_path_and_env(&mut args, window);
    tmux_command(args)
}

/// The command that creates `window` at zero-based position `window_index` of `session_name`,
/// before any window that holds that slot.
fn new_window_command(
    socket: &String,
    session_name: &String,
    window_index: usize,
    window: &Window,
) -> (r: CommandLine)
    requires
        window_index < usize::MAX,
    ensures
        r.program@ == "tmux"@,
        r.arg_texts() == new_window_args(socket@, session_name@, window_index as nat, *window),
{
    let number = decimal_string(window_index + 1);
    let mut args: Vec<String> = Vec::new();
    args.push(literal("-L"));
    args.push(socket.clone());
    args.push(literal("new-window"));
    args.push(literal("-t"));
    args.push(session_target(session_name, number.as_str()));
    args.push(literal("-n"));
    args.push(window.name.clone());
    args.push(literal("-b"));
    let ghost head = texts(args@);
    assert(head =~= seq![
        "-L"@,
        socket@,
        "new-window"@,
        "-t"@,
        window_target(session_name@, window_index as nat),
        "-n"@,
        window.name@,
        "-b"@,
    ]);
    push_path_and_env(&mut args, window);
    tmux_command(args)
}

/// The command that types `line` into `window` of `session_name` and presses Enter.
fn send_keys_command(socket: &String, session_name: &String, window: &Window, line: String) -> (r:
    CommandLine)
    ensures
        r.program@ == "tmux"@,
        r.arg_texts() == send_keys_args(socket@, session_name@, *window, line@),
{
    let mut args: Vec<String> = Vec::new();
    args.push(literal("-L"));
    args.push(socket.clone());
    args.push(literal("send-keys"));
    args.push(literal("-t"));
    args.push(session_target(session_name, window.name.as_str()));
    args.push(line);
    args.push(literal("Enter"));
    assert(texts(args@) =~= send_keys_args(socket@, session_name@, *window, line@));
    tmux_command(args)
}

/// Decides what `window`, declared at zero-based position `window_index` of `session_name`,
/// needs: nothing when the tracked state has it; else the command that creates it, then its
/// planned command lines. The tracked state takes in the new window. A crate that cannot be
/// found stops the window before any command for it, and leaves the state as it was.
pub fn ensure_window(
    session_name: &String,
    window: &Window,
    window_index: usize,
    crates: &NameMap,
    current_state: &mut TmuxState,
    socket: &String,
) -> (r: Result<Vec<CommandLine>, TmuxError>)
    requires
        window_index < usize::MAX,
    ensures
        match step_failure(old(current_state)@, session_name@, *window, crates@) {
            Some(missing) => {
                &&& r matches Err(TmuxError::CrateNotFound { crate_name, window: w }) && crate_name@
                    == missing && w@ == window.name@
                &&& final(current_state)@ == old(current_state)@
            },
            None => {
                &&& r matches Ok(cmds) && all_tmux(cmds@) && command_args(cmds@) == step_commands(
                    old(current_state)@,
                    socket@,
                    session_name@,
                    window_index as nat,
                    *window,
                    crates@,
                )
                &&& final(current_state)@ == state_after(
                    old(current_state)@,
                    session_name@,
                    window_index as nat,
                    *window,
                )
            },
        },
{
    let ghost state0 = current_state@;
    let ghost index = window_index as nat;
    let existing = current_state.windows_of(session_name.as_str());
    let session_exists = existing.is_some();
    if let Some(windows) = existing {
        let mut k: usize = 0;
        while k < windows.len()
            invariant
                k <= windows@.len(),
                state0.contains_key(session_name@),
                state0[session_name@] == texts(windows@),
                current_state@ == state0,
                forall|j: int| 0 <= j < k ==> windows@[j]@ != window.name@,
            decreases windows@.len() - k,
        {
            if windows[k] == window.name {
                proof {
                    assert(state0[session_name@] == texts(windows@));
                    assert(texts(windows@)[k as int] == window.name@);
                    assert(state0[session_name@].contains(window.name@));
                    assert(window_exists(state0, session_name@, window.name@));
                }
                let empty: Vec<CommandLine> = Vec::new();
                assert(command_args(empty@) =~= Seq::<Seq<Seq<char>>>::empty());
                return Ok(empty);
            }
            k = k + 1;
        }
        proof {
            assert forall|j: int| 0 <= j < texts(windows@).len() implies texts(windows@)[j]
                != window.name@ by {}
        }
    }
    assert(!window_exists(state0, session_name@, window.name@));
    let planned = determine_commands_for_window(window, crates);
    assert(plan_matches(planned, *window, crates@));
    let lines = match planned {
        Err(e) => {
            return Err(e);
        },
        Ok(lines) => lines,
    };
    let mut commands: Vec<CommandLine> = Vec::new();
    if session_exists {
        commands.push(new_window_command(socket, session_name, window_index, window));
        current_state.insert_window(session_name.as_str(), window_index, window.name.clone());
    } else {
        commands.push(new_session_command(socket, session_name, window));
        let mut names: Vec<String> = Vec::new();
        names.push(window.name.clone());
        assert(texts(names@) =~= seq![window.name@]);
        current_state.set_session(session_name.clone(), names);
    }
    let ghost first = command_args(commands@);
    let ghost all_lines = planned_commands(*window, crates@);
    assert(first =~= seq![creation_args(state0, socket@, session_name@, index, *window)]);
    match lines {
        None => {
            assert(all_lines.len() == 0);
        },
        Some(lines) => {
            let mut i: usize = 0;
            while i < lines.len()
                invariant
                    i <= lines@.len(),
                    texts(lines@) == all_lines,
                    all_tmux(commands@),
                    command_args(commands@) == first + Seq::new(
                        i as nat,
                        |j: int| send_keys_args(socket@, session_name@, *window, all_lines[j]),
                    ),
                decreases lines@.len() - i,
            {
                let ghost before = commands@;
                let line = lines[i].clone();
                assert(line@ == all_lines[i as int]);
                let c = send_keys_command(socket, session_name, window, line);
                commands.push(c);
                assert(command_args(commands@) =~= command_args(before).push(c.arg_texts()));
                assert(command_args(commands@) =~= first + Seq::new(
                    (i + 1) as nat,
                    |j: int| send_keys_args(socket@, session_name@, *window, all_lines[j]),
                ));
                i = i + 1;
            }
        },
    }
    assert(command_args(commands@) =~= step_commands(
        state0,
        socket@,
        session_name@,
        index,
        *window,
        crates@,
    ));
    Ok(commands)
}

/// A declared window: its session's name, the window, and its zero-based position there.
pub type Job = (Seq<char>, Window, nat);

/// The windows of one session, in declared order.
pub open spec fn session_jobs(s: Session) -> Seq<Job> {
    Seq::new(s.windows@.len(), |i: int| (s.name@, s.windows@[i], i as nat))
}

/// Every declared window, session by session.
pub open spec fn config_jobs(sessions: Seq<Session>) -> Seq<Job>
    decreases sessions.len(),
{
    if sessions.len() == 0 {
        Seq::empty()
    } else {
        config_jobs(sessions.drop_last()) + session_jobs(sessions.last())
    }
}

/// What handling one window does: the argument lists of its commands, and the tracked
/// state once they ran.
pub type StepModel = (Seq<Seq<Seq<char>>>, TmuxModel);

/// The course of a run: one step for each window handled, the state it leaves, and the
/// unknown crate with the window that stopped it, if one did.
pub struct RunModel {
    pub steps: Seq<StepModel>,
    pub state: TmuxModel,
    pub failure: Option<(Seq<char>, Seq<char>)>,
}

/// A run over `jobs` from the state `init`: each window in turn, up to the first failure.
pub open spec fn run_jobs(
    jobs: Seq<Job>,
    init: TmuxModel,
    crates: Map<Seq<char>, Seq<char>>,
    socket: Seq<char>,
) -> RunModel
    decreases jobs.len(),
{
    if jobs.len() == 0 {
        RunModel { steps: Seq::empty(), state: init, failure: None }
    } else {
        let prev = run_jobs(jobs.drop_last(), init, crates, socket);
        let (session, w, index) = jobs.last();
        if prev.failure is Some {
            prev
        } else if step_failure(prev.state, session, w, crates) is Some {
            RunModel {
                steps: prev.steps,
                state: prev.state,
                failure: Some((step_failure(prev.state, session, w, crates)->0, w.name@)),
            }
        } else {
            let next = state_after(prev.state, session, index, w);
            RunModel {
                steps: prev.steps.push(
                    (step_commands(prev.state, socket, session, index, w, crates), next),
                ),
                state: next,
                failure: None,
            }
        }
    }
}

/// Once a run has stopped, later windows change nothing.
pub proof fn lemma_failure_stays(
    p: Seq<Job>,
    q: Seq<Job>,
    init: TmuxModel,
    crates: Map<Seq<char>, Seq<char>>,
    socket: Seq<char>,
)
    requires
        run_jobs(p, init, crates, socket).failure is Some,
    ensures
        run_jobs(p + q, init, crates, socket) == run_jobs(p, init, crates, socket),
    decreases q.len(),
{
    if q.len() == 0 {
        assert(p + q =~= p);
    } else {
        lemma_failure_stays(p, q.drop_last(), init, crates, socket);
        assert((p + q).drop_last() =~= p + q.drop_last());
    }
}

/// Whether `cmd` runs tmux with the arguments of an attach to the configured default session,
/// or to tmux's own choice where none is configured.
pub open spec fn is_attach_command(cmd: CommandLine, config: Config) -> bool {
    &&& cmd.program@ == "tmux"@
    &&& cmd.arg_texts() == seq!["attach"@] + match config.tmux {
        Some(t) => match t.default_session {
            Some(d) => seq!["-t"@, d@],
            None => Seq::empty(),
        },
        None => Seq::empty(),
    }
}

/// Whether a run attaches: as the options say, else exactly when it runs outside tmux.
pub open spec fn wants_attach(options: TmuxOptions, in_tmux: bool) -> bool {
    match options.attach {
        Some(b) => b,
        None => !in_tmux,
    }
}

/// Whether to attach once the sessions are set up.
pub fn decide_attach(options: &TmuxOptions, in_tmux: bool) -> (r: bool)
    ensures
        r == wants_attach(*options, in_tmux),
{
    match options.attach {
        Some(b) => b,
        None => !in_tmux,
    }
}

/// The attach command, when the run attaches.
pub fn maybe_attach_tmux(config: &Config, options: &TmuxOptions, in_tmux: bool) -> (r: Option<
    CommandLine,
>)
    ensures
        r is Some <==> wants_attach(*options, in_tmux),
        r matches Some(cmd) ==> is_attach_command(cmd, *config),
{
    if !decide_attach(options, in_tmux) {
        return None;
    }
    let mut args: Vec<String> = Vec::new();
    args.push(literal("attach"));
    if let Some(tmux) = &config.tmux {
        if let Some(default_session) = &tmux.default_session {
            args.push(literal("-t"));
            args.push(default_session.clone());
        }
    }
    let cmd = tmux_command(args);
    assert(is_attach_command(cmd, *config)) by {
        assert(cmd.arg_texts() =~= seq!["attach"@] + match config.tmux {
            Some(t) => match t.default_session {
                Some(d) => seq!["-t"@, d@],
                None => Seq::<Seq<char>>::empty(),
            },
            None => Seq::<Seq<char>>::empty(),
        });
    }
    Some(cmd)
}

/// The commands for one window, and the tracked state once they ran.
#[derive(Debug, Clone, PartialEq, Eq)]
pub struct WindowStep {
    pub commands: Vec<CommandLine>,
    pub state: TmuxState,
}

/// A whole setup run, decided in advance: the steps in the order they run, the error that
/// stopped the run after them, if any, and the attach command that ends a run that did
/// not stop.
#[derive(Debug, Clone, PartialEq, Eq)]
pub struct StartupPlan {
    pub steps: Vec<WindowStep>,
    pub failure: Option<TmuxError>,
    pub attach: Option<CommandLine>,
}

/// The model of a sequence of steps.
pub open spec fn steps_model(v: Seq<WindowStep>) -> Seq<StepModel> {
    v.map_values(|s: WindowStep| (command_args(s.commands@), s.state@))
}

/// Whether every command of every step runs tmux.
pub open spec fn steps_run_tmux(v: Seq<WindowStep>) -> bool {
    forall|i: int| 0 <= i < v.len() ==> all_tmux((#[trigger] v[i]).commands@)
}

/// Whether `plan` is the run that `config` asks for from `state`.
pub open spec fn plan_is_run(
    plan: StartupPlan,
    config: Config,
    options: TmuxOptions,
    state: TmuxModel,
    crates: Map<Seq<char>, Seq<char>>,
    in_tmux: bool,
) -> bool {
    match config.tmux {
        None => plan.steps@.len() == 0 && plan.failure is None && plan.attach is None,
        Some(t) => {
            let m = run_jobs(config_jobs(t.sessions@), state, crates, socket_of(options));
            &&& steps_run_tmux(plan.steps@)
            &&& steps_model(plan.steps@) == m.steps
            &&& match m.failure {
                Some((missing, window)) => plan.failure matches Some(
                    TmuxError::CrateNotFound { crate_name, window: w },
                ) && crate_name@ == missing && w@ == window,
                None => plan.failure is None,
            }
            &&& (plan.attach is Some <==> m.failure is None && wants_attach(options, in_tmux))
            &&& plan.attach matches Some(cmd) ==> is_attach_command(cmd, config)
        },
    }
}

proof fn lemma_session_prefix(sessions: Seq<Session>, i: int)
    requires
        0 <= i < sessions.len(),
    ensures
        config_jobs(sessions.take(i + 1)) == config_jobs(sessions.take(i)) + session_jobs(sessions[i]),
{
    assert(sessions.take(i + 1).drop_last() =~= sessions.take(i));
}

/// Plans the whole run: every declared window in order against `state`, the tracked copy of
/// the server's sessions, then the attach decision.
pub fn startup_tmux(
    config: &Config,
    options: &TmuxOptions,
    state: TmuxState,
    crates: &NameMap,
    in_tmux: bool,
) -> (r: StartupPlan)
    ensures
        plan_is_run(r, *config, *options, state@, crates@, in_tmux),
{
    let tmux = match &config.tmux {
        None => {
            return StartupPlan { steps: Vec::new(), failure: None, attach: None };
        },
        Some(t) => t,
    };
    let socket = get_socket_name(options);
    let ghost init = state@;
    let ghost sessions = tmux.sessions@;
    let mut current = state;
    let mut steps: Vec<WindowStep> = Vec::new();
    let mut si: usize = 0;
    assert(sessions.take(0) =~= Seq::<Session>::empty());
    assert(steps_model(steps@) =~= Seq::<StepModel>::empty());
    while si < tmux.sessions.len()
        invariant
            si <= sessions.len(),
            sessions == tmux.sessions@,
            config.tmux == Some(*tmux),
            init == state@,
            socket@ == socket_of(*options),
            steps_run_tmux(steps@),
            run_jobs(config_jobs(sessions.take(si as int)), init, crates@, socket@) == (RunModel {
                steps: steps_model(steps@),
                state: current@,
                failure: None,
            }),
        decreases sessions.len() - si,
    {
        let session = &tmux.sessions[si];
        let ghost done = config_jobs(sessions.take(si as int));
        let ghost these = session_jobs(*session);
        let mut wi: usize = 0;
        assert(done + these.take(0) =~= done);
        while wi < session.windows.len()
            invariant
                wi <= session.windows@.len(),
                si < sessions.len(),
                sessions == tmux.sessions@,
                config.tmux == Some(*tmux),
                init == state@,
                done == config_jobs(sessions.take(si as int)),
                *session == sessions[si as int],
                these == session_jobs(*session),
                socket@ == socket_of(*options),
                steps_run_tmux(steps@),
                run_jobs(done + these.take(wi as int), init, crates@, socket@) == (RunModel {
                    steps: steps_model(steps@),
                    state: current@,
                    failure: None,
                }),
            decreases session.windows@.len() - wi,
        {
            let window = &session.windows[wi];
            let ghost prefix = done + these.take(wi as int);
            let ghost job = these[wi as int];
            assert(prefix.push(job).drop_last() =~= prefix);
            assert(done + these.take(wi + 1) =~= prefix.push(job));
            assert(job == (session.name@, *window, wi as nat));
            match ensure_window(&session.name, window, wi, crates, &mut current, &socket) {
                Ok(commands) => {
                    let ghost old_steps = steps@;
                    let step = WindowStep { commands, state: current.copy() };
                    steps.push(step);
                    assert(steps_model(steps@) =~= steps_model(old_steps).push(
                        (command_args(step.commands@), step.state@),
                    ));
                },
                Err(e) => {
                    proof {
                        lemma_jobs_split(sessions, si as int, wi as int);
                        lemma_failure_stays(
                            prefix.push(job),
                            config_jobs(sessions).skip((prefix.len() + 1) as int),
                            init,
                            crates@,
                            socket@,
                        );
                    }
                    return StartupPlan { steps, failure: Some(e), attach: None };
                },
            }
            wi = wi + 1;
        }
        proof {
            assert(these.take(wi as int) =~= these);
            lemma_session_prefix(sessions, si as int);
        }
        si = si + 1;
    }
    assert(sessions.take(si as int) =~= sessions);
    let attach = maybe_attach_tmux(config, options, in_tmux);
    StartupPlan { steps, failure: None, attach }
}

/// The jobs of the whole configuration split around the window `wi` of session `si`.
proof fn lemma_jobs_split(sessions: Seq<Session>, si: int, wi: int)
    requires
        0 <= si < sessions.len(),
        0 <= wi < sessions[si].windows@.len(),
    ensures
        ({
            let prefix = config_jobs(sessions.take(si)) + session_jobs(sessions[si]).take(wi);
            let job = session_jobs(sessions[si])[wi];
            config_jobs(sessions) == prefix.push(job) + config_jobs(sessions).skip((prefix.len() + 1) as int)
        }),
{
    let prefix = config_jobs(sessions.take(si)) + session_jobs(sessions[si]).take(wi);
    lemma_jobs_prefix(sessions, si + 1);
    lemma_session_prefix(sessions, si);
    let all = config_jobs(sessions);
    assert(all.take((prefix.len() + 1) as int) =~= prefix.push(session_jobs(sessions[si])[wi]));
    assert(all =~= all.take((prefix.len() + 1) as int) + all.skip((prefix.len() + 1) as int));
}

/// The jobs of the first `n` sessions come first among all jobs.
proof fn lemma_jobs_prefix(sessions: Seq<Session>, n: int)
    requires
        0 <= n <= sessions.len(),
    ensures
        config_jobs(sessions.take(n)).len() <= config_jobs(sessions).len(),
        config_jobs(sessions) == config_jobs(sessions.take(n)) + config_jobs(sessions).skip(
            config_jobs(sessions.take(n)).len() as int,
        ),
    decreases sessions.len() - n,
{
    if n == sessions.len() {
        assert(sessions.take(n) =~= sessions);
        assert(config_jobs(sessions).skip(config_jobs(sessions).len() as int) =~= Seq::<Job>::empty());
        assert(config_jobs(sessions) =~= config_jobs(sessions) + Seq::<Job>::empty());
    } else {
        lemma_jobs_prefix(sessions, n + 1);
        lemma_session_prefix(sessions, n);
        let a = config_jobs(sessions.take(n));
        let b = config_jobs(sessions.take(n + 1));
        let all = config_jobs(sessions);
        assert(all =~= a + all.skip(a.len() as int));
    }
}

/// The records of a sequence of commands.
pub open spec fn records_of(cmds: Seq<CommandLine>) -> Seq<Seq<char>> {
    cmds.map_values(|c: CommandLine| render_command(c.program@, c.arg_texts()))
}

/// The records of the commands of every step, in order.
pub open spec fn step_records(steps: Seq<WindowStep>) -> Seq<Seq<char>>
    decreases steps.len(),
{
    if steps.len() == 0 {
        Seq::empty()
    } else {
        step_records(steps.drop_last()) + records_of(steps.last().commands@)
    }
}

impl StartupPlan {
    /// The record of every command of the plan in the order they run, the attach command last.
    pub fn executed_commands(&self) -> (r: Vec<String>)
        ensures
            texts(r@) == step_records(self.steps@) + match self.attach {
                Some(c) => records_of(seq![c]),
                None => Seq::empty(),
            },
    {
        let mut out: Vec<String> = Vec::new();
        let mut i: usize = 0;
        while i < self.steps.len()
            invariant
                i <= self.steps@.len(),
                texts(out@) == step_records(self.steps@.take(i as int)),
            decreases self.steps@.len() - i,
        {
            let cmds = &self.steps[i].commands;
            let ghost start = texts(out@);
            let mut j: usize = 0;
            while j < cmds.len()
                invariant
                    j <= cmds@.len(),
                    texts(out@) == start + records_of(cmds@.take(j as int)),
                decreases cmds@.len() - j,
            {
                let ghost before = out@;
                let line = cmds[j].debug_string();
                out.push(line);
                assert(texts(out@) =~= texts(before).push(line@));
                assert(records_of(cmds@.take(j + 1)) =~= records_of(cmds@.take(j as int)).push(line@));
                j = j + 1;
            }
            assert(cmds@.take(j as int) =~= cmds@);
            assert(self.steps@.take(i + 1).drop_last() =~= self.steps@.take(i as int));
            i = i + 1;
        }
        assert(self.steps@.take(i as int) =~= self.steps@);
        let ghost body = texts(out@);
        match &self.attach {
            Some(c) => {
                let line = c.debug_string();
                out.push(line);
                assert(texts(out@) =~= body + records_of(seq![*c]));
            },
            None => {
                assert(texts(out@) =~= body + Seq::<Seq<char>>::empty());
            },
        }
        out
    }
}

/// Whether the state tracked during a run agrees with the state the server reports.
pub fn compare_presumed_vs_actual_state(presumed: &TmuxState, actual: &TmuxState) -> (r: bool)
    ensures
        r == (presumed@ == actual@),
{
    presumed.same_as(actual)
}

} // verus!
