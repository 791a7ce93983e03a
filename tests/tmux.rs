use binutils_tmux::config::{Command, Config, Session, Tmux, Window};
use binutils_tmux::name_map::NameMap;
use binutils_tmux::planner::TmuxError;
use binutils_tmux::reconcile::{
    compare_presumed_vs_actual_state, ensure_window, get_socket_name, maybe_attach_tmux, startup_tmux,
    StartupPlan, TmuxOptions,
};
use binutils_tmux::state::{listed_names, TmuxState};

fn options() -> TmuxOptions {
    TmuxOptions {
        dry_run: false,
        debug: false,
        socket_name: Some("[SOCKET_NAME]".to_string()),
        attach: None,
        config_file: None,
        testing: true,
    }
}

fn window(name: &str) -> Window {
    Window { name: name.to_string(), path: None, command: None, env: None, linked_crates: None }
}

fn config_with(sessions: Vec<Session>, default_session: Option<&str>) -> Config {
    Config {
        tmux: Some(Tmux { sessions, default_session: default_session.map(|s| s.to_string()) }),
        shell_caching: None,
        crate_locations: None,
    }
}

fn session(name: &str, windows: Vec<Window>) -> Session {
    Session { name: name.to_string(), windows }
}

fn state_of(sessions: &[(&str, &[&str])]) -> TmuxState {
    let mut state = TmuxState::new();
    for (name, windows) in sessions {
        state.set_session(name.to_string(), windows.iter().map(|w| w.to_string()).collect());
    }
    state
}

fn final_state(plan: &StartupPlan, initial: &TmuxState) -> TmuxState {
    match plan.steps.last() {
        Some(step) => step.state.clone(),
        None => initial.clone(),
    }
}

fn assert_state(state: &TmuxState, expected: &[(&str, &[&str])]) {
    assert!(compare_presumed_vs_actual_state(state, &state_of(expected)), "{:?}", state);
}

#[test]
fn test_creates_all_windows_when_server_is_not_started() {
    let config = config_with(
        vec![session("foo", vec![window("bar"), window("baz"), window("qux"), window("derp")])],
        None,
    );
    let state = TmuxState::new();
    let plan = startup_tmux(&config, &options(), state.clone(), &NameMap::new(), false);
    assert_eq!(
        plan.executed_commands(),
        vec![
            "tmux -L [SOCKET_NAME] new-session -d -s foo -n bar",
            "tmux -L [SOCKET_NAME] new-window -t foo:2 -n baz -b",
            "tmux -L [SOCKET_NAME] new-window -t foo:3 -n qux -b",
            "tmux -L [SOCKET_NAME] new-window -t foo:4 -n derp -b",
            "tmux attach",
        ]
    );
    assert_state(&final_state(&plan, &state), &[("foo", &["bar", "baz", "qux", "derp"])]);
}

#[test]
fn test_creates_missing_windows_when_server_is_already_started() {
    let config = config_with(vec![session("foo", vec![window("baz"), window("bar")])], None);
    let state = state_of(&[("foo", &["baz"])]);
    let plan = startup_tmux(&config, &options(), state.clone(), &NameMap::new(), false);
    assert_eq!(
        plan.executed_commands(),
        vec!["tmux -L [SOCKET_NAME] new-window -t foo:2 -n bar -b", "tmux attach"]
    );
    assert_state(&final_state(&plan, &state), &[("foo", &["baz", "bar"])]);
}

#[test]
fn test_inserts_missing_windows_at_correct_index() {
    let config = config_with(vec![session("foo", vec![window("bar"), window("baz")])], None);
    let state = state_of(&[("foo", &["baz"])]);
    let plan = startup_tmux(&config, &options(), state.clone(), &NameMap::new(), false);
    assert_eq!(
        plan.executed_commands(),
        vec!["tmux -L [SOCKET_NAME] new-window -t foo:1 -n bar -b", "tmux attach"]
    );
    assert_state(&final_state(&plan, &state), &[("foo", &["bar", "baz"])]);
}

#[test]
fn test_does_nothing_if_already_started() {
    let config = config_with(vec![session("foo", vec![window("bar")])], None);
    let state = state_of(&[("foo", &["bar"])]);
    let plan = startup_tmux(&config, &options(), state.clone(), &NameMap::new(), false);
    assert_eq!(plan.executed_commands(), vec!["tmux attach"]);
    assert_state(&final_state(&plan, &state), &[("foo", &["bar"])]);
}

#[test]
fn test_sets_specified_environment_variables_when_window_is_created() {
    let mut env = NameMap::new();
    env.insert("FOO".to_string(), "bar".to_string());
    env.insert("BAZ".to_string(), "qux".to_string());
    let mut bar = window("bar");
    bar.command = Some(Command::Single(
        "echo \"$FOO-$BAZ\" > /tmp/random-value/some-file.txt".to_string(),
    ));
    bar.env = Some(env);
    let config = config_with(vec![session("foo", vec![bar])], None);
    let plan = startup_tmux(&config, &options(), TmuxState::new(), &NameMap::new(), false);
    assert_eq!(
        plan.executed_commands(),
        vec![
            "tmux -L [SOCKET_NAME] new-session -d -s foo -n bar -e BAZ=qux -e FOO=bar",
            "tmux -L [SOCKET_NAME] send-keys -t foo:bar 'echo \"$FOO-$BAZ\" > /tmp/random-value/some-file.txt' Enter",
            "tmux attach",
        ]
    );
}

#[test]
fn test_invokes_command_when_window_is_created() {
    let mut bar = window("bar");
    bar.command = Some(Command::Single("touch /tmp/random-value/some-file.txt".to_string()));
    let config = config_with(vec![session("foo", vec![bar])], None);
    let state = TmuxState::new();
    let plan = startup_tmux(&config, &options(), state.clone(), &NameMap::new(), false);
    assert_eq!(
        plan.executed_commands(),
        vec![
            "tmux -L [SOCKET_NAME] new-session -d -s foo -n bar",
            "tmux -L [SOCKET_NAME] send-keys -t foo:bar 'touch /tmp/random-value/some-file.txt' Enter",
            "tmux attach",
        ]
    );
    assert_state(&final_state(&plan, &state), &[("foo", &["bar"])]);
}

#[test]
fn test_attempts_to_attach_to_default_session() {
    let config = config_with(vec![session("foo", vec![window("bar")])], Some("foo"));
    let plan = startup_tmux(&config, &options(), TmuxState::new(), &NameMap::new(), false);
    assert_eq!(
        plan.executed_commands(),
        vec!["tmux -L [SOCKET_NAME] new-session -d -s foo -n bar", "tmux attach -t foo"]
    );
}

#[test]
fn test_attempts_to_attach_without_default_session() {
    let config = config_with(vec![session("foo", vec![window("bar")])], None);
    let plan = startup_tmux(&config, &options(), TmuxState::new(), &NameMap::new(), false);
    assert_eq!(
        plan.executed_commands(),
        vec!["tmux -L [SOCKET_NAME] new-session -d -s foo -n bar", "tmux attach"]
    );
}

#[test]
fn test_linked_crates() {
    let mut crates = NameMap::new();
    crates.insert("foo".to_string(), "[TEMP_DIR]/workspace/foo/target/debug/".to_string());
    let mut bar = window("bar");
    bar.path = Some("[TEMP_DIR]/working_dir".to_string());
    bar.command = Some(Command::Single("bar".to_string()));
    bar.linked_crates = Some(vec!["foo".to_string()]);
    let config = config_with(vec![session("foo", vec![bar])], None);
    let plan = startup_tmux(&config, &options(), TmuxState::new(), &crates, false);
    assert_eq!(
        plan.executed_commands(),
        vec![
            "tmux -L [SOCKET_NAME] new-session -d -s foo -n bar -c [TEMP_DIR]/working_dir",
            "tmux -L [SOCKET_NAME] send-keys -t foo:bar 'export PATH=\"[TEMP_DIR]/workspace/foo/target/debug/:$PATH\"' Enter",
            "tmux -L [SOCKET_NAME] send-keys -t foo:bar bar Enter",
            "tmux attach",
        ]
    );
}

#[test]
fn second_run_issues_no_commands() {
    let mut bar = window("bar");
    bar.command = Some(Command::Multiple(vec!["echo one".to_string(), "echo two".to_string()]));
    let config = config_with(
        vec![session("foo", vec![bar, window("baz")]), session("other", vec![window("x")])],
        None,
    );
    let initial = state_of(&[("foo", &["baz"])]);
    let first = startup_tmux(&config, &options(), initial.clone(), &NameMap::new(), false);
    assert_eq!(first.executed_commands().len(), 5);
    let after = final_state(&first, &initial);
    let second = startup_tmux(&config, &options(), after.clone(), &NameMap::new(), false);
    assert_eq!(second.executed_commands(), vec!["tmux attach"]);
    assert!(second.steps.iter().all(|step| step.commands.is_empty()));
    assert_state(&final_state(&second, &after), &[("foo", &["bar", "baz"]), ("other", &["x"])]);
}

#[test]
fn missing_window_goes_between_its_neighbours() {
    let config = config_with(vec![session("s", vec![window("A"), window("B"), window("C")])], None);
    let initial = state_of(&[("s", &["A", "C"])]);
    let plan = startup_tmux(&config, &options(), initial.clone(), &NameMap::new(), true);
    assert_eq!(plan.executed_commands(), vec!["tmux -L [SOCKET_NAME] new-window -t s:2 -n B -b"]);
    assert_state(&final_state(&plan, &initial), &[("s", &["A", "B", "C"])]);
}

#[test]
fn fresh_session_is_created_with_its_first_window() {
    let config =
        config_with(vec![session("foo", vec![window("bar"), window("baz"), window("qux")])], None);
    let mut opts = options();
    opts.attach = Some(false);
    let plan = startup_tmux(&config, &opts, TmuxState::new(), &NameMap::new(), false);
    assert_eq!(
        plan.executed_commands(),
        vec![
            "tmux -L [SOCKET_NAME] new-session -d -s foo -n bar",
            "tmux -L [SOCKET_NAME] new-window -t foo:2 -n baz -b",
            "tmux -L [SOCKET_NAME] new-window -t foo:3 -n qux -b",
        ]
    );
}

#[test]
fn existing_window_gets_no_keys() {
    let mut bar = window("bar");
    bar.command = Some(Command::Single("make watch".to_string()));
    let mut baz = window("baz");
    baz.command = Some(Command::Single("htop".to_string()));
    let config = config_with(vec![session("foo", vec![bar, baz])], None);
    let initial = state_of(&[("foo", &["bar"])]);
    let plan = startup_tmux(&config, &options(), initial, &NameMap::new(), true);
    assert_eq!(
        plan.executed_commands(),
        vec![
            "tmux -L [SOCKET_NAME] new-window -t foo:2 -n baz -b",
            "tmux -L [SOCKET_NAME] send-keys -t foo:baz htop Enter",
        ]
    );
}

#[test]
fn unknown_linked_crate_stops_the_run_before_its_window() {
    let mut broken = window("editor");
    broken.linked_crates = Some(vec!["missing".to_string()]);
    let config = config_with(vec![session("foo", vec![window("bar"), broken, window("last")])], None);
    let plan = startup_tmux(&config, &options(), TmuxState::new(), &NameMap::new(), false);
    assert_eq!(plan.steps.len(), 1);
    assert_eq!(
        plan.steps[0].commands[0].debug_string(),
        "tmux -L [SOCKET_NAME] new-session -d -s foo -n bar"
    );
    assert_eq!(
        plan.failure,
        Some(TmuxError::CrateNotFound { crate_name: "missing".to_string(), window: "editor".to_string() })
    );
    assert!(plan.attach.is_none());
    let message = plan.failure.unwrap().message();
    assert!(message.contains("missing") && message.contains("editor"));
}

#[test]
fn unknown_linked_crate_of_existing_window_is_not_planned() {
    let mut editor = window("editor");
    editor.linked_crates = Some(vec!["missing".to_string()]);
    let config = config_with(vec![session("foo", vec![editor])], None);
    let plan = startup_tmux(&config, &options(), state_of(&[("foo", &["editor"])]), &NameMap::new(), true);
    assert!(plan.failure.is_none());
    assert_eq!(plan.executed_commands().len(), 0);
}

#[test]
fn attach_follows_preference_and_tmux_presence() {
    let config = config_with(vec![session("foo", vec![window("bar")])], Some("foo"));
    let mut opts = options();
    assert_eq!(maybe_attach_tmux(&config, &opts, false).unwrap().debug_string(), "tmux attach -t foo");
    assert!(maybe_attach_tmux(&config, &opts, true).is_none());
    opts.attach = Some(true);
    assert!(maybe_attach_tmux(&config, &opts, true).is_some());
    opts.attach = Some(false);
    assert!(maybe_attach_tmux(&config, &opts, false).is_none());
    let no_default = config_with(vec![session("foo", vec![window("bar")])], None);
    opts.attach = None;
    assert_eq!(maybe_attach_tmux(&no_default, &opts, false).unwrap().debug_string(), "tmux attach");
}

#[test]
fn dry_run_plans_the_same_commands() {
    let config = config_with(
        vec![session("one", vec![window("a"), window("b")]), session("two", vec![window("c")])],
        None,
    );
    let live = options();
    let mut dry = options();
    dry.dry_run = true;
    let initial = TmuxState::new();
    let live_plan = startup_tmux(&config, &live, initial.clone(), &NameMap::new(), false);
    let dry_plan = startup_tmux(&config, &dry, initial.clone(), &NameMap::new(), false);
    assert_eq!(live_plan.executed_commands(), dry_plan.executed_commands());
    assert_eq!(dry_plan.executed_commands().len(), 4);
    assert!(compare_presumed_vs_actual_state(&initial, &TmuxState::new()));
}

#[test]
fn duplicate_window_name_is_skipped() {
    let config = config_with(vec![session("foo", vec![window("a"), window("a"), window("b")])], None);
    let state = TmuxState::new();
    let plan = startup_tmux(&config, &options(), state.clone(), &NameMap::new(), true);
    assert_eq!(
        plan.executed_commands(),
        vec![
            "tmux -L [SOCKET_NAME] new-session -d -s foo -n a",
            "tmux -L [SOCKET_NAME] new-window -t foo:3 -n b -b",
        ]
    );
    assert_state(&final_state(&plan, &state), &[("foo", &["a", "b"])]);
}

#[test]
fn no_tmux_configuration_plans_nothing() {
    let config = Config { tmux: None, shell_caching: None, crate_locations: None };
    let plan = startup_tmux(&config, &options(), TmuxState::new(), &NameMap::new(), false);
    assert!(plan.steps.is_empty() && plan.failure.is_none() && plan.attach.is_none());
}

#[test]
fn ensure_window_updates_tracked_state() {
    let mut state = state_of(&[("foo", &["a", "c"])]);
    let socket = "sock".to_string();
    let cmds = ensure_window(&"foo".to_string(), &window("b"), 1, &NameMap::new(), &mut state, &socket)
        .unwrap();
    assert_eq!(cmds.len(), 1);
    assert_eq!(cmds[0].debug_string(), "tmux -L sock new-window -t foo:2 -n b -b");
    assert_state(&state, &[("foo", &["a", "b", "c"])]);
    let again = ensure_window(&"foo".to_string(), &window("b"), 1, &NameMap::new(), &mut state, &socket)
        .unwrap();
    assert!(again.is_empty());
}

#[test]
fn socket_name_defaults() {
    let mut opts = options();
    assert_eq!(get_socket_name(&opts), "[SOCKET_NAME]");
    opts.socket_name = None;
    assert_eq!(get_socket_name(&opts), "default");
    assert_eq!(opts.socket_name(), None);
    assert!(opts.is_testing() && !opts.is_dry_run() && !opts.is_debug());
    assert_eq!(opts.should_attach(), None);
    assert_eq!(opts.config_file(), None);
}

#[test]
fn state_comparison_sees_order_and_names() {
    let a = state_of(&[("foo", &["a", "b"]), ("bar", &["x"])]);
    let b = state_of(&[("bar", &["x"]), ("foo", &["a", "b"])]);
    let c = state_of(&[("foo", &["b", "a"]), ("bar", &["x"])]);
    let d = state_of(&[("foo", &["a", "b"])]);
    assert!(compare_presumed_vs_actual_state(&a, &b));
    assert!(!compare_presumed_vs_actual_state(&a, &c));
    assert!(!compare_presumed_vs_actual_state(&a, &d));
    assert!(!compare_presumed_vs_actual_state(&d, &a));
}

#[test]
fn listings_split_into_lines() {
    assert_eq!(listed_names("foo\nbar\n"), vec!["foo".to_string(), "bar".to_string()]);
    assert_eq!(listed_names("foo\r\nbar"), vec!["foo".to_string(), "bar".to_string()]);
    assert_eq!(listed_names("a\n\nb\n"), vec!["a".to_string(), "".to_string(), "b".to_string()]);
    assert_eq!(listed_names("tail\r"), vec!["tail\r".to_string()]);
    assert!(listed_names("").is_empty());
    for text in ["x\ny\r\n\nz", "\n", "one", "a\rb\n"] {
        assert_eq!(listed_names(text), text.lines().map(|l| l.to_string()).collect::<Vec<_>>());
    }
}
