use binutils_tmux::config::{Command, Window};
use binutils_tmux::name_map::NameMap;
use binutils_tmux::planner::{determine_commands_for_window, TmuxError};

fn test_window(command: Option<Command>, linked_crates: Option<Vec<String>>) -> Window {
    Window { path: None, env: None, name: "test_window".to_string(), command, linked_crates }
}

#[test]
fn determine_commands_for_window_single_command() {
    let window = test_window(Some(Command::Single("echo Hello".to_string())), None);
    let crates = NameMap::new();
    let result = determine_commands_for_window(&window, &crates).unwrap();
    assert_eq!(result, Some(vec!["echo Hello".to_string()]));
}

#[test]
fn determine_commands_for_window_single_command_and_linked_crates() {
    let window = test_window(
        Some(Command::Single("echo Hello".to_string())),
        Some(vec!["crate1".to_string()]),
    );
    let mut crates = NameMap::new();
    crates.insert("crate1".to_string(), "/path/to/crate1".to_string());
    let result = determine_commands_for_window(&window, &crates).unwrap();
    assert_eq!(
        result,
        Some(vec!["export PATH=\"/path/to/crate1:$PATH\"".to_string(), "echo Hello".to_string()])
    );
}

#[test]
fn determine_commands_for_window_multiple_commands() {
    let window = test_window(
        Some(Command::Multiple(vec!["echo Hello".to_string(), "echo World".to_string()])),
        None,
    );
    let crates = NameMap::new();
    let result = determine_commands_for_window(&window, &crates).unwrap();
    assert_eq!(result, Some(vec!["echo Hello".to_string(), "echo World".to_string()]));
}

#[test]
fn determine_commands_for_window_no_command_with_linked_crates() {
    let window = test_window(None, Some(vec!["crate1".to_string()]));
    let mut crates = NameMap::new();
    crates.insert("crate1".to_string(), "/path/to/crate1".to_string());
    let result = determine_commands_for_window(&window, &crates).unwrap();
    assert_eq!(result, Some(vec!["export PATH=\"/path/to/crate1:$PATH\"".to_string()]));
}

#[test]
fn determine_commands_for_window_no_command_no_linked_crates() {
    let window = test_window(None, None);
    let crates = NameMap::new();
    let result = determine_commands_for_window(&window, &crates).unwrap();
    assert_eq!(result, None);
}

#[test]
fn determine_commands_for_window_missing_crate() {
    let window = test_window(None, Some(vec!["missing_crate".to_string()]));
    let crates = NameMap::new();
    let result = determine_commands_for_window(&window, &crates);
    assert_eq!(
        result.clone().map_err(|e| e.message()),
        Err("Could not find crate: missing_crate for linking into test_window".to_string())
    );
    assert_eq!(
        result,
        Err(TmuxError::CrateNotFound {
            crate_name: "missing_crate".to_string(),
            window: "test_window".to_string(),
        })
    );
}

#[test]
fn linked_crates_come_first_in_declared_order() {
    let window = test_window(
        Some(Command::Multiple(vec!["run".to_string()])),
        Some(vec!["b".to_string(), "a".to_string()]),
    );
    let mut crates = NameMap::new();
    crates.insert("a".to_string(), "/a".to_string());
    crates.insert("b".to_string(), "/b".to_string());
    let result = determine_commands_for_window(&window, &crates).unwrap();
    assert_eq!(
        result,
        Some(vec![
            "export PATH=\"/b:$PATH\"".to_string(),
            "export PATH=\"/a:$PATH\"".to_string(),
            "run".to_string(),
        ])
    );
}

#[test]
fn first_missing_crate_is_named() {
    let window = test_window(None, Some(vec!["a".to_string(), "x".to_string(), "y".to_string()]));
    let mut crates = NameMap::new();
    crates.insert("a".to_string(), "/a".to_string());
    let result = determine_commands_for_window(&window, &crates);
    assert_eq!(
        result,
        Err(TmuxError::CrateNotFound { crate_name: "x".to_string(), window: "test_window".to_string() })
    );
}

#[test]
fn empty_lists_plan_nothing() {
    let window = test_window(Some(Command::Multiple(vec![])), Some(vec![]));
    assert_eq!(determine_commands_for_window(&window, &NameMap::new()).unwrap(), None);
}
