use binutils_tmux::config::{Config, ShellCache};
use binutils_tmux::dotfiles::{verify_remote_matches, RemoteMismatch};
use binutils_tmux::latest_bin::{get_crate_root, needs_rebuild, should_include, CrateRootNotFound};
use binutils_tmux::shell_cache::{
    command_output_lines, fetch_output_lines, parse_line, select_directories, LineAction, ShellCacheError,
};

#[test]
fn test_parse_command() {
    let expected = LineAction::Command { command: "echo hello".to_string(), silent: false };
    assert_eq!(parse_line("# CMD: echo hello"), expected);
    assert_eq!(parse_line("   # CMD: echo hello"), expected);
}

#[test]
fn test_parse_command_silent() {
    let expected = LineAction::Command { command: "echo hello".to_string(), silent: true };
    assert_eq!(parse_line("# CMD_SILENT: echo hello"), expected);
    assert_eq!(parse_line("     # CMD_SILENT: echo hello"), expected);
}

#[test]
fn test_parse_fetch() {
    assert_eq!(parse_line("# FETCH: http://example.com"), LineAction::Fetch("http://example.com".to_string()));
    assert_eq!(parse_line("    # FETCH: http://example.com"), LineAction::Fetch("http://example.com".to_string()));
}

#[test]
fn test_parse_other() {
    assert_eq!(parse_line("This is a regular line"), LineAction::Other("This is a regular line".to_string()));
    assert_eq!(
        parse_line("      This is a regular line"),
        LineAction::Other("      This is a regular line".to_string())
    );
}

#[test]
fn output_lines_wrap_the_output() {
    assert_eq!(
        command_output_lines("echo 'hello world'", false, "hello world\n"),
        vec![
            "# CMD: echo 'hello world'".to_string(),
            "# OUTPUT START: echo 'hello world'\nhello world\n\n# OUTPUT END: echo 'hello world'".to_string(),
        ]
    );
    assert_eq!(command_output_lines("echo x", true, "x\n"), vec!["x\n".to_string()]);
    assert_eq!(
        fetch_output_lines("http://h/t", "body"),
        vec![
            "# FETCH: http://h/t".to_string(),
            "# FETCHED CONTENT START: http://h/t\nbody\n# FETCHED CONTENT END: http://h/t".to_string(),
        ]
    );
}

#[test]
fn directories_come_from_arguments_then_configuration() {
    let none = Config { tmux: None, shell_caching: None, crate_locations: None };
    assert_eq!(select_directories(None, Some("d".to_string()), &none), Err(ShellCacheError::MissingSource));
    assert_eq!(
        select_directories(Some("s".to_string()), None, &none),
        Err(ShellCacheError::MissingDestination)
    );
    let configured = Config {
        tmux: None,
        shell_caching: Some(ShellCache { source: "~/foo".to_string(), destination: "~/foo/dist".to_string() }),
        crate_locations: None,
    };
    assert_eq!(
        select_directories(None, None, &configured),
        Ok(("~/foo".to_string(), "~/foo/dist".to_string()))
    );
    assert_eq!(
        select_directories(Some("a".to_string()), None, &configured),
        Ok(("a".to_string(), "~/foo/dist".to_string()))
    );
    assert!(ShellCacheError::MissingSource.message().starts_with("No source directory provided"));
}

#[test]
fn remote_url_is_compared_after_trimming() {
    assert_eq!(verify_remote_matches("https://x.git\n", "https://x.git"), Ok(()));
    let err = verify_remote_matches("https://y.git\n", "https://x.git").unwrap_err();
    assert_eq!(err, RemoteMismatch { remote: "https://y.git".to_string(), expected: "https://x.git".to_string() });
    assert!(err.message().contains("does not match expected URL"));
}

#[test]
fn crate_root_is_the_nearest_marked_ancestor() {
    let ancestors = vec![
        ("/w/crate/target/debug".to_string(), false),
        ("/w/crate".to_string(), true),
        ("/w".to_string(), true),
    ];
    assert_eq!(get_crate_root(&ancestors), Ok("/w/crate".to_string()));
    assert_eq!(get_crate_root(&vec![("/".to_string(), false)]), Err(CrateRootNotFound));
    assert_eq!(CrateRootNotFound.message(), "Failed to find workspace root");
}

#[test]
fn rebuild_when_a_source_is_newer() {
    assert!(needs_rebuild(10, &vec![3, 11, 5]));
    assert!(!needs_rebuild(10, &vec![3, 10, 5]));
    assert!(!needs_rebuild(10, &vec![]));
    assert!(!should_include(true, false, "target"));
    assert!(!should_include(true, false, ".git"));
    assert!(should_include(true, false, "src"));
    assert!(!should_include(false, true, "Cargo.lock"));
    assert!(should_include(false, true, "Cargo.toml"));
    assert!(should_include(false, false, "target"));
}
