use binutils_tmux::command_line::{has_char, CommandLine};
use binutils_tmux::name_map::NameMap;
use binutils_tmux::text::{decimal_string, starts_with, text_eq, text_less, trimmed, trimmed_end, trimmed_start, white_space};

#[test]
fn decimal_rendering() {
    assert_eq!(decimal_string(0), "0");
    assert_eq!(decimal_string(7), "7");
    assert_eq!(decimal_string(10), "10");
    assert_eq!(decimal_string(12345), "12345");
}

#[test]
fn text_order_and_equality() {
    assert!(text_less("BAZ", "FOO"));
    assert!(!text_less("FOO", "BAZ"));
    assert!(text_less("ab", "abc"));
    assert!(!text_less("abc", "abc"));
    assert!(text_less("", "a"));
    assert!(text_eq("same", "same"));
    assert!(!text_eq("same", "sam"));
}

#[test]
fn name_map_keeps_names_ordered_and_unique() {
    let mut m = NameMap::new();
    m.insert("FOO".to_string(), "bar".to_string());
    m.insert("BAZ".to_string(), "qux".to_string());
    m.insert("MID".to_string(), "1".to_string());
    m.insert("FOO".to_string(), "again".to_string());
    assert_eq!(m.len(), 3);
    assert_eq!(m.key_at(0), "BAZ");
    assert_eq!(m.key_at(1), "FOO");
    assert_eq!(m.key_at(2), "MID");
    assert_eq!(m.value_at(1), "again");
    assert_eq!(m.get("MID"), Some(&"1".to_string()));
    assert_eq!(m.get("NONE"), None);
    let copy = m.clone();
    assert_eq!(copy, m);
}

#[test]
fn command_records_quote_arguments() {
    let cmd = CommandLine {
        program: "tmux".to_string(),
        args: vec![
            "plain".to_string(),
            "has space".to_string(),
            "it's".to_string(),
            "it's here".to_string(),
            "say \"hi\"".to_string(),
            "a\"b".to_string(),
        ],
    };
    assert_eq!(
        cmd.debug_string(),
        "tmux plain 'has space' \"it's\" 'it\\'s here' 'say \"hi\"' 'a\"b'"
    );
    let quoted = CommandLine { program: "sh".to_string(), args: vec!["x\"y's".to_string()] };
    assert_eq!(quoted.debug_string(), "sh 'x\"y\\'s'");
    let only_single = CommandLine { program: "sh".to_string(), args: vec!["'a'".to_string()] };
    assert_eq!(only_single.debug_string(), "sh \"'a'\"");
    let none = CommandLine { program: "tmux".to_string(), args: vec![] };
    assert_eq!(none.debug_string(), "tmux");
}

#[test]
fn trimming_and_prefixes() {
    assert_eq!(trimmed_start("  \t x y "), "x y ");
    assert_eq!(trimmed_end(" x y \n"), " x y");
    assert_eq!(trimmed("\u{3000} x \u{a0}"), "x");
    assert_eq!(trimmed("   "), "");
    assert!(starts_with("# CMD: x", "# CMD:"));
    assert!(!starts_with("# CM", "# CMD:"));
    assert!(white_space('\u{2028}') && white_space('\n') && !white_space('x'));
    assert!(has_char("a b", ' ') && !has_char("ab", ' '));
}
