//! The line rules of the shell-startup cache: which lines of a shell file run a command or
//! fetch a URL, and the lines that replace them.
use vstd::prelude::*;

use crate::config::Config;
use crate::text::{push_text, starts_with, trim, trim_start, trimmed, trimmed_start};

verus! {

/// What one line of a shell file asks for.
#[derive(Debug, Clone, PartialEq, Eq)]
pub enum LineAction {
    /// Run `command` and put its output in place; `silent` leaves out the markers.
    Command { command: String, silent: bool },
    /// Fetch the URL and put the body in place.
    Fetch(String),
    /// Keep the line as it is.
    Other(String),
}

/// The meaning of `line`: after leading white space, `# CMD:`, `# CMD_SILENT:` or `# FETCH:`
/// followed by the trimmed command or URL; any other line is kept whole.
pub open spec fn line_action_matches(r: LineAction, line: Seq<char>) -> bool {
    let t = trim_start(line);
    if "# CMD:"@.is_prefix_of(t) {
        r matches LineAction::Command { command, silent } && !silent && command@ == trim(
            t.skip("# CMD:"@.len() as int),
        )
    } else if "# CMD_SILENT:"@.is_prefix_of(t) {
        r matches LineAction::Command { command, silent } && silent && command@ == trim(
            t.skip("# CMD_SILENT:"@.len() as int),
        )
    } else if "# FETCH:"@.is_prefix_of(t) {
        r matches LineAction::Fetch(url) && url@ == trim(t.skip("# FETCH:"@.len() as int))
    } else {
        r matches LineAction::Other(l) && l@ == line
    }
}

fn rest_trimmed(t: &str, marker: &str) -> (r: String)
    requires
        marker@.is_prefix_of(t@),
    ensures
        r@ == trim(t@.skip(marker@.len() as int)),
{
    let rest = t.substring_char(marker.unicode_len(), t.unicode_len());
    assert(rest@ =~= t@.skip(marker@.len() as int));
    String::from_str(trimmed(rest))
}

/// Reads what `line` asks for.
pub fn parse_line(line: &str) -> (r: LineAction)
    ensures
        line_action_matches(r, line@),
{
    let t = trimmed_start(line);
    if starts_with(t, "# CMD:") {
        LineAction::Command { command: rest_trimmed(t, "# CMD:"), silent: false }
    } else if starts_with(t, "# CMD_SILENT:") {
        LineAction::Command { command: rest_trimmed(t, "# CMD_SILENT:"), silent: true }
    } else if starts_with(t, "# FETCH:") {
        LineAction::Fetch(rest_trimmed(t, "# FETCH:"))
    } else {
        LineAction::Other(String::from_str(line))
    }
}

/// The lines that replace a command line once `command` printed `output`: the marker and the
/// output between start and end markers, or the output alone when `silent`.
pub fn command_output_lines(command: &str, silent: bool, output: &str) -> (r: Vec<String>)
    ensures
        silent ==> r@.len() == 1 && r@[0]@ == output@,
        !silent ==> r@.len() == 2 && r@[0]@ == "# CMD: "@ + command@ && r@[1]@ == "# OUTPUT START: "@
            + command@ + "\n"@ + output@ + "\n"@ + "# OUTPUT END: "@ + command@,
{
    let mut r: Vec<String> = Vec::new();
    if silent {
        r.push(String::from_str(output));
    } else {
        let mut marker = String::new();
        push_text(&mut marker, "# CMD: ");
        push_text(&mut marker, command);
        let mut block = String::new();
        push_text(&mut block, "# OUTPUT START: ");
        push_text(&mut block, command);
        push_text(&mut block, "\n");
        push_text(&mut block, output);
        push_text(&mut block, "\n");
        push_text(&mut block, "# OUTPUT END: ");
        push_text(&mut block, command);
        r.push(marker);
        r.push(block);
    }
    r
}

/// The lines that replace a fetch line once `url` answered with `content`.
pub fn fetch_output_lines(url: &str, content: &str) -> (r: Vec<String>)
    ensures
        r@.len() == 2,
        r@[0]@ == "# FETCH: "@ + url@,
        r@[1]@ == "# FETCHED CONTENT START: "@ + url@ + "\n"@ + content@ + "\n"@
            + "# FETCHED CONTENT END: "@ + url@,
{
    let mut marker = String::new();
    push_text(&mut marker, "# FETCH: ");
    push_text(&mut marker, url);
    let mut block = String::new();
    push_text(&mut block, "# FETCHED CONTENT START: ");
    push_text(&mut block, url);
    push_text(&mut block, "\n");
    push_text(&mut block, content);
    push_text(&mut block, "\n");
    push_text(&mut block, "# FETCHED CONTENT END: ");
    push_text(&mut block, url);
    let mut r: Vec<String> = Vec::new();
    r.push(marker);
    r.push(block);
    r
}

/// A directory that the cache needs was given neither as an argument nor in the configuration.
#[derive(Debug, Clone, PartialEq, Eq)]
pub enum ShellCacheError {
    MissingSource,
    MissingDestination,
}

impl ShellCacheError {
    /// The text that reports the error.
    pub fn message(&self) -> (r: String)
        ensures
            r@ == "No source directory provided. Either use the --source flag or set it in the config file"@,
    {
        String::from_str("No source directory provided. Either use the --source flag or set it in the config file")
    }
}

/// The source and destination directories of a cache run: each from its argument where given,
/// else from the configuration's `shell_caching`.
pub fn select_directories(
    source: Option<String>,
    destination: Option<String>,
    config: &Config,
) -> (r: Result<(String, String), ShellCacheError>)
    ensures
        ({
            let src = match source {
                Some(s) => Some(s@),
                None => match config.shell_caching {
                    Some(c) => Some(c.source@),
                    None => None,
                },
            };
            let dst = match destination {
                Some(d) => Some(d@),
                None => match config.shell_caching {
                    Some(c) => Some(c.destination@),
                    None => None,
                },
            };
            match (src, dst) {
                (None, _) => r == Err::<(String, String), _>(ShellCacheError::MissingSource),
                (Some(_), None) => r == Err::<(String, String), _>(ShellCacheError::MissingDestination),
                (Some(s), Some(d)) => r matches Ok((rs, rd)) && rs@ == s && rd@ == d,
            }
        }),
{
    let source_dir = match source {
        Some(s) => s,
        None => match &config.shell_caching {
            Some(c) => c.source.clone(),
            None => {
                return Err(ShellCacheError::MissingSource);
            },
        },
    };
    let destination_dir = match destination {
        Some(d) => d,
        None => match &config.shell_caching {
            Some(c) => c.destination.clone(),
            None => {
                return Err(ShellCacheError::MissingDestination);
            },
        },
    };
    Ok((source_dir, destination_dir))
}

} // verus!
