//! External command lines, and the text that records them.
use vstd::prelude::*;

use crate::text::{push_char, push_text};

verus! {

/// A program with its arguments, as it would be typed on a shell line.
#[derive(Debug, Clone, PartialEq, Eq)]
pub struct CommandLine {
    pub program: String,
    pub args: Vec<String>,
}

/// The views of a sequence of strings.
pub open spec fn texts(v: Seq<String>) -> Seq<Seq<char>> {
    v.map_values(|s: String| s@)
}

/// `a` with a backslash put before each occurrence of `q`.
pub open spec fn escape_with(a: Seq<char>, q: char) -> Seq<char>
    decreases a.len(),
{
    if a.len() == 0 {
        Seq::empty()
    } else {
        escape_with(a.drop_last(), q) + if a.last() == q {
            seq!['\\', q]
        } else {
            seq![a.last()]
        }
    }
}

/// How an argument is written in a command record: in single quotes when it holds a space
/// or a double quote, else in double quotes when it holds a single quote, else as it is.
pub open spec fn quote_arg(a: Seq<char>) -> Seq<char> {
    if a.contains(' ') || a.contains('"') {
        seq!['\''] + escape_with(a, '\'') + seq!['\'']
    } else if a.contains('\'') {
        seq!['"'] + escape_with(a, '"') + seq!['"']
    } else {
        a
    }
}

/// Each argument preceded by one space and quoted as [`quote_arg`] says.
pub open spec fn render_args(args: Seq<Seq<char>>) -> Seq<char>
    decreases args.len(),
{
    if args.len() == 0 {
        Seq::empty()
    } else {
        render_args(args.drop_last()) + seq![' '] + quote_arg(args.last())
    }
}

/// The record of a command: the program followed by its rendered arguments.
pub open spec fn render_command(program: Seq<char>, args: Seq<Seq<char>>) -> Seq<char> {
    program + render_args(args)
}

/// Whether `s` holds the character `c`.
pub fn has_char(s: &str, c: char) -> (r: bool)
    ensures
        r == s@.contains(c),
{
    let n = s.unicode_len();
    let mut i: usize = 0;
    while i < n
        invariant
            i <= n,
            n == s@.len(),
            forall|j: int| 0 <= j < i ==> s@[j] != c,
        decreases n - i,
    {
        if s.get_char(i) == c {
            return true;
        }
        i = i + 1;
    }
    false
}

/// Appends `a` to `out` with a backslash before each `q`.
fn push_escaped(out: &mut String, a: &str, q: char)
    ensures
        final(out)@ == old(out)@ + escape_with(a@, q),
{
    let n = a.unicode_len();
    let mut i: usize = 0;
    while i < n
        invariant
            i <= n,
            n == a@.len(),
            out@ == old(out)@ + escape_with(a@.take(i as int), q),
        decreases n - i,
    {
        let c = a.get_char(i);
        proof {
            assert(a@.take(i + 1).drop_last() =~= a@.take(i as int));
        }
        if c == q {
            push_char(out, '\\');
        }
        push_char(out, c);
        i = i + 1;
    }
    assert(a@.take(n as int) =~= a@);
}

/// Appends one space and the quoted form of `a` to `out`.
fn push_quoted(out: &mut String, a: &str)
    ensures
        final(out)@ == old(out)@ + seq![' '] + quote_arg(a@),
{
    push_char(out, ' ');
    if has_char(a, ' ') || has_char(a, '"') {
        push_char(out, '\'');
        push_escaped(out, a, '\'');
        push_char(out, '\'');
    } else if has_char(a, '\'') {
        push_char(out, '"');
        push_escaped(out, a, '"');
        push_char(out, '"');
    } else {
        push_text(out, a);
    }
}

impl CommandLine {
    /// The argument list, as text.
    pub open spec fn arg_texts(&self) -> Seq<Seq<char>> {
        texts(self.args@)
    }

    /// The program followed by each argument, quoted so that the line reads as typed.
    pub fn debug_string(&self) -> (r: String)
        ensures
            r@ == render_command(self.program@, self.arg_texts()),
    {
        let mut out = String::new();
        push_text(&mut out, self.program.as_str());
        let mut i: usize = 0;
        while i < self.args.len()
            invariant
                i <= self.args@.len(),
                out@ == render_command(self.program@, self.arg_texts().take(i as int)),
            decreases self.args@.len() - i,
        {
            push_quoted(&mut out, self.args[i].as_str());
            proof {
                assert(self.arg_texts().take(i + 1).drop_last() =~= self.arg_texts().take(i as int));
            }
            i = i + 1;
        }
        assert(self.arg_texts().take(i as int) =~= self.arg_texts());
        out
    }
}

} // verus!
