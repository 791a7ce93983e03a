//! The command lines typed into a window right after it is created.
use vstd::prelude::*;

use crate::command_line::texts;
use crate::config::{Command, Window};
use crate::name_map::NameMap;
use crate::text::push_text;

verus! {

/// What stops a tmux setup run.
#[derive(Debug, Clone, PartialEq, Eq)]
pub enum TmuxError {
    /// A window links a crate that no crate location provides.
    CrateNotFound { crate_name: String, window: String },
}

impl TmuxError {
    /// The text that reports the error.
    pub fn message(&self) -> (r: String)
        ensures
            self matches TmuxError::CrateNotFound { crate_name, window } ==> r@
                == "Could not find crate: "@ + crate_name@ + " for linking into "@ + window@,
    {
        match self {
            TmuxError::CrateNotFound { crate_name, window } => {
                let mut r = String::new();
                push_text(&mut r, "Could not find crate: ");
                push_text(&mut r, crate_name.as_str());
                push_text(&mut r, " for linking into ");
                push_text(&mut r, window.as_str());
                r
            },
        }
    }
}

/// The crates a window links, in declared order.
pub open spec fn linked_names(w: Window) -> Seq<Seq<char>> {
    match w.linked_crates {
        Some(v) => texts(v@),
        None => Seq::empty(),
    }
}

/// The window's own command lines, in order.
pub open spec fn own_commands(w: Window) -> Seq<Seq<char>> {
    match w.command {
        Some(Command::Single(c)) => seq![c@],
        Some(Command::Multiple(v)) => texts(v@),
        None => Seq::empty(),
    }
}

/// The first of `names` that `crates` does not hold.
pub open spec fn first_missing(names: Seq<Seq<char>>, crates: Map<Seq<char>, Seq<char>>) -> Option<
    Seq<char>,
>
    decreases names.len(),
{
    if names.len() == 0 {
        None
    } else if !crates.contains_key(names[0]) {
        Some(names[0])
    } else {
        first_missing(names.drop_first(), crates)
    }
}

/// The command line that puts `dir` in front of `$PATH`.
pub open spec fn path_export(dir: Seq<char>) -> Seq<char> {
    "export PATH=\""@ + dir + ":$PATH\""@
}

/// Every command line for a newly created window: one `$PATH` export for each linked crate,
/// then the window's own commands.
pub open spec fn planned_commands(w: Window, crates: Map<Seq<char>, Seq<char>>) -> Seq<Seq<char>> {
    Seq::new(linked_names(w).len(), |i: int| path_export(crates[linked_names(w)[i]])) + own_commands(
        w,
    )
}

/// What planning `w` gives: the error for its first unknown crate, else its command lines.
pub open spec fn plan_matches(
    r: Result<Option<Vec<String>>, TmuxError>,
    w: Window,
    crates: Map<Seq<char>, Seq<char>>,
) -> bool {
    match first_missing(linked_names(w), crates) {
        Some(missing) => r matches Err(TmuxError::CrateNotFound { crate_name, window }) && crate_name@
            == missing && window@ == w.name@,
        None => r matches Ok(c) && if planned_commands(w, crates).len() == 0 {
            c is None
        } else {
            c matches Some(v) && texts(v@) == planned_commands(w, crates)
        },
    }
}

proof fn lemma_first_missing_skip(names: Seq<Seq<char>>, crates: Map<Seq<char>, Seq<char>>, i: int)
    requires
        0 <= i < names.len(),
        crates.contains_key(names[i]),
    ensures
        first_missing(names.skip(i), crates) == first_missing(names.skip(i + 1), crates),
{
    assert(names.skip(i).drop_first() =~= names.skip(i + 1));
}

/// The command lines to type into `window` once it is created, or `None` when there are none.
pub fn determine_commands_for_window(window: &Window, crates: &NameMap) -> (r: Result<
    Option<Vec<String>>,
    TmuxError,
>)
    ensures
        plan_matches(r, *window, crates@),
{
    let mut commands: Vec<String> = Vec::new();
    let ghost names = linked_names(*window);
    if let Some(linked) = &window.linked_crates {
        assert(names == texts(linked@));
        assert(names.skip(0) =~= names);
        let mut i: usize = 0;
        while i < linked.len()
            invariant
                i <= linked@.len(),
                names == texts(linked@),
                names == linked_names(*window),
                first_missing(names, crates@) == first_missing(names.skip(i as int), crates@),
                texts(commands@) == Seq::new(i as nat, |j: int| path_export(crates@[names[j]])),
            decreases linked@.len() - i,
        {
            match crates.get(linked[i].as_str()) {
                Some(dir) => {
                    let mut line = String::new();
                    push_text(&mut line, "export PATH=\"");
                    push_text(&mut line, dir.as_str());
                    push_text(&mut line, ":$PATH\"");
                    assert(line@ =~= path_export(crates@[names[i as int]]));
                    let ghost before = commands@;
                    commands.push(line);
                    proof {
                        assert(texts(commands@) =~= texts(before).push(line@));
                        lemma_first_missing_skip(names, crates@, i as int);
                        assert(texts(commands@) =~= Seq::new(
                            (i + 1) as nat,
                            |j: int| path_export(crates@[names[j]]),
                        ));
                    }
                },
                None => {
                    proof {
                        assert(names[i as int] == linked@[i as int]@);
                        assert(names.skip(i as int)[0] == names[i as int]);
                        assert(first_missing(names.skip(i as int), crates@) == Some(names[i as int]));
                    }
                    let crate_name = linked[i].clone();
                    let name = window.name.clone();
                    assert(crate_name@ == names[i as int]);
                    assert(name@ == window.name@);
                    return Err(TmuxError::CrateNotFound { crate_name, window: name });
                },
            }
            i = i + 1;
        }
        assert(names.skip(i as int).len() == 0);
    }
    let ghost linked_part = texts(commands@);
    match &window.command {
        Some(Command::Single(c)) => {
            commands.push(c.clone());
            assert(texts(commands@) =~= linked_part + own_commands(*window));
        },
        Some(Command::Multiple(cs)) => {
            let mut k: usize = 0;
            while k < cs.len()
                invariant
                    k <= cs@.len(),
                    texts(commands@) == linked_part + texts(cs@).take(k as int),
                decreases cs@.len() - k,
            {
                let ghost before = commands@;
                let c = cs[k].clone();
                assert(c@ == texts(cs@)[k as int]);
                commands.push(c);
                assert(texts(commands@) =~= texts(before).push(c@));
                assert(texts(commands@) =~= linked_part + texts(cs@).take(k + 1));
                k = k + 1;
            }
            assert(texts(cs@).take(k as int) =~= texts(cs@));
        },
        None => {
            assert(texts(commands@) =~= linked_part + own_commands(*window));
        },
    }
    assert(texts(commands@) =~= planned_commands(*window, crates@));
    if commands.len() == 0 {
        Ok(None)
    } else {
        Ok(Some(commands))
    }
}

} // verus!
