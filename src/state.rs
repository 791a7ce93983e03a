//! What a tmux server holds: its sessions, each with its windows left to right.
use vstd::prelude::*;

use crate::command_line::texts;
use crate::text::{push_char, text_eq};

verus! {

/// One session and the names of its windows, in on-screen order.
#[derive(Debug, Clone, PartialEq, Eq)]
pub struct SessionWindows {
    pub name: String,
    pub windows: Vec<String>,
}

/// The sessions of a tmux server. Where two entries share a name, the first one counts.
#[derive(Debug, Clone, PartialEq, Eq)]
pub struct TmuxState {
    pub sessions: Vec<SessionWindows>,
}

/// The session and window names of one entry.
pub open spec fn entry_view(e: SessionWindows) -> (Seq<char>, Seq<Seq<char>>) {
    (e.name@, texts(e.windows@))
}

/// The session and window names of each entry.
pub open spec fn entries_of(v: Seq<SessionWindows>) -> Seq<(Seq<char>, Seq<Seq<char>>)> {
    v.map_values(|e: SessionWindows| entry_view(e))
}

/// The windows of the first entry named `k`.
pub open spec fn lookup(s: Seq<(Seq<char>, Seq<Seq<char>>)>, k: Seq<char>) -> Option<Seq<Seq<char>>>
    decreases s.len(),
{
    if s.len() == 0 {
        None
    } else if s[0].0 == k {
        Some(s[0].1)
    } else {
        lookup(s.drop_first(), k)
    }
}

/// The map from session name to window names that a list of entries describes.
pub open spec fn state_map(s: Seq<(Seq<char>, Seq<Seq<char>>)>) -> Map<Seq<char>, Seq<Seq<char>>> {
    Map::new(|k: Seq<char>| lookup(s, k) is Some, |k: Seq<char>| lookup(s, k)->0)
}

/// `w` put at position `pos` of `s`, or at its end where `s` is shorter than `pos`.
pub open spec fn insert_clamped(s: Seq<Seq<char>>, pos: nat, w: Seq<char>) -> Seq<Seq<char>> {
    if pos <= s.len() {
        s.insert(pos as int, w)
    } else {
        s.push(w)
    }
}

proof fn lemma_lookup_first(s: Seq<(Seq<char>, Seq<Seq<char>>)>, i: int, k: Seq<char>)
    requires
        0 <= i < s.len(),
        s[i].0 == k,
        forall|j: int| 0 <= j < i ==> s[j].0 != k,
    ensures
        lookup(s, k) == Some(s[i].1),
    decreases i,
{
    if i > 0 {
        lemma_lookup_first(s.drop_first(), i - 1, k);
    }
}

proof fn lemma_lookup_has(s: Seq<(Seq<char>, Seq<Seq<char>>)>, i: int, k: Seq<char>)
    requires
        0 <= i < s.len(),
        s[i].0 == k,
    ensures
        lookup(s, k) is Some,
    decreases i,
{
    if i > 0 && s[0].0 != k {
        lemma_lookup_has(s.drop_first(), i - 1, k);
    }
}

proof fn lemma_lookup_none(s: Seq<(Seq<char>, Seq<Seq<char>>)>, k: Seq<char>)
    requires
        forall|j: int| 0 <= j < s.len() ==> s[j].0 != k,
    ensures
        lookup(s, k) is None,
    decreases s.len(),
{
    if s.len() > 0 {
        lemma_lookup_none(s.drop_first(), k);
    }
}

proof fn lemma_lookup_some(s: Seq<(Seq<char>, Seq<Seq<char>>)>, k: Seq<char>)
    requires
        lookup(s, k) is Some,
    ensures
        exists|i: int| 0 <= i < s.len() && #[trigger] s[i].0 == k && lookup(s, k) == Some(s[i].1),
    decreases s.len(),
{
    if s[0].0 != k {
        lemma_lookup_some(s.drop_first(), k);
        let i = choose|i: int|
            0 <= i < s.len() - 1 && #[trigger] s.drop_first()[i].0 == k && lookup(s.drop_first(), k)
                == Some(s.drop_first()[i].1);
        assert(s[i + 1].0 == k);
    }
}

proof fn lemma_lookup_update(
    s: Seq<(Seq<char>, Seq<Seq<char>>)>,
    i: int,
    w: Seq<Seq<char>>,
    k: Seq<char>,
)
    requires
        0 <= i < s.len(),
        forall|j: int| 0 <= j < i ==> s[j].0 != s[i].0,
    ensures
        lookup(s.update(i, (s[i].0, w)), k) == if k == s[i].0 {
            Some(w)
        } else {
            lookup(s, k)
        },
    decreases i,
{
    let t = s.update(i, (s[i].0, w));
    if i == 0 {
        assert(t.drop_first() =~= s.drop_first());
    } else {
        lemma_lookup_update(s.drop_first(), i - 1, w, k);
        assert(t.drop_first() =~= s.drop_first().update(i - 1, (s[i].0, w)));
    }
}

proof fn lemma_lookup_push(s: Seq<(Seq<char>, Seq<Seq<char>>)>, e: (Seq<char>, Seq<Seq<char>>), k: Seq<char>)
    requires
        lookup(s, e.0) is None,
    ensures
        lookup(s.push(e), k) == if k == e.0 {
            Some(e.1)
        } else {
            lookup(s, k)
        },
    decreases s.len(),
{
    if s.len() > 0 {
        lemma_lookup_push(s.drop_first(), e, k);
        assert(s.push(e).drop_first() =~= s.drop_first().push(e));
    } else {
        assert(s.push(e).drop_first() =~= s);
    }
}

/// Whether `a` and `b` hold the same texts in the same order.
pub fn same_texts(a: &Vec<String>, b: &Vec<String>) -> (r: bool)
    ensures
        r == (texts(a@) == texts(b@)),
{
    if a.len() != b.len() {
        assert(texts(a@).len() != texts(b@).len());
        return false;
    }
    let mut i: usize = 0;
    while i < a.len()
        invariant
            i <= a@.len(),
            a@.len() == b@.len(),
            forall|j: int| 0 <= j < i ==> a@[j]@ == b@[j]@,
        decreases a@.len() - i,
    {
        if !text_eq(a[i].as_str(), b[i].as_str()) {
            assert(texts(a@)[i as int] != texts(b@)[i as int]);
            return false;
        }
        i = i + 1;
    }
    assert(texts(a@) =~= texts(b@));
    true
}

fn copy_texts(v: &Vec<String>) -> (r: Vec<String>)
    ensures
        texts(r@) == texts(v@),
{
    let mut r: Vec<String> = Vec::new();
    let mut i: usize = 0;
    while i < v.len()
        invariant
            i <= v@.len(),
            texts(r@) == texts(v@).take(i as int),
        decreases v@.len() - i,
    {
        let ghost before = r@;
        r.push(v[i].clone());
        assert(texts(r@) =~= texts(before).push(v@[i as int]@));
        assert(texts(r@) =~= texts(v@).take(i + 1));
        i = i + 1;
    }
    assert(texts(v@).take(i as int) =~= texts(v@));
    r
}

impl View for TmuxState {
    type V = Map<Seq<char>, Seq<Seq<char>>>;

    open spec fn view(&self) -> Map<Seq<char>, Seq<Seq<char>>> {
        state_map(self.entries())
    }
}

impl TmuxState {
    /// Each entry's session name and window names, in order.
    pub open spec fn entries(&self) -> Seq<(Seq<char>, Seq<Seq<char>>)> {
        entries_of(self.sessions@)
    }

    /// A server with no sessions.
    pub fn new() -> (r: TmuxState)
        ensures
            r@ == Map::<Seq<char>, Seq<Seq<char>>>::empty(),
    {
        let r = TmuxState { sessions: Vec::new() };
        assert(r@ =~= Map::<Seq<char>, Seq<Seq<char>>>::empty());
        r
    }

    /// The position of the entry that counts for the session `name`.
    pub fn find(&self, name: &str) -> (r: Option<usize>)
        ensures
            r is None <==> !self@.contains_key(name@),
            r matches Some(i) ==> {
                &&& i < self.sessions@.len()
                &&& self.entries()[i as int].0 == name@
                &&& self@[name@] == self.entries()[i as int].1
                &&& forall|j: int| 0 <= j < i ==> self.entries()[j].0 != name@
            },
    {
        let mut i: usize = 0;
        while i < self.sessions.len()
            invariant
                i <= self.sessions@.len(),
                forall|j: int| 0 <= j < i ==> self.entries()[j].0 != name@,
            decreases self.sessions@.len() - i,
        {
            if text_eq(self.sessions[i].name.as_str(), name) {
                proof {
                    lemma_lookup_first(self.entries(), i as int, name@);
                }
                return Some(i);
            }
            i = i + 1;
        }
        proof {
            lemma_lookup_none(self.entries(), name@);
        }
        None
    }

    /// The windows of the session `name`, if the server has it.
    pub fn windows_of(&self, name: &str) -> (r: Option<&Vec<String>>)
        ensures
            r is None <==> !self@.contains_key(name@),
            r matches Some(v) ==> self@[name@] == texts(v@),
    {
        match self.find(name) {
            Some(i) => Some(&self.sessions[i].windows),
            None => None,
        }
    }

    /// Sets the windows of the session `name`, adding the session if it is new.
    pub fn set_session(&mut self, name: String, windows: Vec<String>)
        ensures
            final(self)@ == old(self)@.insert(name@, texts(windows@)),
    {
        let ghost s = self.entries();
        let ghost e = (name@, texts(windows@));
        match self.find(name.as_str()) {
            Some(i) => {
                self.sessions.set(i, SessionWindows { name, windows });
                proof {
                    assert(self.entries() =~= s.update(i as int, (s[i as int].0, e.1)));
                    assert forall|k: Seq<char>| #[trigger] lookup(self.entries(), k) == if k == e.0 {
                        Some(e.1)
                    } else {
                        lookup(s, k)
                    } by {
                        lemma_lookup_update(s, i as int, e.1, k);
                    }
                }
            },
            None => {
                self.sessions.push(SessionWindows { name, windows });
                proof {
                    assert(self.entries() =~= s.push(e));
                    assert forall|k: Seq<char>| #[trigger] lookup(self.entries(), k) == if k == e.0 {
                        Some(e.1)
                    } else {
                        lookup(s, k)
                    } by {
                        lemma_lookup_push(s, e, k);
                    }
                }
            },
        }
        assert(self@ =~= state_map(s).insert(e.0, e.1));
    }

    /// Puts the window `window` into the session `name` at position `pos`, or at the end
    /// where the session has fewer windows than `pos`.
    pub fn insert_window(&mut self, name: &str, pos: usize, window: String)
        requires
            old(self)@.contains_key(name@),
        ensures
            final(self)@ == old(self)@.insert(
                name@,
                insert_clamped(old(self)@[name@], pos as nat, window@),
            ),
    {
        let ghost old_view = self@;
        let i = self.find(name).unwrap();
        let mut windows = copy_texts(&self.sessions[i].windows);
        let ghost before = texts(windows@);
        if pos <= windows.len() {
            windows.insert(pos, window);
            assert(texts(windows@) =~= before.insert(pos as int, window@));
        } else {
            windows.push(window);
            assert(texts(windows@) =~= before.push(window@));
        }
        let session = self.sessions[i].name.clone();
        self.set_session(session, windows);
    }

    /// A copy of the state.
    pub fn copy(&self) -> (r: TmuxState)
        ensures
            r@ == self@,
            r.entries() == self.entries(),
    {
        let mut sessions: Vec<SessionWindows> = Vec::new();
        let mut i: usize = 0;
        while i < self.sessions.len()
            invariant
                i <= self.sessions@.len(),
                entries_of(sessions@) == self.entries().take(i as int),
            decreases self.sessions@.len() - i,
        {
            let ghost before = sessions@;
            let e = SessionWindows {
                name: self.sessions[i].name.clone(),
                windows: copy_texts(&self.sessions[i].windows),
            };
            assert(entry_view(e) == self.entries()[i as int]);
            sessions.push(e);
            assert(entries_of(sessions@) =~= entries_of(before).push(entry_view(e)));
            assert(entries_of(sessions@) =~= self.entries().take(i + 1));
            i = i + 1;
        }
        assert(self.entries().take(i as int) =~= self.entries());
        TmuxState { sessions }
    }

    /// Whether `self` and `other` describe the same sessions with the same windows.
    pub fn same_as(&self, other: &TmuxState) -> (r: bool)
        ensures
            r == (self@ == other@),
    {
        if !self.covered_by(other) {
            return false;
        }
        if !other.covered_by(self) {
            return false;
        }
        assert(self@ =~= other@);
        true
    }

    /// Whether every session of `self` is in `other` with the same windows.
    fn covered_by(&self, other: &TmuxState) -> (r: bool)
        ensures
            r <==> forall|k: Seq<char>| #[trigger]
                self@.contains_key(k) ==> other@.contains_key(k) && other@[k] == self@[k],
    {
        let mut i: usize = 0;
        while i < self.sessions.len()
            invariant
                i <= self.sessions@.len(),
                forall|j: int|
                    0 <= j < i ==> other@.contains_key(#[trigger] self.entries()[j].0) && other@[self.entries()[j].0]
                        == self@[self.entries()[j].0],
            decreases self.sessions@.len() - i,
        {
            let name = self.sessions[i].name.as_str();
            proof {
                lemma_lookup_has(self.entries(), i as int, name@);
            }
            let mine = self.windows_of(name).unwrap();
            match other.windows_of(name) {
                Some(theirs) => {
                    if !same_texts(mine, theirs) {
                        return false;
                    }
                },
                None => {
                    return false;
                },
            }
            i = i + 1;
        }
        assert forall|k: Seq<char>| #[trigger] self@.contains_key(k) implies other@.contains_key(k)
            && other@[k] == self@[k] by {
            lemma_lookup_some(self.entries(), k);
            let j = choose|j: int|
                0 <= j < self.entries().len() && #[trigger] self.entries()[j].0 == k && lookup(
                    self.entries(),
                    k,
                ) == Some(self.entries()[j].1);
        }
        true
    }
}

/// `line` without one carriage return at its end.
pub open spec fn strip_cr(line: Seq<char>) -> Seq<char> {
    if line.len() > 0 && line.last() == '\r' {
        line.drop_last()
    } else {
        line
    }
}

/// The lines of `s` after the partial line `cur`, as `str::lines` splits them: at each
/// `\n`, dropping a `\r` just before it; a last line without `\n` is kept unless empty.
pub open spec fn split_lines(s: Seq<char>, cur: Seq<char>) -> Seq<Seq<char>>
    decreases s.len(),
{
    if s.len() == 0 {
        if cur.len() == 0 {
            Seq::empty()
        } else {
            seq![cur]
        }
    } else if s[0] == '\n' {
        seq![strip_cr(cur)] + split_lines(s.drop_first(), Seq::empty())
    } else {
        split_lines(s.drop_first(), cur.push(s[0]))
    }
}

/// The lines of `s`.
pub open spec fn lines_of(s: Seq<char>) -> Seq<Seq<char>> {
    split_lines(s, Seq::empty())
}

/// The names that a tmux listing prints, one per line.
pub fn listed_names(output: &str) -> (r: Vec<String>)
    ensures
        texts(r@) == lines_of(output@),
{
    let n = output.unicode_len();
    let mut names: Vec<String> = Vec::new();
    let mut cur = String::new();
    let mut i: usize = 0;
    assert(output@.skip(0) =~= output@);
    while i < n
        invariant
            i <= n,
            n == output@.len(),
            texts(names@) + split_lines(output@.skip(i as int), cur@) == lines_of(output@),
        decreases n - i,
    {
        let c = output.get_char(i);
        let ghost rest = output@.skip(i as int);
        assert(rest.drop_first() =~= output@.skip(i + 1));
        if c == '\n' {
            let line = without_cr(cur);
            let ghost before = names@;
            names.push(line);
            assert(texts(names@) =~= texts(before).push(line@));
            assert(texts(names@) + split_lines(output@.skip(i + 1), Seq::empty()) =~= texts(before)
                + split_lines(rest, cur@));
            cur = String::new();
        } else {
            push_char(&mut cur, c);
        }
        i = i + 1;
    }
    assert(output@.skip(i as int) =~= Seq::<char>::empty());
    if cur.unicode_len() > 0 {
        let ghost before = names@;
        let ghost last = cur@;
        names.push(cur);
        assert(texts(names@) =~= texts(before) + seq![last]);
    } else {
        assert(texts(names@) =~= texts(names@) + Seq::<Seq<char>>::empty());
    }
    names
}

fn without_cr(line: String) -> (r: String)
    ensures
        r@ == strip_cr(line@),
{
    let n = line.as_str().unicode_len();
    if n > 0 && line.as_str().get_char(n - 1) == '\r' {
        String::from_str(line.as_str().substring_char(0, n - 1))
    } else {
        line
    }
}

} // verus!
