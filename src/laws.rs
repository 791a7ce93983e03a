//! What holds of every setup run, over the model that `startup_tmux` is specified by.
use vstd::prelude::*;

use crate::config::{Config, Session};
use crate::reconcile::{
    config_jobs, plan_is_run, run_jobs, state_after, step_commands, step_failure, window_exists, Job, StartupPlan,
    TmuxModel, TmuxOptions,
};
use crate::state::insert_clamped;

verus! {

/// Every window that `a` has, `b` has too.
pub open spec fn includes(a: TmuxModel, b: TmuxModel) -> bool {
    forall|s: Seq<char>, w: Seq<char>| #[trigger] window_exists(a, s, w) ==> window_exists(b, s, w)
}

proof fn lemma_insert_clamped_keeps(s: Seq<Seq<char>>, pos: nat, w: Seq<char>, x: Seq<char>)
    requires
        s.contains(x) || x == w,
    ensures
        insert_clamped(s, pos, w).contains(x),
{
    if pos <= s.len() {
        s.insert_ensures(pos as int, w);
        if x == w {
            assert(s.insert(pos as int, w)[pos as int] == x);
        } else {
            let j = choose|j: int| 0 <= j < s.len() && s[j] == x;
            if j < pos {
                assert(s.insert(pos as int, w)[j] == x);
            } else {
                assert(s.insert(pos as int, w)[j + 1] == x);
            }
        }
    } else {
        if x == w {
            assert(s.push(w)[s.len() as int] == x);
        } else {
            let j = choose|j: int| 0 <= j < s.len() && s[j] == x;
            assert(s.push(w)[j] == x);
        }
    }
}

/// Handling a window keeps every window there was, and leaves that window in place.
proof fn lemma_step_grows(state: TmuxModel, session: Seq<char>, index: nat, w: crate::config::Window)
    ensures
        includes(state, state_after(state, session, index, w)),
        window_exists(state_after(state, session, index, w), session, w.name@),
{
    let next = state_after(state, session, index, w);
    assert forall|s: Seq<char>, x: Seq<char>| #[trigger] window_exists(state, s, x) implies window_exists(
        next,
        s,
        x,
    ) by {
        if s == session && state.contains_key(session) && !state[session].contains(w.name@) {
            lemma_insert_clamped_keeps(state[session], index, w.name@, x);
        }
    }
    if !state.contains_key(session) {
        assert(next[session][0] == w.name@);
    } else if !state[session].contains(w.name@) {
        lemma_insert_clamped_keeps(state[session], index, w.name@, w.name@);
    }
}

/// A run handles windows in order: it keeps every window it started with, has one step per
/// window until it stops, and once it ran through leaves every declared window in place.
pub proof fn lemma_run_shape(
    jobs: Seq<Job>,
    init: TmuxModel,
    crates: Map<Seq<char>, Seq<char>>,
    socket: Seq<char>,
)
    ensures
        ({
            let r = run_jobs(jobs, init, crates, socket);
            &&& r.steps.len() <= jobs.len()
            &&& r.failure is None ==> r.steps.len() == jobs.len()
            &&& includes(init, r.state)
            &&& forall|k: int|
                0 <= k < r.steps.len() ==> window_exists(r.state, #[trigger] jobs[k].0, jobs[k].1.name@)
        }),
    decreases jobs.len(),
{
    if jobs.len() > 0 {
        let prev = run_jobs(jobs.drop_last(), init, crates, socket);
        lemma_run_shape(jobs.drop_last(), init, crates, socket);
        let (session, w, index) = jobs.last();
        if prev.failure is Some || step_failure(prev.state, session, w, crates) is Some {
            assert forall|k: int| 0 <= k < prev.steps.len() implies window_exists(
                prev.state,
                #[trigger] jobs[k].0,
                jobs[k].1.name@,
            ) by {
                assert(jobs.drop_last()[k] == jobs[k]);
            }
        } else {
            let next = state_after(prev.state, session, index, w);
            lemma_step_grows(prev.state, session, index, w);
            assert forall|k: int| 0 <= k < jobs.len() implies window_exists(
                next,
                #[trigger] jobs[k].0,
                jobs[k].1.name@,
            ) by {
                if k < jobs.len() - 1 {
                    assert(jobs.drop_last()[k] == jobs[k]);
                    assert(window_exists(prev.state, jobs[k].0, jobs[k].1.name@));
                }
            }
        }
    }
}

/// Running the same configuration a second time, against the state the first run left,
/// issues no command at all and leaves that state as it is; it stops where the first run
/// stopped, if that one did.
pub proof fn lemma_reconcile_idempotent(
    sessions: Seq<Session>,
    init: TmuxModel,
    crates: Map<Seq<char>, Seq<char>>,
    socket: Seq<char>,
)
    ensures
        ({
            let first = run_jobs(config_jobs(sessions), init, crates, socket);
            let second = run_jobs(config_jobs(sessions), first.state, crates, socket);
            &&& second.failure is Some <==> first.failure is Some
            &&& second.state == first.state
            &&& forall|i: int| 0 <= i < second.steps.len() ==> (#[trigger] second.steps[i]).0.len() == 0
        }),
{
    let jobs = config_jobs(sessions);
    lemma_run_shape(jobs, init, crates, socket);
    lemma_failure_point(jobs, init, crates, socket);
    lemma_rerun(jobs, init, crates, socket, run_jobs(jobs, init, crates, socket).state);
}

/// Where a run stopped, the window it stopped at still cannot be created from the state it left.
proof fn lemma_failure_point(
    jobs: Seq<Job>,
    init: TmuxModel,
    crates: Map<Seq<char>, Seq<char>>,
    socket: Seq<char>,
)
    ensures
        ({
            let r = run_jobs(jobs, init, crates, socket);
            r.failure is Some ==> r.steps.len() < jobs.len() && step_failure(
                r.state,
                jobs[r.steps.len() as int].0,
                jobs[r.steps.len() as int].1,
                crates,
            ) is Some
        }),
    decreases jobs.len(),
{
    if jobs.len() > 0 {
        let p = jobs.drop_last();
        lemma_failure_point(p, init, crates, socket);
        lemma_run_shape(p, init, crates, socket);
        let prev = run_jobs(p, init, crates, socket);
        if prev.failure is Some {
            assert(p[prev.steps.len() as int] == jobs[prev.steps.len() as int]);
        }
    }
}

/// A run from a state `s` that has every window the run from `init` completed, and that
/// still lacks the window it stopped at, completes the same windows with no command.
proof fn lemma_rerun(
    jobs: Seq<Job>,
    init: TmuxModel,
    crates: Map<Seq<char>, Seq<char>>,
    socket: Seq<char>,
    s: TmuxModel,
)
    requires
        forall|k: int|
            0 <= k < run_jobs(jobs, init, crates, socket).steps.len() ==> window_exists(
                s,
                #[trigger] jobs[k].0,
                jobs[k].1.name@,
            ),
        ({
            let r = run_jobs(jobs, init, crates, socket);
            r.failure is Some ==> r.steps.len() < jobs.len() && step_failure(
                s,
                jobs[r.steps.len() as int].0,
                jobs[r.steps.len() as int].1,
                crates,
            ) is Some
        }),
    ensures
        ({
            let r = run_jobs(jobs, init, crates, socket);
            let again = run_jobs(jobs, s, crates, socket);
            &&& again.failure is Some <==> r.failure is Some
            &&& again.state == s
            &&& again.steps.len() == r.steps.len()
            &&& forall|i: int| 0 <= i < again.steps.len() ==> (#[trigger] again.steps[i]).0.len() == 0
        }),
    decreases jobs.len(),
{
    if jobs.len() > 0 {
        let p = jobs.drop_last();
        let prev = run_jobs(p, init, crates, socket);
        lemma_run_shape(p, init, crates, socket);
        assert forall|k: int| 0 <= k < prev.steps.len() implies window_exists(
            s,
            #[trigger] p[k].0,
            p[k].1.name@,
        ) by {
            assert(p[k] == jobs[k]);
        }
        if prev.failure is Some {
            lemma_failure_point(p, init, crates, socket);
            assert(p[prev.steps.len() as int] == jobs[prev.steps.len() as int]);
        }
        lemma_rerun(p, init, crates, socket, s);
        let again = run_jobs(p, s, crates, socket);
        let (session, w, index) = jobs.last();
        if prev.failure is None && step_failure(prev.state, session, w, crates) is None {
            assert(window_exists(s, jobs[jobs.len() - 1].0, jobs[jobs.len() - 1].1.name@));
            assert(step_commands(s, socket, session, index, w, crates) =~= Seq::<
                Seq<Seq<char>>,
            >::empty());
        }
    } else {
        assert(run_jobs(jobs, s, crates, socket).steps.len() == 0);
    }
}

/// A window that the server has when a run starts gets no command in that run, so in
/// particular its commands are never typed into it again: the `k`-th declared window,
/// where the run got that far.
pub proof fn lemma_existing_window_untouched(
    sessions: Seq<Session>,
    init: TmuxModel,
    crates: Map<Seq<char>, Seq<char>>,
    socket: Seq<char>,
    k: int,
)
    requires
        0 <= k < run_jobs(config_jobs(sessions), init, crates, socket).steps.len(),
        window_exists(init, config_jobs(sessions)[k].0, config_jobs(sessions)[k].1.name@),
    ensures
        run_jobs(config_jobs(sessions), init, crates, socket).steps[k].0.len() == 0,
{
    lemma_job_untouched(config_jobs(sessions), init, crates, socket, k);
}

proof fn lemma_job_untouched(
    jobs: Seq<Job>,
    init: TmuxModel,
    crates: Map<Seq<char>, Seq<char>>,
    socket: Seq<char>,
    k: int,
)
    requires
        0 <= k < run_jobs(jobs, init, crates, socket).steps.len(),
        window_exists(init, jobs[k].0, jobs[k].1.name@),
    ensures
        run_jobs(jobs, init, crates, socket).steps[k].0.len() == 0,
    decreases jobs.len(),
{
    lemma_run_shape(jobs, init, crates, socket);
    let prev = run_jobs(jobs.drop_last(), init, crates, socket);
    lemma_run_shape(jobs.drop_last(), init, crates, socket);
    if k < prev.steps.len() {
        assert(jobs.drop_last()[k] == jobs[k]);
        lemma_job_untouched(jobs.drop_last(), init, crates, socket, k);
    } else {
        assert(jobs.last() == jobs[k]);
        assert(window_exists(prev.state, jobs[k].0, jobs[k].1.name@));
    }
}

/// The plan of a run does not depend on whether it is a dry run, nor on any option besides
/// the socket and the attach preference: a dry run reports exactly the commands that a real
/// run issues.
pub proof fn lemma_plan_ignores_dry_run(
    plan: StartupPlan,
    config: Config,
    live: TmuxOptions,
    dry: TmuxOptions,
    state: TmuxModel,
    crates: Map<Seq<char>, Seq<char>>,
    in_tmux: bool,
)
    requires
        dry.socket_name == live.socket_name,
        dry.attach == live.attach,
    ensures
        plan_is_run(plan, config, dry, state, crates, in_tmux) == plan_is_run(
            plan,
            config,
            live,
            state,
            crates,
            in_tmux,
        ),
{
}

} // verus!
