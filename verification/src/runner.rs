//! The pure core of the process runner: building the command line for
//! a configuration, composing the child environment from its
//! merge-ordered sources, selecting a configuration by name, and the
//! poll/cancel/reap/join state machine that drives the child process
//! to a clean end.

use crate::error::RunnerError;
use crate::enums::ProgrammingLanguage;
use crate::model::env_map;
use crate::model::ArgsElement;
use crate::model::ArgsValue;
use crate::model::Configuration;
use crate::model::EnvList;
use vstd::prelude::*;
use vstd::string::StringExecFns;

verus! {

/// What the `args` array elements append to the program: one leading
/// space before each string element, non-string elements skipped.
pub open spec fn args_suffix_elems(elems: Seq<ArgsElement>) -> Seq<char>
    decreases elems.len(),
{
    if elems.len() == 0 {
        Seq::empty()
    } else {
        args_suffix_elems(elems.drop_last()) + match elems.last() {
            ArgsElement::Text(s) => seq![' '] + s@,
            ArgsElement::Other => Seq::<char>::empty(),
        }
    }
}

/// The suffix the `args` field appends to the program: empty unless
/// the field holds an array.
pub open spec fn args_suffix(args: Option<ArgsValue>) -> Seq<char> {
    match args {
        Option::Some(ArgsValue::Array(v)) => args_suffix_elems(v@),
        _ => Seq::empty(),
    }
}

/// The shell command for a Python configuration: interpreter, space,
/// program, then the string elements of `args`.
pub open spec fn python_command_spec(
    python: Seq<char>,
    program: Seq<char>,
    args: Option<ArgsValue>,
) -> Seq<char> {
    python + seq![' '] + program + args_suffix(args)
}

/// Exactly what `configure_python` returns for a configuration: the
/// built command when both required fields are present, and which
/// error otherwise.
pub open spec fn python_build_result(c: Configuration, r: Result<String, RunnerError>) -> bool {
    match (c.python, c.program) {
        (Option::Some(py), Option::Some(pr)) => {
            r matches Ok(s) && s@ == python_command_spec(py@, pr@, c.args)
        },
        (Option::None, _) => {
            r matches Err(RunnerError::InvalidConfiguration(m)) && m@
                == "In Python configuration, python field must be present"@
        },
        (Option::Some(_), Option::None) => {
            r matches Err(RunnerError::InvalidConfiguration(m)) && m@
                == "In Python configuration, program field must be present"@
        },
    }
}

proof fn lemma_args_suffix_elems_push(elems: Seq<ArgsElement>, x: ArgsElement)
    ensures
        args_suffix_elems(elems.push(x)) == args_suffix_elems(elems) + match x {
            ArgsElement::Text(s) => seq![' '] + s@,
            ArgsElement::Other => Seq::<char>::empty(),
        },
{
    assert(elems.push(x).drop_last() =~= elems);
    assert(elems.push(x).last() == x);
}

/// Build the command for a Python configuration: `python` and
/// `program` are both required; string elements of `args` are
/// appended space-separated; anything else in `args` is skipped.
pub fn configure_python(c: &Configuration) -> (r: Result<String, RunnerError>)
    ensures
        python_build_result(*c, r),
        r is Ok <==> c.python is Some && c.program is Some,
{
    let python = match &c.python {
        Option::Some(p) => p,
        Option::None => {
            return Err(
                RunnerError::InvalidConfiguration(
                    String::from_str("In Python configuration, python field must be present"),
                ),
            );
        },
    };
    let program = match &c.program {
        Option::Some(p) => p,
        Option::None => {
            return Err(
                RunnerError::InvalidConfiguration(
                    String::from_str("In Python configuration, program field must be present"),
                ),
            );
        },
    };
    let mut out = python.clone();
    out.append(" ");
    out.append(program.as_str());
    proof {
        reveal_strlit(" ");
        assert(" "@ =~= seq![' ']);
    }
    match &c.args {
        Option::Some(ArgsValue::Array(v)) => {
            let ghost py = python@;
            let ghost pr = program@;
            let mut i: usize = 0;
            proof {
                assert(v@.take(0) =~= Seq::<ArgsElement>::empty());
                assert(out@ =~= py + seq![' '] + pr + args_suffix_elems(v@.take(0)));
            }
            while i < v.len()
                invariant
                    i <= v@.len(),
                    out@ == py + seq![' '] + pr + args_suffix_elems(v@.take(i as int)),
                decreases v@.len() - i,
            {
                match &v[i] {
                    ArgsElement::Text(s) => {
                        out.append(" ");
                        out.append(s.as_str());
                    },
                    ArgsElement::Other => {},
                }
                proof {
                    assert(v@.take(i + 1) =~= v@.take(i as int).push(v@[i as int]));
                    lemma_args_suffix_elems_push(v@.take(i as int), v@[i as int]);
                    reveal_strlit(" ");
                    assert(" "@ =~= seq![' ']);
                }
                i += 1;
            }
            proof {
                assert(v@.take(v@.len() as int) =~= v@);
            }
            Ok(out)
        },
        Option::Some(ArgsValue::Other) => Ok(out),
        Option::None => Ok(out),
    }
}

/// Exactly what the per-language dispatch returns: the Python strategy
/// builds, the reserved strategies report `NotImplemented`, and an
/// unknown language is rejected before any strategy runs.
pub open spec fn build_result(c: Configuration, r: Result<String, RunnerError>) -> bool {
    match c.programming_language {
        ProgrammingLanguage::Python => python_build_result(c, r),
        ProgrammingLanguage::JavaScript => {
            r matches Err(RunnerError::NotImplemented(m)) && m@
                == "The JavaScript strategy is not implemented"@
        },
        ProgrammingLanguage::Rust => {
            r matches Err(RunnerError::NotImplemented(m)) && m@
                == "The Rust strategy is not implemented"@
        },
        ProgrammingLanguage::Unknown => r matches Err(RunnerError::UnknownProgrammingLanguage),
    }
}

/// The reserved JavaScript strategy: an explicit `NotImplemented`
/// error, never a silent success.
pub fn configure_javascript(_c: &Configuration) -> (r: Result<String, RunnerError>)
    ensures
        r matches Err(RunnerError::NotImplemented(m)) && m@
            == "The JavaScript strategy is not implemented"@,
{
    Err(RunnerError::NotImplemented(String::from_str("The JavaScript strategy is not implemented")))
}

/// The reserved Rust strategy: an explicit `NotImplemented` error,
/// never a silent success.
pub fn configure_rust(_c: &Configuration) -> (r: Result<String, RunnerError>)
    ensures
        r matches Err(RunnerError::NotImplemented(m)) && m@
            == "The Rust strategy is not implemented"@,
{
    Err(RunnerError::NotImplemented(String::from_str("The Rust strategy is not implemented")))
}

/// Dispatch on the classified language and build the shell command.
pub fn build_command(c: &Configuration) -> (r: Result<String, RunnerError>)
    ensures
        build_result(*c, r),
        r is Ok <==> c.programming_language is Python && c.python is Some && c.program is Some,
{
    match c.programming_language {
        ProgrammingLanguage::Python => configure_python(c),
        ProgrammingLanguage::JavaScript => configure_javascript(c),
        ProgrammingLanguage::Rust => configure_rust(c),
        ProgrammingLanguage::Unknown => Err(RunnerError::UnknownProgrammingLanguage),
    }
}

pub proof fn lemma_env_map_concat(a: Seq<(String, String)>, b: Seq<(String, String)>)
    ensures
        env_map(a + b) == env_map(a).union_prefer_right(env_map(b)),
    decreases b.len(),
{
    if b.len() == 0 {
        assert(a + b =~= a);
        assert(env_map(a).union_prefer_right(env_map(b)) =~= env_map(a));
    } else {
        lemma_env_map_concat(a, b.drop_last());
        assert((a + b).drop_last() =~= a + b.drop_last());
        assert((a + b).last() == b.last());
        assert(env_map(a).union_prefer_right(env_map(b.drop_last())).insert(
            b.last().0@,
            b.last().1@,
        ) =~= env_map(a).union_prefer_right(env_map(b)));
    }
}

/// Merge two environments; on a key collision the entry of `higher`
/// wins, as the fixed precedence chain demands.
pub fn merge_env(lower: &EnvList, higher: &EnvList) -> (r: EnvList)
    ensures
        r@ == lower@ + higher@,
        env_map(r@) == env_map(lower@).union_prefer_right(env_map(higher@)),
{
    let mut r: EnvList = Vec::new();
    let mut i: usize = 0;
    while i < lower.len()
        invariant
            i <= lower@.len(),
            r@ == lower@.take(i as int),
        decreases lower@.len() - i,
    {
        let pair = &lower[i];
        r.push((pair.0.clone(), pair.1.clone()));
        proof {
            assert(r@ =~= lower@.take(i + 1));
        }
        i += 1;
    }
    let mut j: usize = 0;
    while j < higher.len()
        invariant
            j <= higher@.len(),
            r@ == lower@ + higher@.take(j as int),
        decreases higher@.len() - j,
    {
        let pair = &higher[j];
        r.push((pair.0.clone(), pair.1.clone()));
        proof {
            assert(r@ =~= lower@ + higher@.take(j + 1));
        }
        j += 1;
    }
    proof {
        assert(lower@.take(lower@.len() as int) =~= lower@);
        assert(higher@.take(higher@.len() as int) =~= higher@);
        lemma_env_map_concat(lower@, higher@);
    }
    r
}

/// The fixed environment precedence, lowest to highest: inherited
/// process environment, entries of the `env_file`, inline `env`
/// entries. For every key, the highest source that defines it wins,
/// and a key appears in the effective environment exactly when some
/// source defines it.
pub proof fn lemma_env_precedence(
    inherited: Map<Seq<char>, Seq<char>>,
    file: Map<Seq<char>, Seq<char>>,
    inline: Map<Seq<char>, Seq<char>>,
    k: Seq<char>,
)
    ensures
        ({
            let e = inherited.union_prefer_right(file).union_prefer_right(inline);
            &&& (inline.contains_key(k) ==> e.contains_key(k) && e[k] == inline[k])
            &&& (!inline.contains_key(k) && file.contains_key(k) ==> e.contains_key(k) && e[k]
                == file[k])
            &&& (!inline.contains_key(k) && !file.contains_key(k) && inherited.contains_key(k)
                ==> e.contains_key(k) && e[k] == inherited[k])
            &&& (e.contains_key(k) <==> inherited.contains_key(k) || file.contains_key(k)
                || inline.contains_key(k))
        }),
{
}

/// How selecting by name turned out: no configuration of that name,
/// several of them, or exactly one.
pub enum NameLookup {
    NotFound,
    Ambiguous,
    Found(Configuration),
}

/// The configurations whose name equals the looked-up name, in order.
pub open spec fn matches_of(configs: Seq<Configuration>, name: Seq<char>) -> Seq<Configuration>
    decreases configs.len(),
{
    if configs.len() == 0 {
        Seq::empty()
    } else {
        let rest = matches_of(configs.drop_last(), name);
        if configs.last().name@ == name {
            rest.push(configs.last())
        } else {
            rest
        }
    }
}

/// Select the configuration to run by exact, case-sensitive name
/// match. Zero matches and several matches are distinct outcomes, and
/// only a unique match hands a configuration out.
pub fn find_by_name(configs: Vec<Configuration>, name: &str) -> (r: NameLookup)
    ensures
        ({
            let m = matches_of(configs@, name@);
            &&& (m.len() == 0 ==> r is NotFound)
            &&& (m.len() == 1 ==> (r matches NameLookup::Found(c) && c == m[0]))
            &&& (m.len() > 1 ==> r is Ambiguous)
        }),
{
    let ghost orig = configs@;
    let mut count: usize = 0;
    let mut first_idx: usize = 0;
    let mut i: usize = 0;
    proof {
        assert(orig.take(0) =~= Seq::<Configuration>::empty());
    }
    while i < configs.len()
        invariant
            orig == configs@,
            i <= orig.len(),
            count <= i,
            count == matches_of(orig.take(i as int), name@).len(),
            count > 0 ==> first_idx < i && orig[first_idx as int].name@ == name@ && matches_of(
                orig.take(i as int),
                name@,
            )[0] == orig[first_idx as int],
        decreases orig.len() - i,
    {
        proof {
            assert(orig.take(i + 1).drop_last() =~= orig.take(i as int));
            assert(orig.take(i + 1).last() == orig[i as int]);
        }
        if configs[i].name.as_str().to_owned() == name.to_owned() {
            if count == 0 {
                first_idx = i;
            }
            count = count + 1;
        }
        i += 1;
    }
    proof {
        assert(orig.take(orig.len() as int) =~= orig);
    }
    if count == 0 {
        NameLookup::NotFound
    } else if count > 1 {
        NameLookup::Ambiguous
    } else {
        let mut configs = configs;
        let c = configs.remove(first_idx);
        NameLookup::Found(c)
    }
}

/// The mapping an optional environment source denotes: absent means
/// no entries.
pub open spec fn opt_env_map(e: Option<EnvList>) -> Map<Seq<char>, Seq<char>> {
    match e {
        Option::Some(v) => env_map(v@),
        Option::None => Map::empty(),
    }
}

/// Everything the caller needs to spawn the child: the shell command,
/// the working directory, and the environment entries to lay over the
/// inherited process environment.
#[derive(Debug)]
pub struct RunPlan {
    pub command: String,
    pub cwd: Option<String>,
    pub env: EnvList,
}

/// Assemble the run plan for a configuration: build the command for
/// its language and compose the explicit environment entries, entries
/// of the `env_file` first, inline `env` entries after them so that
/// the inline ones win on collision.
pub fn build_run_plan(c: &Configuration, env_file_vars: Option<EnvList>) -> (r: Result<
    RunPlan,
    RunnerError,
>)
    ensures
        r is Ok <==> c.programming_language is Python && c.python is Some && c.program is Some,
        r matches Ok(p) ==> build_result(*c, Result::Ok(p.command)),
        r matches Ok(p) ==> p.cwd == c.cwd,
        r matches Ok(p) ==> env_map(p.env@) == opt_env_map(env_file_vars).union_prefer_right(
            opt_env_map(c.env),
        ),
        r matches Err(e) ==> build_result(*c, Result::Err(e)),
{
    let command = match build_command(c) {
        Ok(s) => s,
        Err(e) => {
            return Err(e);
        },
    };
    let empty_env: EnvList = Vec::new();
    let file_vars = match &env_file_vars {
        Option::Some(v) => v,
        Option::None => &empty_env,
    };
    let inline_vars = match &c.env {
        Option::Some(v) => v,
        Option::None => &empty_env,
    };
    let env = merge_env(file_vars, inline_vars);
    let cwd = match &c.cwd {
        Option::Some(s) => Some(s.clone()),
        Option::None => None,
    };
    Ok(RunPlan { command, cwd, env })
}

/// Where the runner stands between spawning the child and returning.
#[derive(Clone, Copy, Debug, PartialEq, Eq, Structural)]
pub enum RunPhase {
    /// Watching the cancellation flag and the child's exit status.
    Polling,
    /// Cancellation observed; the child is being killed.
    Killing,
    /// The child is done for; the blocking wait is due.
    Reaping,
    /// Child reaped; the standard-output drain task is being joined.
    JoiningOut,
    /// The standard-error drain task is being joined.
    JoiningErr,
    /// Everything reaped and joined; the result is due.
    Done,
}

/// What the poll loop observed since the last step.
#[derive(Clone, Copy, Debug, PartialEq, Eq, Structural)]
pub enum RunEvent {
    StillRunning,
    ExitSeen,
    CancelSeen,
}

/// What the caller must do before stepping the machine again.
#[derive(Clone, Copy, Debug, PartialEq, Eq, Structural)]
pub enum RunAction {
    PollAgain,
    KillChild,
    ReapChild,
    JoinStdout,
    JoinStderr,
    Finish,
}

/// How a finished run ended: natural exit, or a cancellation-forced
/// kill. The caller is never left guessing which of the two happened.
#[derive(Clone, Copy, Debug, PartialEq, Eq, Structural)]
pub enum RunOutcome {
    Completed,
    Cancelled,
}

/// The runner's state: its phase, and which irreversible facts hold
/// already.
#[derive(Clone, Copy, Debug, PartialEq, Eq, Structural)]
pub struct RunnerState {
    pub phase: RunPhase,
    /// Cancellation was observed while the child ran.
    pub cancelled: bool,
    /// The child was seen to exit on its own.
    pub exited: bool,
    /// The child was killed.
    pub killed: bool,
    /// The blocking wait on the child completed; no zombie remains.
    pub reaped: bool,
    /// The standard-output drain task was joined.
    pub joined_out: bool,
    /// The standard-error drain task was joined.
    pub joined_err: bool,
}

/// The machine's invariant: work happens in order (kill only after
/// cancellation and never after a natural exit, reap only after the
/// child is done for, joins only after the reap), and `Done` means
/// reaped with both drain tasks joined.
pub open spec fn wf_runner(s: RunnerState) -> bool {
    &&& (s.killed ==> s.cancelled && !s.exited)
    &&& !(s.cancelled && s.exited)
    &&& match s.phase {
        RunPhase::Polling => !s.cancelled && !s.exited && !s.killed && !s.reaped && !s.joined_out
            && !s.joined_err,
        RunPhase::Killing => s.cancelled && !s.killed && !s.reaped && !s.joined_out
            && !s.joined_err,
        RunPhase::Reaping => (s.exited || s.killed) && !s.reaped && !s.joined_out && !s.joined_err,
        RunPhase::JoiningOut => (s.exited || s.killed) && s.reaped && !s.joined_out
            && !s.joined_err,
        RunPhase::JoiningErr => (s.exited || s.killed) && s.reaped && s.joined_out
            && !s.joined_err,
        RunPhase::Done => (s.exited || s.killed) && s.reaped && s.joined_out && s.joined_err,
    }
}

/// The initial state, before the first poll.
pub open spec fn initial_runner_spec() -> RunnerState {
    RunnerState {
        phase: RunPhase::Polling,
        cancelled: false,
        exited: false,
        killed: false,
        reaped: false,
        joined_out: false,
        joined_err: false,
    }
}

/// One transition: while polling the event decides (keep polling,
/// reap a natural exit, or kill after cancellation); afterwards the
/// machine walks kill, reap, join, join, finish in that fixed order,
/// events no longer mattering. The returned action is what the caller
/// performs before the next step.
pub open spec fn step_spec(s: RunnerState, ev: RunEvent) -> (RunnerState, RunAction) {
    match s.phase {
        RunPhase::Polling => match ev {
            RunEvent::StillRunning => (s, RunAction::PollAgain),
            RunEvent::ExitSeen => (
                RunnerState { phase: RunPhase::Reaping, exited: true, ..s },
                RunAction::ReapChild,
            ),
            RunEvent::CancelSeen => (
                RunnerState { phase: RunPhase::Killing, cancelled: true, ..s },
                RunAction::KillChild,
            ),
        },
        RunPhase::Killing => (
            RunnerState { phase: RunPhase::Reaping, killed: true, ..s },
            RunAction::ReapChild,
        ),
        RunPhase::Reaping => (
            RunnerState { phase: RunPhase::JoiningOut, reaped: true, ..s },
            RunAction::JoinStdout,
        ),
        RunPhase::JoiningOut => (
            RunnerState { phase: RunPhase::JoiningErr, joined_out: true, ..s },
            RunAction::JoinStderr,
        ),
        RunPhase::JoiningErr => (
            RunnerState { phase: RunPhase::Done, joined_err: true, ..s },
            RunAction::Finish,
        ),
        RunPhase::Done => (s, RunAction::Finish),
    }
}

impl RunnerState {
    /// The state in which the runner starts, right after the spawn.
    pub fn initial() -> (r: RunnerState)
        ensures
            r == initial_runner_spec(),
            wf_runner(r),
    {
        RunnerState {
            phase: RunPhase::Polling,
            cancelled: false,
            exited: false,
            killed: false,
            reaped: false,
            joined_out: false,
            joined_err: false,
        }
    }

    /// Take one step of the machine for an observed event.
    pub fn step(&self, ev: RunEvent) -> (r: (RunnerState, RunAction))
        ensures
            r == step_spec(*self, ev),
            wf_runner(*self) ==> wf_runner(r.0),
    {
        match self.phase {
            RunPhase::Polling => match ev {
                RunEvent::StillRunning => (*self, RunAction::PollAgain),
                RunEvent::ExitSeen => (
                    RunnerState { phase: RunPhase::Reaping, exited: true, ..*self },
                    RunAction::ReapChild,
                ),
                RunEvent::CancelSeen => (
                    RunnerState { phase: RunPhase::Killing, cancelled: true, ..*self },
                    RunAction::KillChild,
                ),
            },
            RunPhase::Killing => (
                RunnerState { phase: RunPhase::Reaping, killed: true, ..*self },
                RunAction::ReapChild,
            ),
            RunPhase::Reaping => (
                RunnerState { phase: RunPhase::JoiningOut, reaped: true, ..*self },
                RunAction::JoinStdout,
            ),
            RunPhase::JoiningOut => (
                RunnerState { phase: RunPhase::JoiningErr, joined_out: true, ..*self },
                RunAction::JoinStderr,
            ),
            RunPhase::JoiningErr => (
                RunnerState { phase: RunPhase::Done, joined_err: true, ..*self },
                RunAction::Finish,
            ),
            RunPhase::Done => (*self, RunAction::Finish),
        }
    }

    /// The run's result, available exactly once the machine is done:
    /// whether the child exited on its own or was killed after
    /// cancellation.
    pub fn outcome(&self) -> (r: Option<RunOutcome>)
        ensures
            r is Some <==> self.phase is Done,
            self.phase is Done ==> (r matches Some(o) && (o is Cancelled <==> self.cancelled)),
    {
        match self.phase {
            RunPhase::Done => {
                if self.cancelled {
                    Some(RunOutcome::Cancelled)
                } else {
                    Some(RunOutcome::Completed)
                }
            },
            _ => None,
        }
    }
}

/// Map one poll observation to the machine's event: an observed
/// cancellation wins over anything else, so a kill is ordered even
/// when the exit race is close; otherwise a seen exit status; and
/// otherwise the child is still running.
pub fn observe_poll(cancelled: bool, exited: bool) -> (r: RunEvent)
    ensures
        r == (if cancelled {
            RunEvent::CancelSeen
        } else if exited {
            RunEvent::ExitSeen
        } else {
            RunEvent::StillRunning
        }),
{
    if cancelled {
        RunEvent::CancelSeen
    } else if exited {
        RunEvent::ExitSeen
    } else {
        RunEvent::StillRunning
    }
}

/// The state after feeding a whole event sequence to the machine.
pub open spec fn run_steps(s: RunnerState, evs: Seq<RunEvent>) -> RunnerState
    decreases evs.len(),
{
    if evs.len() == 0 {
        s
    } else {
        run_steps(step_spec(s, evs[0]).0, evs.drop_first())
    }
}

/// The machine's invariant holds along every event sequence.
pub proof fn lemma_run_steps_wf(s: RunnerState, evs: Seq<RunEvent>)
    requires
        wf_runner(s),
    ensures
        wf_runner(run_steps(s, evs)),
    decreases evs.len(),
{
    if evs.len() > 0 {
        lemma_run_steps_wf(step_spec(s, evs[0]).0, evs.drop_first());
    }
}

/// `Done` is absorbing: once everything is reaped and joined, further
/// events change nothing.
pub proof fn lemma_done_absorbing(s: RunnerState, evs: Seq<RunEvent>)
    requires
        s.phase is Done,
    ensures
        run_steps(s, evs) == s,
    decreases evs.len(),
{
    if evs.len() > 0 {
        lemma_done_absorbing(s, evs.drop_first());
    }
}

/// Cancellation is honoured, and nothing is leaked on the way out:
/// when cancellation is observed while polling, the machine first
/// orders the kill, and after four more steps — whatever events
/// arrive meanwhile — it is done, with the child killed and reaped
/// and both drain tasks joined, reporting a cancelled run.
pub proof fn lemma_cancellation_completes(s: RunnerState, evs: Seq<RunEvent>)
    requires
        wf_runner(s),
        s.phase is Polling,
        evs.len() >= 4,
    ensures
        ({
            let (s1, a1) = step_spec(s, RunEvent::CancelSeen);
            let f = run_steps(s1, evs);
            &&& a1 is KillChild
            &&& f.phase is Done
            &&& f.cancelled
            &&& f.killed
            &&& f.reaped
            &&& f.joined_out
            &&& f.joined_err
            &&& !f.exited
        }),
{
    let (s1, a1) = step_spec(s, RunEvent::CancelSeen);
    let e1 = evs.drop_first();
    let e2 = e1.drop_first();
    let e3 = e2.drop_first();
    let e4 = e3.drop_first();
    let s2 = step_spec(s1, evs[0]).0;
    let s3 = step_spec(s2, e1[0]).0;
    let s4 = step_spec(s3, e2[0]).0;
    let s5 = step_spec(s4, e3[0]).0;
    assert(run_steps(s1, evs) == run_steps(s2, e1));
    assert(run_steps(s2, e1) == run_steps(s3, e2));
    assert(run_steps(s3, e2) == run_steps(s4, e3));
    assert(run_steps(s4, e3) == run_steps(s5, e4));
    lemma_done_absorbing(s5, e4);
}

/// A natural exit is reaped and joined the same way: once the exit is
/// observed while polling, three more steps finish the run, with no
/// kill ever ordered, reporting a completed run.
pub proof fn lemma_natural_exit_completes(s: RunnerState, evs: Seq<RunEvent>)
    requires
        wf_runner(s),
        s.phase is Polling,
        evs.len() >= 3,
    ensures
        ({
            let (s1, a1) = step_spec(s, RunEvent::ExitSeen);
            let f = run_steps(s1, evs);
            &&& a1 is ReapChild
            &&& f.phase is Done
            &&& f.exited
            &&& !f.cancelled
            &&& !f.killed
            &&& f.reaped
            &&& f.joined_out
            &&& f.joined_err
        }),
{
    let (s1, a1) = step_spec(s, RunEvent::ExitSeen);
    let e1 = evs.drop_first();
    let e2 = e1.drop_first();
    let e3 = e2.drop_first();
    let s2 = step_spec(s1, evs[0]).0;
    let s3 = step_spec(s2, e1[0]).0;
    let s4 = step_spec(s3, e2[0]).0;
    assert(run_steps(s1, evs) == run_steps(s2, e1));
    assert(run_steps(s2, e1) == run_steps(s3, e2));
    assert(run_steps(s3, e2) == run_steps(s4, e3));
    lemma_done_absorbing(s4, e3);
}

} // verus!
