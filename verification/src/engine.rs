//! The execution engine's decisions: what one parsed line resolves to.
//!
//! Built-in dispatch looks only at the first unit of the chain (so a `cd`
//! after a pipe is not special-cased): `exit` terminates the interpreter,
//! `cd` changes its working directory. Anything else becomes an ordered
//! list of spawn steps, one per unit, carrying the wiring of both standard
//! streams and the completion policy: a step whose output is captured as a
//! pipe is not waited on (its handle feeds the next step), and a step is
//! waited on only when no captured pipe handle is still pending, so in a
//! chain only the terminal stage is waited on.
//!
//! The unverified front end only performs these decisions: it spawns one
//! process per step, moving the single captured pipe handle forward from
//! each step to the next.

use vstd::prelude::*;

use crate::parse::CommandPart;
use crate::parse::ExecutionSource;
use crate::parse::PipeEndpoint;
use crate::parse::SourceView;
use crate::parse::UnitView;
use crate::parse::units_view;
use crate::strutil::str_eq;

verus! {

/// Where a spawned process's standard input comes from.
#[derive(Debug, PartialEq, Clone)]
pub enum StdinPlan {
    /// The interpreter's own input stream.
    FromTerminal,
    /// The readable end of the pipe captured at the previous step.
    FromPreviousPipe,
    /// The named file, opened for reading.
    FromFile(String),
}

/// The mathematical content of a `StdinPlan`.
pub enum StdinPlanView {
    FromTerminal,
    FromPreviousPipe,
    FromFile(Seq<char>),
}

impl View for StdinPlan {
    type V = StdinPlanView;

    open spec fn view(&self) -> StdinPlanView {
        match self {
            StdinPlan::FromTerminal => StdinPlanView::FromTerminal,
            StdinPlan::FromPreviousPipe => StdinPlanView::FromPreviousPipe,
            StdinPlan::FromFile(p) => StdinPlanView::FromFile(p@),
        }
    }
}

/// Where a spawned process's standard output goes.
#[derive(Debug, PartialEq, Clone)]
pub enum StdoutPlan {
    /// The interpreter's own output stream.
    ToTerminal,
    /// Captured as a pipe whose readable end feeds the next step.
    CapturePipe,
    /// The named file, created if absent; the flag asks for appending
    /// rather than truncation.
    ToFile(String, bool),
}

/// The mathematical content of a `StdoutPlan`.
pub enum StdoutPlanView {
    ToTerminal,
    CapturePipe,
    ToFile(Seq<char>, bool),
}

impl View for StdoutPlan {
    type V = StdoutPlanView;

    open spec fn view(&self) -> StdoutPlanView {
        match self {
            StdoutPlan::ToTerminal => StdoutPlanView::ToTerminal,
            StdoutPlan::CapturePipe => StdoutPlanView::CapturePipe,
            StdoutPlan::ToFile(p, a) => StdoutPlanView::ToFile(p@, *a),
        }
    }
}

/// One spawn instruction: a program, its arguments, the wiring of both
/// standard streams, and whether the interpreter waits for the process
/// before moving on.
#[derive(Debug)]
pub struct SpawnStep {
    pub name: String,
    pub args: Vec<String>,
    pub stdin: StdinPlan,
    pub stdout: StdoutPlan,
    /// True when the interpreter waits for this process synchronously.
    pub wait: bool,
}

/// The mathematical content of a `SpawnStep`.
pub struct SpawnStepView {
    pub name: Seq<char>,
    pub args: Seq<Seq<char>>,
    pub stdin: StdinPlanView,
    pub stdout: StdoutPlanView,
    pub wait: bool,
}

impl View for SpawnStep {
    type V = SpawnStepView;

    open spec fn view(&self) -> SpawnStepView {
        SpawnStepView {
            name: self.name@,
            args: self.args@.map_values(|a: String| a@),
            stdin: self.stdin@,
            stdout: self.stdout@,
            wait: self.wait,
        }
    }
}

/// The views of a step sequence, element by element.
pub open spec fn steps_view(ss: Seq<SpawnStep>) -> Seq<SpawnStepView> {
    ss.map_values(|s: SpawnStep| s@)
}

/// What one parsed line resolves to.
#[derive(Debug)]
pub enum Dispatch {
    /// An empty plan: nothing to do.
    Empty,
    /// The built-in `exit`: terminate the interpreter with status 0.
    Exit,
    /// The built-in `cd`: change the working directory to the target.
    ChangeDir(String),
    /// Spawn the steps, in order.
    RunPipeline(Vec<SpawnStep>),
}

/// The mathematical content of a `Dispatch`.
pub enum DispatchView {
    Empty,
    Exit,
    ChangeDir(Seq<char>),
    RunPipeline(Seq<SpawnStepView>),
}

impl View for Dispatch {
    type V = DispatchView;

    open spec fn view(&self) -> DispatchView {
        match self {
            Dispatch::Empty => DispatchView::Empty,
            Dispatch::Exit => DispatchView::Exit,
            Dispatch::ChangeDir(t) => DispatchView::ChangeDir(t@),
            Dispatch::RunPipeline(ss) => DispatchView::RunPipeline(steps_view(ss@)),
        }
    }
}

/// The stdin wiring of one unit: a pipe-read endpoint consumes the pending
/// captured handle when there is one and falls back to the terminal when
/// there is none (no upstream producer exists).
pub open spec fn spec_stdin_plan(src: SourceView, pending: bool) -> StdinPlanView {
    match src {
        SourceView::Inherit => StdinPlanView::FromTerminal,
        SourceView::Pipe(e) => if e == PipeEndpoint::Read && pending {
            StdinPlanView::FromPreviousPipe
        } else {
            StdinPlanView::FromTerminal
        },
        SourceView::File(p, _) => StdinPlanView::FromFile(p),
    }
}

/// Whether this unit's stdin consumes the pending captured handle.
pub open spec fn consumes_pending(src: SourceView, pending: bool) -> bool {
    pending && src == SourceView::Pipe(PipeEndpoint::Read)
}

/// The stdout wiring of one unit.
pub open spec fn spec_stdout_plan(src: SourceView) -> StdoutPlanView {
    match src {
        SourceView::Inherit => StdoutPlanView::ToTerminal,
        SourceView::Pipe(e) => if e == PipeEndpoint::Write {
            StdoutPlanView::CapturePipe
        } else {
            StdoutPlanView::ToTerminal
        },
        SourceView::File(p, a) => StdoutPlanView::ToFile(p, a),
    }
}

/// The spawn steps for the units from position `i` on; `pending` says
/// whether a captured pipe handle from an earlier step is still unconsumed.
/// A step waits exactly when its own output is not captured and no handle
/// is pending after its stdin wiring.
pub open spec fn spec_steps(units: Seq<UnitView>, i: int, pending: bool) -> Seq<SpawnStepView>
    decreases units.len() - i,
{
    if i < 0 || i >= units.len() {
        Seq::empty()
    } else {
        let u = units[i];
        let after_in = pending && !consumes_pending(u.stdin, pending);
        let piped = u.stdout == SourceView::Pipe(PipeEndpoint::Write);
        let step = SpawnStepView {
            name: u.name,
            args: u.args,
            stdin: spec_stdin_plan(u.stdin, pending),
            stdout: spec_stdout_plan(u.stdout),
            wait: !piped && !after_in,
        };
        seq![step] + spec_steps(units, i + 1, piped || after_in)
    }
}

/// The target directory of the built-in `cd`: its first argument when one
/// is given, else the home directory, else the filesystem root.
pub open spec fn spec_cd_target(args: Seq<Seq<char>>, home: Option<Seq<char>>) -> Seq<char> {
    if args.len() > 0 {
        args[0]
    } else if home is Some {
        home.unwrap()
    } else {
        "/"@
    }
}

/// The view of an optional string.
pub open spec fn opt_view(o: Option<String>) -> Option<Seq<char>> {
    match o {
        Some(s) => Some(s@),
        None => None,
    }
}

/// The resolution of a whole plan: nothing for an empty plan; a built-in
/// when the first unit's name is one (only the first unit is ever
/// checked); otherwise the ordered spawn steps of the chain, starting with
/// no pending captured handle.
pub open spec fn spec_dispatch(units: Seq<UnitView>, home: Option<Seq<char>>) -> DispatchView {
    if units.len() == 0 {
        DispatchView::Empty
    } else if units[0].name == "exit"@ {
        DispatchView::Exit
    } else if units[0].name == "cd"@ {
        DispatchView::ChangeDir(spec_cd_target(units[0].args, home))
    } else {
        DispatchView::RunPipeline(spec_steps(units, 0, false))
    }
}

/// Clones a word list.
fn clone_words(ws: &Vec<String>) -> (r: Vec<String>)
    ensures
        r@ == ws@,
{
    let mut r: Vec<String> = Vec::new();
    let mut k: usize = 0;
    while k < ws.len()
        invariant
            k <= ws@.len(),
            r@ == ws@.take(k as int),
        decreases ws@.len() - k,
    {
        r.push(ws[k].clone());
        k = k + 1;
        proof {
            assert(r@ =~= ws@.take(k as int));
        }
    }
    proof {
        assert(r@ =~= ws@);
    }
    r
}

/// Resolves a parsed plan into the action the interpreter takes: a no-op
/// for an empty plan, a built-in when the first unit names one, otherwise
/// the ordered spawn steps of the pipeline with their stream wiring and
/// completion policy.
pub fn plan_execution(parts: Vec<CommandPart>, home: Option<String>) -> (d: Dispatch)
    ensures
        d@ == spec_dispatch(units_view(parts@), opt_view(home)),
{
    let ghost uv = units_view(parts@);
    if parts.len() == 0 {
        return Dispatch::Empty;
    }
    proof {
        assert(uv[0] == parts@[0]@);
    }
    let first_is_exit: bool;
    let first_is_cd: bool;
    match &parts[0] {
        CommandPart::Execute { name, .. } => {
            first_is_exit = str_eq(name.as_str(), "exit");
            first_is_cd = str_eq(name.as_str(), "cd");
        },
    }
    if first_is_exit {
        return Dispatch::Exit;
    }
    if first_is_cd {
        match &parts[0] {
            CommandPart::Execute { args, .. } => {
                if args.len() > 0 {
                    proof {
                        assert(uv[0].args[0] == args@[0]@);
                    }
                    return Dispatch::ChangeDir(args[0].clone());
                }
                match home {
                    Some(h) => {
                        return Dispatch::ChangeDir(h);
                    },
                    None => {
                        return Dispatch::ChangeDir(String::from_str("/"));
                    },
                }
            },
        }
    }
    let n: usize = parts.len();
    let mut steps: Vec<SpawnStep> = Vec::new();
    let mut pending: bool = false;
    let mut i: usize = 0;
    proof {
        assert(steps_view(steps@) + spec_steps(uv, 0, false) =~= spec_steps(uv, 0, false));
    }
    while i < n
        invariant
            i <= n,
            n == parts@.len(),
            uv == units_view(parts@),
            steps_view(steps@) + spec_steps(uv, i as int, pending) == spec_steps(uv, 0, false),
        decreases n - i,
    {
        let ghost gsteps = steps@;
        let ghost gpending = pending;
        let ghost gi = i as int;
        proof {
            assert(uv[gi] == parts@[gi]@);
        }
        match &parts[i] {
            CommandPart::Execute { name, args, stdin, stdout } => {
                let consumed: bool = pending && match stdin {
                    ExecutionSource::Pipe(PipeEndpoint::Read) => true,
                    _ => false,
                };
                let after_in: bool = pending && !consumed;
                let stdin_plan: StdinPlan = match stdin {
                    ExecutionSource::Inherit => StdinPlan::FromTerminal,
                    ExecutionSource::Pipe(PipeEndpoint::Read) => if pending {
                        StdinPlan::FromPreviousPipe
                    } else {
                        StdinPlan::FromTerminal
                    },
                    ExecutionSource::Pipe(PipeEndpoint::Write) => StdinPlan::FromTerminal,
                    ExecutionSource::File(p, _) => StdinPlan::FromFile(p.clone()),
                };
                let piped: bool = match stdout {
                    ExecutionSource::Pipe(PipeEndpoint::Write) => true,
                    _ => false,
                };
                let stdout_plan: StdoutPlan = match stdout {
                    ExecutionSource::Inherit => StdoutPlan::ToTerminal,
                    ExecutionSource::Pipe(PipeEndpoint::Write) => StdoutPlan::CapturePipe,
                    ExecutionSource::Pipe(PipeEndpoint::Read) => StdoutPlan::ToTerminal,
                    ExecutionSource::File(p, a) => StdoutPlan::ToFile(p.clone(), *a),
                };
                let step = SpawnStep {
                    name: name.clone(),
                    args: clone_words(args),
                    stdin: stdin_plan,
                    stdout: stdout_plan,
                    wait: !piped && !after_in,
                };
                proof {
                    assert(step@.args =~= uv[gi].args);
                    assert(step@ == spec_steps(uv, gi, gpending)[0]);
                }
                steps.push(step);
                pending = piped || after_in;
                i = i + 1;
                proof {
                    assert(steps_view(steps@) =~= steps_view(gsteps).push(
                        spec_steps(uv, gi, gpending)[0],
                    ));
                    assert(steps_view(steps@) + spec_steps(uv, i as int, pending) =~= steps_view(
                        gsteps,
                    ) + spec_steps(uv, gi, gpending));
                }
            },
        }
    }
    proof {
        assert(steps_view(steps@) + spec_steps(uv, i as int, pending) =~= steps_view(steps@));
        assert(steps_view(steps@) =~= spec_steps(uv, 0, false));
    }
    Dispatch::RunPipeline(steps)
}

/// The steps of a fully piped chain, from stage `i` on. In such a chain a
/// captured handle is pending exactly after the first stage, every stage
/// consumes it, and only the last stage has nothing captured from it.
proof fn lemma_steps_of_piped_chain(units: Seq<UnitView>, i: int)
    requires
        0 <= i <= units.len(),
        forall|k: int|
            0 <= k < units.len() ==> ((#[trigger] units[k]).stdout is Pipe <==> k + 1
                < units.len()),
        forall|k: int|
            0 <= k < units.len() ==> ((#[trigger] units[k]).stdout is Pipe ==> units[k].stdout
                == SourceView::Pipe(PipeEndpoint::Write)),
        forall|k: int|
            0 <= k < units.len() ==> ((#[trigger] units[k]).stdin is Pipe <==> k > 0),
        forall|k: int|
            0 <= k < units.len() ==> ((#[trigger] units[k]).stdin is Pipe ==> units[k].stdin
                == SourceView::Pipe(PipeEndpoint::Read)),
    ensures
        ({
            let steps = spec_steps(units, i, i > 0);
            &&& steps.len() == units.len() - i
            &&& forall|k: int|
                0 <= k < steps.len() ==> ((#[trigger] steps[k]).wait <==> i + k + 1
                    == units.len())
            &&& forall|k: int|
                0 <= k < steps.len() ==> ((#[trigger] steps[k]).stdin is FromPreviousPipe <==> i
                    + k > 0)
            &&& forall|k: int|
                0 <= k < steps.len() ==> ((#[trigger] steps[k]).stdout is CapturePipe <==> i + k
                    + 1 < units.len())
        }),
    decreases units.len() - i,
{
    if i < units.len() {
        lemma_steps_of_piped_chain(units, i + 1);
        let steps = spec_steps(units, i, i > 0);
        let rest = spec_steps(units, i + 1, i + 1 > 0);
        assert(spec_steps(units, i + 1, units[i].stdout is Pipe) == rest);
        assert forall|k: int| 0 <= k < steps.len() implies ((#[trigger] steps[k]).wait <==> i + k
            + 1 == units.len()) by {
            if k > 0 {
                assert(steps[k] == rest[k - 1]);
            }
        }
        assert forall|k: int| 0 <= k < steps.len() implies ((#[trigger] steps[k]).stdin
            is FromPreviousPipe <==> i + k > 0) by {
            if k > 0 {
                assert(steps[k] == rest[k - 1]);
            }
        }
        assert forall|k: int| 0 <= k < steps.len() implies ((#[trigger] steps[k]).stdout
            is CapturePipe <==> i + k + 1 < units.len()) by {
            if k > 0 {
                assert(steps[k] == rest[k - 1]);
            }
        }
    }
}

/// The completion policy on a chain whose adjacent stages are all joined
/// by pipes (as the parser produces for `a | b | ... | z`): there is one
/// step per stage, every stage after the first reads the captured pipe of
/// its predecessor, every stage before the last has its output captured,
/// and only the terminal stage is waited on.
pub proof fn lemma_only_terminal_stage_waits(units: Seq<UnitView>)
    requires
        forall|k: int|
            0 <= k < units.len() ==> ((#[trigger] units[k]).stdout is Pipe <==> k + 1
                < units.len()),
        forall|k: int|
            0 <= k < units.len() ==> ((#[trigger] units[k]).stdout is Pipe ==> units[k].stdout
                == SourceView::Pipe(PipeEndpoint::Write)),
        forall|k: int|
            0 <= k < units.len() ==> ((#[trigger] units[k]).stdin is Pipe <==> k > 0),
        forall|k: int|
            0 <= k < units.len() ==> ((#[trigger] units[k]).stdin is Pipe ==> units[k].stdin
                == SourceView::Pipe(PipeEndpoint::Read)),
    ensures
        spec_steps(units, 0, false).len() == units.len(),
        forall|k: int|
            0 <= k < units.len() ==> ((#[trigger] spec_steps(units, 0, false)[k]).wait <==> k + 1
                == units.len()),
        forall|k: int|
            0 <= k < units.len() ==> ((#[trigger] spec_steps(units, 0, false)[k]).stdin
                is FromPreviousPipe <==> k > 0),
        forall|k: int|
            0 <= k < units.len() ==> ((#[trigger] spec_steps(units, 0, false)[k]).stdout
                is CapturePipe <==> k + 1 < units.len()),
{
    lemma_steps_of_piped_chain(units, 0);
}

} // verus!
