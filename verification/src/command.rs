//! Requests to run external programs, and the order in which a sequence of
//! them is worked off.

use vstd::prelude::*;
use crate::text::{append_chars, append_str, chars_of, string_of, texts, lemma_texts_push};

verus! {

/// A request to run a program: the program, its arguments, whether it runs
/// with elevated rights, and whether a failure of it is passed over.
#[derive(Debug)]
pub struct Command {
    pub program: String,
    pub args: Vec<String>,
    pub sudo: bool,
    pub best_effort: bool,
}

/// What a [`Command`] holds.
pub struct CommandView {
    pub program: Seq<char>,
    pub args: Seq<Seq<char>>,
    pub sudo: bool,
    pub best_effort: bool,
}

impl View for Command {
    type V = CommandView;

    open spec fn view(&self) -> CommandView {
        CommandView {
            program: self.program@,
            args: texts(self.args@),
            sudo: self.sudo,
            best_effort: self.best_effort,
        }
    }
}

/// The requests that a vector of commands holds.
pub open spec fn plan_view(plan: Seq<Command>) -> Seq<CommandView> {
    plan.map_values(|c: Command| c@)
}

/// A request whose failure counts, with elevated rights.
pub open spec fn sudo(program: Seq<char>, args: Seq<Seq<char>>) -> CommandView {
    CommandView { program, args, sudo: true, best_effort: false }
}

/// A request whose failure counts, without elevated rights.
pub open spec fn plain(program: Seq<char>, args: Seq<Seq<char>>) -> CommandView {
    CommandView { program, args, sudo: false, best_effort: false }
}

/// The same request with its failure passed over.
pub open spec fn tolerant(c: CommandView) -> CommandView {
    CommandView { best_effort: true, ..c }
}

/// The texts of a slice of string slices.
pub open spec fn strs(args: Seq<&str>) -> Seq<Seq<char>> {
    args.map_values(|s: &str| s@)
}

pub struct SystemCommand;

impl SystemCommand {
    /// The request to run `cmd` with `args`.
    pub fn run(cmd: &str, args: &[&str]) -> (c: Command)
        ensures
            c@ == plain(cmd@, strs(args@)),
    {
        Command { program: cmd.to_string(), args: owned(args), sudo: false, best_effort: false }
    }

    /// The request to run `cmd` with `args` and elevated rights.
    pub fn run_sudo(cmd: &str, args: &[&str]) -> (c: Command)
        ensures
            c@ == sudo(cmd@, strs(args@)),
    {
        Command { program: cmd.to_string(), args: owned(args), sudo: true, best_effort: false }
    }
}

/// One owned string for each string slice.
pub fn owned(args: &[&str]) -> (out: Vec<String>)
    ensures
        texts(out@) == strs(args@),
{
    let mut out: Vec<String> = Vec::new();
    let mut i: usize = 0;
    assert(texts(out@) =~= strs(args@.take(0)));
    while i < args.len()
        invariant
            i <= args.len(),
            texts(out@) == strs(args@.take(i as int)),
        decreases args.len() - i,
    {
        let s = args[i].to_string();
        proof {
            lemma_texts_push(out@, s);
            assert(args@.take(i + 1) =~= args@.take(i as int).push(args@[i as int]));
            assert(strs(args@.take(i + 1)) =~= strs(args@.take(i as int)).push(args@[i as int]@));
        }
        out.push(s);
        i += 1;
    }
    assert(args@ =~= args@.take(args@.len() as int));
    out
}

/// The parts with `sep` between each two of them.
pub open spec fn joined(parts: Seq<Seq<char>>, sep: Seq<char>) -> Seq<char>
    decreases parts.len(),
{
    if parts.len() == 0 {
        Seq::empty()
    } else if parts.len() == 1 {
        parts[0]
    } else {
        joined(parts.drop_last(), sep) + sep + parts.last()
    }
}

/// The parts with `sep` between each two of them.
pub fn join(parts: &Vec<String>, sep: &str) -> (out: Vec<char>)
    ensures
        out@ == joined(texts(parts@), sep@),
{
    let mut out: Vec<char> = Vec::new();
    let mut i: usize = 0;
    let ghost all = texts(parts@);
    assert(all.take(0) =~= Seq::<Seq<char>>::empty());
    while i < parts.len()
        invariant
            i <= parts.len(),
            all == texts(parts@),
            out@ == joined(all.take(i as int), sep@),
        decreases parts.len() - i,
    {
        proof {
            assert(all.take(i + 1).drop_last() =~= all.take(i as int));
            assert(all.take(i + 1).last() == parts@[i as int]@);
            if i == 0 {
                assert(Seq::<char>::empty() + parts@[0]@ =~= parts@[0]@);
            }
        }
        if i > 0 {
            append_str(&mut out, sep);
        }
        append_str(&mut out, parts[i].as_str());
        i += 1;
    }
    assert(all.take(all.len() as int) =~= all);
    out
}

/// The line that a shell is given to carry a request out.
pub open spec fn shell_line(c: CommandView) -> Seq<char> {
    (if c.sudo {
        "sudo "@
    } else {
        Seq::empty()
    }) + c.program + " "@ + joined(c.args, " "@)
}

/// What running a program gave: whether it ended well, and what it wrote.
#[derive(Debug)]
pub struct CommandOutput {
    pub success: bool,
    pub stdout: String,
    pub stderr: String,
}

/// A program that ended badly, with what there is to say about it.
#[derive(Debug)]
pub struct CommandError {
    pub message: String,
}

/// The message for a request that ended badly with `stderr` as its
/// diagnostic output.
pub open spec fn failure_message(c: CommandView, stderr: Seq<char>) -> Seq<char> {
    if c.sudo {
        "Command failed: "@ + stderr
    } else {
        "Command failed: "@ + c.program + " "@ + stderr
    }
}

impl Command {
    /// The same request with its failure passed over.
    pub fn ignoring_failure(self) -> (c: Command)
        ensures
            c@ == tolerant(self@),
    {
        Command { program: self.program, args: self.args, sudo: self.sudo, best_effort: true }
    }

    /// The line that a shell is given to carry the request out.
    pub fn shell_line(&self) -> (line: String)
        ensures
            line@ == shell_line(self@),
    {
        let mut out: Vec<char> = Vec::new();
        if self.sudo {
            append_str(&mut out, "sudo ");
        }
        append_str(&mut out, self.program.as_str());
        append_str(&mut out, " ");
        let args = join(&self.args, " ");
        append_chars(&mut out, args.as_slice());
        assert(out@ =~= shell_line(self@));
        string_of(out.as_slice())
    }

    /// What the request comes to, given what running it gave: what the
    /// program wrote, or an error that carries its diagnostic output.
    pub fn outcome(&self, output: CommandOutput) -> (r: Result<String, CommandError>)
        ensures
            match r {
                Ok(text) => output.success && text@ == output.stdout@,
                Err(e) => !output.success && e.message@ == failure_message(self@, output.stderr@),
            },
    {
        if output.success {
            return Ok(output.stdout);
        }
        let mut msg: Vec<char> = chars_of("Command failed: ");
        if !self.sudo {
            append_str(&mut msg, self.program.as_str());
            append_str(&mut msg, " ");
        }
        append_str(&mut msg, output.stderr.as_str());
        assert(msg@ =~= failure_message(self@, output.stderr@));
        Err(CommandError { message: string_of(msg.as_slice()) })
    }
}

/// A change of a configuration file: the file at `path` is written with
/// `contents` first; only then are the requests of `plan` run.
#[derive(Debug)]
pub struct ConfigUpdate {
    pub path: String,
    pub contents: String,
    pub plan: Vec<Command>,
}

// ---------------------------------------------------------------------------
// Working a plan off
// ---------------------------------------------------------------------------

/// Where the work on a plan stands.
#[derive(Clone, Copy, Debug, PartialEq, Eq, Structural)]
pub enum Progress {
    /// The request at this index is to be run next.
    Run(usize),
    /// Every request was run, and none failed that counts.
    Finished,
    /// The request at this index failed, and nothing after it is run.
    Failed(usize),
}

/// Where the work stands before anything was run.
pub open spec fn progress_at_start(len: nat) -> Progress {
    if len == 0 {
        Progress::Finished
    } else {
        Progress::Run(0)
    }
}

/// Where the work stands after the request at `index` was run and ended
/// well (`ok`) or badly. A failure stops the work unless the request is
/// one whose failure is passed over.
pub open spec fn progress_after(plan: Seq<CommandView>, index: int, ok: bool) -> Progress {
    if !(0 <= index < plan.len()) {
        Progress::Finished
    } else if !ok && !plan[index].best_effort {
        Progress::Failed(index as usize)
    } else if index + 1 < plan.len() {
        Progress::Run((index + 1) as usize)
    } else {
        Progress::Finished
    }
}

/// Where the work on `plan` stands before anything was run.
pub fn begin(plan: &Vec<Command>) -> (p: Progress)
    ensures
        p == progress_at_start(plan@.len()),
{
    if plan.len() == 0 {
        Progress::Finished
    } else {
        Progress::Run(0)
    }
}

/// Where the work on `plan` stands after the request at `index` was run.
pub fn advance(plan: &Vec<Command>, index: usize, ok: bool) -> (p: Progress)
    ensures
        p == progress_after(plan_view(plan@), index as int, ok),
{
    if index >= plan.len() {
        Progress::Finished
    } else if !ok && !plan[index].best_effort {
        Progress::Failed(index)
    } else if index + 1 < plan.len() {
        Progress::Run(index + 1)
    } else {
        Progress::Finished
    }
}

/// What running a program gave, as a value of the model.
pub struct OutputView {
    pub success: bool,
    pub stdout: Seq<char>,
    pub stderr: Seq<char>,
}

impl View for CommandOutput {
    type V = OutputView;

    open spec fn view(&self) -> OutputView {
        OutputView { success: self.success, stdout: self.stdout@, stderr: self.stderr@ }
    }
}

/// The work on a plan: the plan, where the work stands, what the requests
/// that were run wrote, and the failure that stopped the work, if one did.
pub struct PlanRun {
    plan: Vec<Command>,
    progress: Progress,
    outputs: Vec<String>,
    failure: Option<CommandError>,
}

/// What a [`PlanRun`] holds.
pub struct PlanRunView {
    pub plan: Seq<CommandView>,
    pub progress: Progress,
    pub outputs: Seq<Seq<char>>,
    pub failure: Option<Seq<char>>,
}

/// The work after the request that was due was run and gave `output`. What
/// it wrote is noted; where it ended badly and that is passed over, it
/// counts as having written nothing. Where it ended badly and that counts,
/// the work stops with its failure. Work that is over stays as it is.
pub open spec fn reported(r: PlanRunView, output: OutputView) -> PlanRunView {
    match r.progress {
        Progress::Run(i) => if i >= r.plan.len() {
            r
        } else if output.success {
            PlanRunView {
                progress: progress_after(r.plan, i as int, true),
                outputs: r.outputs.push(output.stdout),
                ..r
            }
        } else if r.plan[i as int].best_effort {
            PlanRunView {
                progress: progress_after(r.plan, i as int, false),
                outputs: r.outputs.push(Seq::empty()),
                ..r
            }
        } else {
            PlanRunView {
                progress: Progress::Failed(i),
                failure: Some(failure_message(r.plan[i as int], output.stderr)),
                ..r
            }
        },
        _ => r,
    }
}

/// What the work came to: what the requests wrote, one text for each, where
/// every request was run; the failure where one stopped the work; and an
/// error too where the work is not over.
pub open spec fn run_result(r: PlanRunView) -> Result<Seq<Seq<char>>, Seq<char>> {
    match r.progress {
        Progress::Finished => Ok(r.outputs),
        Progress::Failed(_) => Err(
            match r.failure {
                Some(f) => f,
                None => "Command failed"@,
            },
        ),
        Progress::Run(_) => Err("Command not run"@),
    }
}

impl PlanRun {
    pub closed spec fn view(&self) -> PlanRunView {
        PlanRunView {
            plan: plan_view(self.plan@),
            progress: self.progress,
            outputs: texts(self.outputs@),
            failure: match self.failure {
                Some(e) => Some(e.message@),
                None => None,
            },
        }
    }

    /// The work on `plan` before anything was run.
    pub fn start(plan: Vec<Command>) -> (r: Self)
        ensures
            r@ == (PlanRunView {
                plan: plan_view(plan@),
                progress: progress_at_start(plan@.len()),
                outputs: Seq::empty(),
                failure: None,
            }),
    {
        let progress = begin(&plan);
        let r = PlanRun { plan, progress, outputs: Vec::new(), failure: None };
        assert(r@.outputs =~= Seq::<Seq<char>>::empty());
        r
    }

    /// The request that is to be run next, where there is one.
    pub fn current(&self) -> (c: Option<&Command>)
        ensures
            match c {
                Some(c) => self@.progress is Run && self@.progress->Run_0 < self@.plan.len()
                    && c@ == self@.plan[self@.progress->Run_0 as int],
                None => !(self@.progress is Run && self@.progress->Run_0 < self@.plan.len()),
            },
    {
        match self.progress {
            Progress::Run(i) => if i < self.plan.len() {
                Some(&self.plan[i])
            } else {
                None
            },
            _ => None,
        }
    }

    /// Takes what the request that was due gave: see [`reported`].
    pub fn report(&mut self, output: CommandOutput)
        ensures
            final(self)@ == reported(old(self)@, output@),
    {
        if let Progress::Run(i) = self.progress {
            if i < self.plan.len() {
                let tolerated = self.plan[i].best_effort;
                match self.plan[i].outcome(output) {
                    Ok(text) => {
                        proof {
                            lemma_texts_push(self.outputs@, text);
                        }
                        self.outputs.push(text);
                        self.progress = advance(&self.plan, i, true);
                    },
                    Err(e) => {
                        if tolerated {
                            let nothing = String::new();
                            proof {
                                lemma_texts_push(self.outputs@, nothing);
                            }
                            self.outputs.push(nothing);
                            self.progress = advance(&self.plan, i, false);
                        } else {
                            self.failure = Some(e);
                            self.progress = Progress::Failed(i);
                        }
                    },
                }
            }
        }
    }

    /// What the work came to: see [`run_result`].
    pub fn finish(self) -> (r: Result<Vec<String>, CommandError>)
        ensures
            match r {
                Ok(outputs) => run_result(self@) == Ok::<Seq<Seq<char>>, Seq<char>>(
                    texts(outputs@),
                ),
                Err(e) => run_result(self@) == Err::<Seq<Seq<char>>, Seq<char>>(e.message@),
            },
    {
        match self.progress {
            Progress::Finished => Ok(self.outputs),
            Progress::Failed(_) => match self.failure {
                Some(e) => Err(e),
                None => Err(CommandError { message: "Command failed".to_string() }),
            },
            Progress::Run(_) => Err(CommandError { message: "Command not run".to_string() }),
        }
    }
}

/// The work after the requests were run one after the other and gave
/// `outs`, one for each request that was due.
pub open spec fn run_with(r: PlanRunView, outs: Seq<OutputView>) -> PlanRunView
    decreases outs.len(),
{
    if outs.len() == 0 {
        r
    } else {
        reported(run_with(r, outs.drop_last()), outs.last())
    }
}

/// Whether the request at `i` ended badly, and that counts.
pub open spec fn fails(plan: Seq<CommandView>, outs: Seq<OutputView>, i: int) -> bool {
    0 <= i < plan.len() && i < outs.len() && !outs[i].success && !plan[i].best_effort
}

/// The first of the first `k` requests that failed, if one did.
pub open spec fn first_failure(plan: Seq<CommandView>, outs: Seq<OutputView>, k: int) -> Option<int>
    decreases k,
{
    if k <= 0 {
        None
    } else {
        match first_failure(plan, outs, k - 1) {
            Some(i) => Some(i),
            None => if fails(plan, outs, k - 1) {
                Some(k - 1)
            } else {
                None
            },
        }
    }
}

/// What a request counts as having written: what it wrote where it ended
/// well, and nothing where it ended badly.
pub open spec fn written(o: OutputView) -> Seq<char> {
    if o.success {
        o.stdout
    } else {
        Seq::empty()
    }
}

proof fn lemma_run_prefix(plan: Seq<CommandView>, outs: Seq<OutputView>, k: int)
    requires
        outs.len() == plan.len(),
        plan.len() <= usize::MAX,
        0 <= k <= plan.len(),
    ensures
        ({
            let start = PlanRunView {
                plan,
                progress: progress_at_start(plan.len()),
                outputs: Seq::empty(),
                failure: None,
            };
            let now = run_with(start, outs.take(k));
            &&& now.plan == plan
            &&& match first_failure(plan, outs, k) {
                Some(i) => {
                    &&& 0 <= i < k
                    &&& fails(plan, outs, i)
                    &&& forall|j: int| 0 <= j < i ==> !fails(plan, outs, j)
                    &&& now.progress == Progress::Failed(i as usize)
                    &&& now.failure == Some(failure_message(plan[i], outs[i].stderr))
                },
                None => {
                    &&& forall|j: int| 0 <= j < k ==> !fails(plan, outs, j)
                    &&& now.progress == if k < plan.len() {
                        Progress::Run(k as usize)
                    } else {
                        Progress::Finished
                    }
                    &&& now.failure is None
                    &&& now.outputs == outs.take(k).map_values(|o: OutputView| written(o))
                },
            }
        }),
    decreases k,
{
    let start = PlanRunView {
        plan,
        progress: progress_at_start(plan.len()),
        outputs: Seq::empty(),
        failure: None,
    };
    if k == 0 {
        assert(outs.take(0) =~= Seq::<OutputView>::empty());
        assert(start.outputs =~= outs.take(0).map_values(|o: OutputView| written(o)));
    } else {
        lemma_run_prefix(plan, outs, k - 1);
        assert(outs.take(k).drop_last() =~= outs.take(k - 1));
        assert(outs.take(k).last() == outs[k - 1]);
        let before = run_with(start, outs.take(k - 1));
        let now = run_with(start, outs.take(k));
        assert(now == reported(before, outs[k - 1]));
        if first_failure(plan, outs, k - 1) is None {
            assert(before.progress == Progress::Run((k - 1) as usize));
            if !fails(plan, outs, k - 1) {
                assert(now.outputs =~= outs.take(k).map_values(|o: OutputView| written(o)));
            }
        }
    }
}

/// A plan is worked off in order, and the work returns the first error:
/// where a request fails and that counts, no request after it is run, and
/// the work comes to the failure of that request; where none does, every
/// request is run and the work comes to what the requests wrote.
pub proof fn lemma_run_returns_first_error(plan: Seq<CommandView>, outs: Seq<OutputView>)
    requires
        outs.len() == plan.len(),
        plan.len() <= usize::MAX,
    ensures
        ({
            let start = PlanRunView {
                plan,
                progress: progress_at_start(plan.len()),
                outputs: Seq::empty(),
                failure: None,
            };
            match first_failure(plan, outs, plan.len() as int) {
                Some(i) => {
                    &&& fails(plan, outs, i)
                    &&& forall|j: int| 0 <= j < i ==> !fails(plan, outs, j)
                    &&& run_with(start, outs).progress == Progress::Failed(i as usize)
                    &&& run_result(run_with(start, outs)) == Err::<Seq<Seq<char>>, Seq<char>>(
                        failure_message(plan[i], outs[i].stderr),
                    )
                },
                None => {
                    &&& forall|j: int| 0 <= j < plan.len() ==> !fails(plan, outs, j)
                    &&& run_result(run_with(start, outs)) == Ok::<Seq<Seq<char>>, Seq<char>>(
                        outs.map_values(|o: OutputView| written(o)),
                    )
                },
            }
        }),
{
    lemma_run_prefix(plan, outs, plan.len() as int);
    assert(outs.take(plan.len() as int) =~= outs);
}

} // verus!
