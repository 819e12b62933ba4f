//! The programs that the build runs.

use vstd::prelude::*;
use vstd::string::*;

use crate::config;
use crate::log;
use crate::log::Verbosity;
use crate::text;

verus! {

/// A program that the build runs.
#[derive(Debug, Clone, Copy, PartialEq, Eq, Structural)]
pub enum Program {
    Git,
    Rustfmt,
}

/// The name that a program is started under.
pub open spec fn program_name(program: Program) -> Seq<char> {
    match program {
        Program::Git => "git"@,
        Program::Rustfmt => "rustfmt"@,
    }
}

impl Program {
    /// The name that the program is started under.
    pub fn name(&self) -> (name: &'static str)
        ensures
            name@ == program_name(*self),
            name@ == (match *self {
                Program::Git => "git"@,
                Program::Rustfmt => "rustfmt"@,
            }),
    {
        match self {
            Program::Git => "git",
            Program::Rustfmt => "rustfmt",
        }
    }
}

/// Where the output of a program goes.
#[derive(Debug, Clone, Copy, PartialEq, Eq, Structural)]
pub enum Output {
    /// It is dropped.
    Null,
    /// It goes where the output of the build goes.
    Inherit,
}

/// Where the output of a program goes: nowhere if messages are suppressed.
pub fn command_output(verbosity: &Verbosity) -> (output: Output)
    ensures
        output == (if verbosity@ {
            Output::Null
        } else {
            Output::Inherit
        }),
{
    if log::is_quiet(verbosity) {
        Output::Null
    } else {
        Output::Inherit
    }
}

/// How a program ended. There is no code where a signal ended it.
#[derive(Debug, Clone, Copy, PartialEq, Eq, Structural)]
pub struct Exit {
    pub success: bool,
    pub code: Option<i32>,
}

/// An exit code as it is shown.
pub open spec fn code_text(code: Option<i32>) -> Seq<char> {
    match code {
        Some(n) => "Some("@ + text::decimal(n as int) + ")"@,
        None => "None"@,
    }
}

/// What the build breaks off with when a program has failed.
pub open spec fn failure_text(program: Program, code: Option<i32>) -> Seq<char> {
    "\""@ + program_name(program) + "\" exited with error code: "@ + code_text(code)
}

/// What follows from the end of a program: unless it succeeded, the build breaks off with the text
/// in the error.
pub fn run_cmd(program: Program, exit: Exit) -> (outcome: Result<(), String>)
    ensures
        outcome is Ok <==> exit.success,
        outcome matches Err(message) ==> message@ == failure_text(program, exit.code),
        outcome matches Err(message) ==> message@ == "\""@ + (match program {
            Program::Git => "git"@,
            Program::Rustfmt => "rustfmt"@,
        }) + "\" exited with error code: "@ + (match exit.code {
            Some(n) => "Some("@ + text::decimal(n as int) + ")"@,
            None => "None"@,
        }),
{
    if exit.success {
        return Ok(());
    }
    let mut message = text::concat("\"", program.name());
    message.append("\" exited with error code: ");
    match exit.code {
        Some(n) => {
            let mut code = text::concat("Some(", text::int_text(n).as_str());
            code.append(")");
            message.append(code.as_str());
        },
        None => {
            message.append("None");
        },
    }
    Err(message)
}

/// One step of the update of the submodules.
pub enum Step {
    /// A message is logged.
    Info(String),
    /// `git` is run with these arguments.
    Git(Vec<String>),
}

/// What a [`Step`] holds.
pub enum StepView {
    Info(Seq<char>),
    Git(Seq<Seq<char>>),
}

impl View for Step {
    type V = StepView;

    open spec fn view(&self) -> StepView {
        match self {
            Step::Info(message) => StepView::Info(message@),
            Step::Git(args) => StepView::Git(text::strings(args@)),
        }
    }
}

/// What a list of steps holds.
pub open spec fn steps(list: Seq<Step>) -> Seq<StepView> {
    list.map_values(|step: Step| step@)
}

/// One submodule is initialised, fetched, and set to a revision.
pub open spec fn submodule_steps(
    message: Seq<char>,
    dir: Seq<char>,
    rev: Seq<char>,
) -> Seq<StepView> {
    seq![
        StepView::Info(message),
        StepView::Git(seq!["submodule"@, "update"@, "--init"@]),
        StepView::Git(seq!["-C"@, dir, "fetch"@]),
        StepView::Git(seq!["-C"@, dir, "reset"@, "--hard"@, rev]),
    ]
}

/// The cosmos-sdk, ibc-go and wasmd submodules, in this order.
pub open spec fn update_steps() -> Seq<StepView> {
    submodule_steps(
        "Updating cosmos/cosmos-sdk submodule..."@,
        config::COSMOS_SDK_DIR@,
        config::COSMOS_SDK_REV@,
    ) + submodule_steps(
        "Updating cosmos/ibc-go submodule..."@,
        config::IBC_DIR@,
        config::IBC_REV@,
    ) + submodule_steps(
        "Updating wasmd submodule..."@,
        config::WASMD_DIR@,
        config::WASMD_REV@,
    )
}

/// Adds the steps for one submodule.
fn update_submodule(message: &str, dir: &str, rev: &str, list: &mut Vec<Step>)
    ensures
        steps(final(list)@) == steps(old(list)@) + submodule_steps(message@, dir@, rev@),
{
    let init = text::owned(&vec!["submodule", "update", "--init"]);
    let fetch = text::owned(&vec!["-C", dir, "fetch"]);
    let reset = text::owned(&vec!["-C", dir, "reset", "--hard", rev]);
    proof {
        assert(text::strings(init@) =~= seq!["submodule"@, "update"@, "--init"@]);
        assert(text::strings(fetch@) =~= seq!["-C"@, dir@, "fetch"@]);
        assert(text::strings(reset@) =~= seq!["-C"@, dir@, "reset"@, "--hard"@, rev@]);
    }
    list.push(Step::Info(message.to_owned()));
    list.push(Step::Git(init));
    list.push(Step::Git(fetch));
    list.push(Step::Git(reset));
    proof {
        assert(steps(list@) =~= steps(old(list)@) + submodule_steps(message@, dir@, rev@));
    }
}

/// The steps that bring the submodules to the revisions that the build is made for. [`next_step`]
/// says how to go through them.
pub fn update_submodules() -> (list: Vec<Step>)
    ensures
        steps(list@) == update_steps(),
{
    let mut list: Vec<Step> = Vec::new();
    update_submodule(
        "Updating cosmos/cosmos-sdk submodule...",
        config::COSMOS_SDK_DIR,
        config::COSMOS_SDK_REV,
        &mut list,
    );
    update_submodule(
        "Updating cosmos/ibc-go submodule...",
        config::IBC_DIR,
        config::IBC_REV,
        &mut list,
    );
    update_submodule(
        "Updating wasmd submodule...",
        config::WASMD_DIR,
        config::WASMD_REV,
        &mut list,
    );
    proof {
        assert(steps(list@) =~= update_steps());
    }
    list
}

/// How a list of steps goes on.
pub enum Next<'a> {
    /// This step is performed.
    Do(&'a Step),
    /// All steps have been performed.
    Finished,
    /// The step before has failed: nothing more is performed, and the build breaks off with the
    /// text.
    BreakOff(String),
}

/// What a [`Next`] holds.
pub enum NextView {
    Do(StepView),
    Finished,
    BreakOff(Seq<char>),
}

impl<'a> View for Next<'a> {
    type V = NextView;

    open spec fn view(&self) -> NextView {
        match self {
            Next::Do(step) => NextView::Do(step@),
            Next::Finished => NextView::Finished,
            Next::BreakOff(message) => NextView::BreakOff(message@),
        }
    }
}

/// How a list of steps goes on when the first `done` have been performed; `error` is what the last
/// of them failed with, if it failed.
pub open spec fn continuation(
    list: Seq<StepView>,
    done: nat,
    error: Option<Seq<char>>,
) -> NextView {
    match error {
        Some(message) => NextView::BreakOff(message),
        None => if done < list.len() {
            NextView::Do(list[done as int])
        } else {
            NextView::Finished
        },
    }
}

/// How a list of steps goes on when the first `done` have been performed and the last of them has
/// had the outcome `last` (success, if none has been performed yet).
pub fn next_step<'a>(list: &'a Vec<Step>, done: usize, last: Result<(), String>) -> (next: Next<'a>)
    ensures
        next@ == continuation(
            steps(list@),
            done as nat,
            match last {
                Ok(_) => None,
                Err(message) => Some(message@),
            },
        ),
        last matches Err(message) ==> (next matches Next::BreakOff(said) && said@ == message@),
        last is Ok && done < list@.len() ==> (next matches Next::Do(step) && *step
            == list@[done as int]),
        last is Ok && done >= list@.len() ==> next is Finished,
{
    match last {
        Err(message) => Next::BreakOff(message),
        Ok(_) => if done < list.len() {
            Next::Do(&list[done])
        } else {
            Next::Finished
        },
    }
}

/// What the last of the first `done` steps has failed with, if it has. `error` gives, for each
/// position in the list, what the step there fails with, if it fails.
pub open spec fn error_before(error: spec_fn(int) -> Option<Seq<char>>, done: nat) -> Option<
    Seq<char>,
> {
    if done == 0 {
        None
    } else {
        error(done - 1)
    }
}

/// The steps that are performed after the first `done`, going on as [`continuation`] says.
pub open spec fn performed(
    list: Seq<StepView>,
    error: spec_fn(int) -> Option<Seq<char>>,
    done: nat,
) -> Seq<StepView>
    decreases list.len() - done,
{
    match continuation(list, done, error_before(error, done)) {
        NextView::Do(step) => if done < list.len() {
            seq![step] + performed(list, error, done + 1)
        } else {
            Seq::empty()
        },
        _ => Seq::empty(),
    }
}

/// What is said after the last step that is performed.
pub open spec fn ending(
    list: Seq<StepView>,
    error: spec_fn(int) -> Option<Seq<char>>,
    done: nat,
) -> NextView
    decreases list.len() - done,
{
    match continuation(list, done, error_before(error, done)) {
        NextView::Do(step) => if done < list.len() {
            ending(list, error, done + 1)
        } else {
            NextView::Do(step)
        },
        other => other,
    }
}

/// The first step that fails is the last that is performed, and what it failed with is what the
/// build breaks off with.
pub proof fn law_first_failure_ends_the_steps(
    list: Seq<StepView>,
    error: spec_fn(int) -> Option<Seq<char>>,
    k: int,
)
    requires
        0 <= k < list.len(),
        error(k) is Some,
        forall|d: int| 0 <= d < k ==> #[trigger] error(d) is None,
    ensures
        performed(list, error, 0) == list.take(k + 1),
        ending(list, error, 0) == NextView::BreakOff(error(k)->Some_0),
{
    lemma_until_failure(list, error, k, 0);
    assert(list.subrange(0, k + 1) =~= list.take(k + 1));
}

proof fn lemma_until_failure(
    list: Seq<StepView>,
    error: spec_fn(int) -> Option<Seq<char>>,
    k: int,
    done: nat,
)
    requires
        0 <= k < list.len(),
        done <= k + 1,
        error(k) is Some,
        forall|d: int| 0 <= d < k ==> #[trigger] error(d) is None,
    ensures
        performed(list, error, done) == list.subrange(done as int, k + 1),
        ending(list, error, done) == NextView::BreakOff(error(k)->Some_0),
    decreases k + 1 - done,
{
    if done <= k {
        lemma_until_failure(list, error, k, done + 1);
        assert(done > 0 ==> error(done - 1) is None);
        assert(performed(list, error, done) =~= list.subrange(done as int, k + 1));
    } else {
        assert(performed(list, error, done) =~= list.subrange(done as int, k + 1));
    }
}

/// If no step fails, all are performed.
pub proof fn law_without_failure_all_steps_are_performed(
    list: Seq<StepView>,
    error: spec_fn(int) -> Option<Seq<char>>,
)
    requires
        forall|d: int| 0 <= d < list.len() ==> #[trigger] error(d) is None,
    ensures
        performed(list, error, 0) == list,
        ending(list, error, 0) is Finished,
{
    lemma_without_failure(list, error, 0);
    assert(list.skip(0) =~= list);
}

proof fn lemma_without_failure(
    list: Seq<StepView>,
    error: spec_fn(int) -> Option<Seq<char>>,
    done: nat,
)
    requires
        done <= list.len(),
        forall|d: int| 0 <= d < list.len() ==> #[trigger] error(d) is None,
    ensures
        performed(list, error, done) == list.skip(done as int),
        ending(list, error, done) is Finished,
    decreases list.len() - done,
{
    assert(done > 0 ==> error(done - 1) is None);
    if done < list.len() {
        lemma_without_failure(list, error, done + 1);
    }
    assert(performed(list, error, done) =~= list.skip(done as int));
}

/// How many of the steps run `git`.
pub open spec fn git_runs(list: Seq<StepView>) -> nat
    decreases list.len(),
{
    if list.len() == 0 {
        0
    } else {
        git_runs(list.drop_last()) + if list.last() is Git {
            1nat
        } else {
            0nat
        }
    }
}

/// Where in [`update_steps`] the `k`-th run of `git` is, counted from 1: three for each submodule,
/// after a message.
pub open spec fn git_run_position(k: int) -> int {
    4 * ((k - 1) / 3) + 1 + (k - 1) % 3
}

/// In an update in which the `k`-th run of `git` is the first that fails, exactly `k` are made.
pub proof fn law_failed_git_run_ends_the_update(error: spec_fn(int) -> Option<Seq<char>>, k: int)
    requires
        1 <= k <= 9,
        error(git_run_position(k)) is Some,
        forall|d: int| 0 <= d < git_run_position(k) ==> #[trigger] error(d) is None,
    ensures
        update_steps()[git_run_position(k)] is Git,
        performed(update_steps(), error, 0) == update_steps().take(git_run_position(k) + 1),
        git_runs(performed(update_steps(), error, 0)) == k,
        ending(update_steps(), error, 0) == NextView::BreakOff(
            error(git_run_position(k))->Some_0,
        ),
{
    let list = update_steps();
    let p = git_run_position(k);
    law_first_failure_ends_the_steps(list, error, p);
    lemma_git_runs_in_update(p + 1);
}

/// The runs of `git` among the first `n` steps of the update.
proof fn lemma_git_runs_in_update(n: int)
    requires
        0 <= n <= 12,
    ensures
        update_steps().len() == 12,
        git_runs(update_steps().take(n)) == 3 * (n / 4) + if n % 4 == 0 {
            0
        } else {
            n % 4 - 1
        },
    decreases n,
{
    let list = update_steps();
    if n > 0 {
        lemma_git_runs_in_update(n - 1);
        assert(list.take(n).drop_last() =~= list.take(n - 1));
        assert(list.take(n).last() == list[n - 1]);
        assert(list[n - 1] is Git <==> (n - 1) % 4 != 0);
    }
}

/// A list of steps holds what they hold, one for one and in order.
pub proof fn law_steps_hold_their_texts(list: Seq<Step>, i: int)
    requires
        0 <= i < list.len(),
    ensures
        steps(list).len() == list.len(),
        steps(list)[i] == (match list[i] {
            Step::Info(message) => StepView::Info(message@),
            Step::Git(args) => StepView::Git(text::strings(args@)),
        }),
{
}

/// The update brings three submodules to their revisions: each is announced, initialised, fetched
/// and set to its revision, in this order, and nothing else is done.
pub proof fn law_each_submodule_is_set_to_its_revision(m: int)
    requires
        0 <= m < 3,
    ensures
        ({
            let (name, dir, rev) = if m == 0 {
                ("cosmos/cosmos-sdk"@, "../dependencies/cosmos-sdk"@, "v0.46.12"@)
            } else if m == 1 {
                ("cosmos/ibc-go"@, "../dependencies/ibc-go"@, "v5.2.0"@)
            } else {
                ("wasmd"@, "../dependencies/wasmd"@, "v0.29.2"@)
            };
            &&& update_steps().len() == 12
            &&& update_steps()[4 * m] == StepView::Info("Updating "@ + name + " submodule..."@)
            &&& update_steps()[4 * m + 1] == StepView::Git(
                seq!["submodule"@, "update"@, "--init"@],
            )
            &&& update_steps()[4 * m + 2] == StepView::Git(seq!["-C"@, dir, "fetch"@])
            &&& update_steps()[4 * m + 3] == StepView::Git(
                seq!["-C"@, dir, "reset"@, "--hard"@, rev],
            )
        }),
{
    reveal_strlit("Updating ");
    reveal_strlit(" submodule...");
    if m == 0 {
        reveal_strlit("cosmos/cosmos-sdk");
        reveal_strlit("Updating cosmos/cosmos-sdk submodule...");
        assert("Updating "@ + "cosmos/cosmos-sdk"@ + " submodule..."@
            =~= "Updating cosmos/cosmos-sdk submodule..."@);
    } else if m == 1 {
        reveal_strlit("cosmos/ibc-go");
        reveal_strlit("Updating cosmos/ibc-go submodule...");
        assert("Updating "@ + "cosmos/ibc-go"@ + " submodule..."@
            =~= "Updating cosmos/ibc-go submodule..."@);
    } else {
        reveal_strlit("wasmd");
        reveal_strlit("Updating wasmd submodule...");
        assert("Updating "@ + "wasmd"@ + " submodule..."@ =~= "Updating wasmd submodule..."@);
    }
}

} // verus!
