//! Running one sequence: an assignment, a command, a boolean list, a pipeline or a subshell.
//!
//! A sequence that is made of others does not run them itself: it says which is to run next and in
//! what state, and takes back the result.
use crate::command::{command_step, execute_command, CommandStep, CommandStepView};
use crate::evaluate::{
    args_step, evaluate_string_or_word, parts_step, PartsRun, PartsStep, PartsStepView,
};
use crate::list::{
    execute_sequential_list, list_start, start_substitution, substitution_start,
    AsyncCommandBehavior, ListRun, ListView,
};
use crate::outcome::{ExecuteResult, ResultView};
use crate::platform::Platform;
use crate::state::{changes_of, EnvChange, EnvChangeView, ShellState, StateView};
use crate::syntax::{
    pipeline_elements, BooleanList, BooleanListOperator, EnvVar, Sequence, StringPart,
};
use vstd::prelude::*;

verus! {

/// Where an assignment has got to.
pub enum AssignStep<H> {
    /// The text that the output of `list` stands for goes to `run`.
    Substitute { list: ListRun<H>, run: AssignRun },
    /// The assignment has ended.
    Done(ExecuteResult<H>),
}

/// An assignment that waits for the text of a command substitution.
pub struct AssignRun {
    /// Whether it sets an environment variable; else it sets a variable of the shell alone.
    pub exported: bool,
    pub name: String,
    pub value: PartsRun,
    pub state: ShellState,
}

/// Where an assignment has got to, as mathematical values.
#[verifier::ext_equal]
pub enum AssignStepView<H> {
    Substitute { list: ListView<H>, run: AssignRunView },
    Done(ResultView<H>),
}

/// An assignment that waits for the text of a command substitution, as mathematical values.
#[verifier::ext_equal]
pub struct AssignRunView {
    pub exported: bool,
    pub name: Seq<char>,
    pub text: Seq<char>,
    pub parts: Seq<StringPart>,
    pub state: StateView,
}

impl View for AssignRun {
    type V = AssignRunView;

    open spec fn view(&self) -> AssignRunView {
        AssignRunView {
            exported: self.exported,
            name: self.name@,
            text: self.value.text@,
            parts: self.value.rest@,
            state: self.state@,
        }
    }
}

impl<H> View for AssignStep<H> {
    type V = AssignStepView<H>;

    open spec fn view(&self) -> AssignStepView<H> {
        match self {
            AssignStep::Substitute { list, run } => AssignStepView::Substitute {
                list: list@,
                run: run@,
            },
            AssignStep::Done(result) => AssignStepView::Done(result@),
        }
    }
}

/// The change that an assignment makes.
pub open spec fn assignment(exported: bool, name: Seq<char>, value: Seq<char>) -> EnvChangeView {
    if exported {
        EnvChangeView::SetEnvVar(name, value)
    } else {
        EnvChangeView::SetShellVar(name, value)
    }
}

/// What an assignment does once the evaluation of its value has got to `value`.
pub open spec fn assign_step<H>(
    exported: bool,
    name: Seq<char>,
    value: PartsStepView,
    state: StateView,
) -> AssignStepView<H> {
    match value {
        PartsStepView::Done(text) => AssignStepView::Done(
            ResultView::Continue(0, seq![assignment(exported, name, text)], Seq::empty()),
        ),
        PartsStepView::Substitute { list, text, rest } => AssignStepView::Substitute {
            list: substitution_start(list, state),
            run: AssignRunView { exported, name, text, parts: rest, state },
        },
    }
}

/// What an assignment does with the text of the command substitution that it waits for.
pub open spec fn assign_substituted_step<H>(run: AssignRunView, output: Seq<char>) -> AssignStepView<
    H,
> {
    assign_step(
        run.exported,
        run.name,
        parts_step(run.text + output, run.parts, run.state),
        run.state,
    )
}

/// Goes on from where the evaluation of the value has got to.
fn after_assigned_value<H>(exported: bool, name: String, value: PartsStep, state: ShellState) -> (step:
    AssignStep<H>)
    ensures
        step@ == assign_step::<H>(exported, name@, value@, state@),
{
    match value {
        PartsStep::Done(text) => {
            let change = if exported {
                EnvChange::SetEnvVar(name, text)
            } else {
                EnvChange::SetShellVar(name, text)
            };
            let mut changes: Vec<EnvChange> = Vec::new();
            changes.push(change);
            proof {
                assert(changes_of(changes@) =~= seq![change@]);
            }
            AssignStep::Done(ExecuteResult::Continue(0, changes, Vec::new()))
        },
        PartsStep::Substitute { list, run } => AssignStep::Substitute {
            list: start_substitution(list, &state),
            run: AssignRun { exported, name, value: run, state },
        },
    }
}

/// Begins to evaluate the value that a variable is to get.
pub fn execute_assignment<H>(exported: bool, var: EnvVar, state: ShellState) -> (step: AssignStep<H>)
    ensures
        step@ == assign_step::<H>(
            exported,
            var.name@,
            parts_step(Seq::empty(), var.value.parts(), state@),
            state@,
        ),
{
    let EnvVar { name, value } = var;
    let value = evaluate_string_or_word(value, &state);
    after_assigned_value(exported, name, value, state)
}

impl AssignRun {
    /// Goes on with the text that the awaited command substitution stands for.
    pub fn substituted<H>(self, output: &str) -> (step: AssignStep<H>)
        ensures
            step@ == assign_substituted_step::<H>(self@, output@),
    {
        let AssignRun { exported, name, value, state } = self;
        let value = value.substituted(output, &state);
        after_assigned_value(exported, name, value, state)
    }
}

/// What of `op next` runs when what precedes it ended with `exit_code`: `next` if `op` goes on
/// after that code, else, to the right of it, what follows the first operator that does.
pub open spec fn next_to_run(op: BooleanListOperator, next: Sequence, exit_code: i32) -> Option<
    Sequence,
>
    decreases next,
{
    if op.moves_next(exit_code) {
        Some(next)
    } else {
        match next {
            Sequence::BooleanList(list) => next_to_run(list.op, list.next, exit_code),
            _ => None,
        }
    }
}

/// What of `op next` runs when what precedes it ended with `exit_code`.
pub fn choose_next(op: BooleanListOperator, next: Sequence, exit_code: i32) -> (res: Option<Sequence>)
    ensures
        res == next_to_run(op, next, exit_code),
{
    let mut here = op;
    let mut rest = next;
    loop
        invariant
            next_to_run(here, rest, exit_code) == next_to_run(op, next, exit_code),
        decreases rest,
    {
        if here.moves_next_for_exit_code(exit_code) {
            return Some(rest);
        }
        match rest {
            Sequence::BooleanList(list) => {
                let BooleanList { current: _, op: list_op, next: list_next } = *list;
                here = list_op;
                rest = list_next;
            },
            _ => {
                return None;
            },
        }
    }
}

/// A boolean list whose first sequence is running.
pub struct AfterFirst {
    pub op: BooleanListOperator,
    pub next: Sequence,
    /// The state that the first sequence began in.
    pub state: ShellState,
}

/// A boolean list whose first sequence is running, as mathematical values.
#[verifier::ext_equal]
pub struct AfterFirstView {
    pub op: BooleanListOperator,
    pub next: Sequence,
    pub state: StateView,
}

impl View for AfterFirst {
    type V = AfterFirstView;

    open spec fn view(&self) -> AfterFirstView {
        AfterFirstView { op: self.op, next: self.next, state: self.state@ }
    }
}

/// A boolean list of which a later sequence is running.
pub struct AfterNext<H> {
    /// What the first sequence changed.
    pub changes: Vec<EnvChange>,
    /// The tasks that it left running.
    pub handles: Vec<H>,
}

/// Where a boolean list has got to once its first sequence has ended.
pub enum BooleanStep<H> {
    /// It has ended.
    Done(ExecuteResult<H>),
    /// The result of `sequence`, run in `state`, goes to `run`.
    Next { sequence: Sequence, state: ShellState, run: AfterNext<H> },
}

/// Where a boolean list has got to, as mathematical values.
#[verifier::ext_equal]
pub enum BooleanStepView<H> {
    Done(ResultView<H>),
    Next { sequence: Sequence, state: StateView, changes: Seq<EnvChangeView>, handles: Seq<H> },
}

impl<H> View for BooleanStep<H> {
    type V = BooleanStepView<H>;

    open spec fn view(&self) -> BooleanStepView<H> {
        match self {
            BooleanStep::Done(result) => BooleanStepView::Done(result@),
            BooleanStep::Next { sequence, state, run } => BooleanStepView::Next {
                sequence: *sequence,
                state: state@,
                changes: changes_of(run.changes@),
                handles: run.handles@,
            },
        }
    }
}

/// What follows the first sequence of a boolean list, by its result. An exit ends the list; else
/// the sequence that runs next sees the changes of the first.
pub open spec fn after_first<H>(run: AfterFirstView, first: ResultView<H>) -> BooleanStepView<H> {
    match first {
        ResultView::Exit(_, _) => BooleanStepView::Done(first),
        ResultView::Continue(code, changes, handles) => match next_to_run(run.op, run.next, code) {
            Some(sequence) => BooleanStepView::Next {
                sequence,
                state: run.state.apply_all(changes),
                changes,
                handles,
            },
            None => BooleanStepView::Done(first),
        },
    }
}

/// The result of a boolean list, by that of the sequence that ran last.
pub open spec fn after_next<H>(
    changes: Seq<EnvChangeView>,
    handles: Seq<H>,
    result: ResultView<H>,
) -> ResultView<H> {
    match result {
        ResultView::Exit(code, more_handles) => ResultView::Exit(code, handles + more_handles),
        ResultView::Continue(code, more_changes, more_handles) => ResultView::Continue(
            code,
            changes + more_changes,
            handles + more_handles,
        ),
    }
}

impl AfterFirst {
    /// Goes on with the result of the first sequence.
    pub fn finished<H>(self, first: ExecuteResult<H>) -> (step: BooleanStep<H>)
        ensures
            step@ == after_first(self@, first@),
    {
        let AfterFirst { op, next, state } = self;
        match first {
            ExecuteResult::Exit(code, handles) => BooleanStep::Done(
                ExecuteResult::Exit(code, handles),
            ),
            ExecuteResult::Continue(code, changes, handles) => {
                match choose_next(op, next, code) {
                    Some(sequence) => {
                        let mut state = state;
                        state.apply_changes(&changes);
                        BooleanStep::Next { sequence, state, run: AfterNext { changes, handles } }
                    },
                    None => BooleanStep::Done(ExecuteResult::Continue(code, changes, handles)),
                }
            },
        }
    }
}

impl<H> AfterNext<H> {
    /// Ends with the result of the sequence that ran last.
    pub fn finished(self, result: ExecuteResult<H>) -> (res: ExecuteResult<H>)
        ensures
            res@ == after_next(changes_of(self.changes@), self.handles@, result@),
    {
        let AfterNext { changes, handles } = self;
        let mut changes = changes;
        let mut handles = handles;
        match result {
            ExecuteResult::Exit(code, more_handles) => {
                let mut more_handles = more_handles;
                handles.append(&mut more_handles);
                ExecuteResult::Exit(code, handles)
            },
            ExecuteResult::Continue(code, more_changes, more_handles) => {
                let ghost all = changes_of(changes@) + changes_of(more_changes@);
                let mut more_changes = more_changes;
                let mut more_handles = more_handles;
                changes.append(&mut more_changes);
                handles.append(&mut more_handles);
                proof {
                    assert(changes_of(changes@) =~= all);
                }
                ExecuteResult::Continue(code, changes, handles)
            },
        }
    }
}

/// What each result of a list says.
pub open spec fn results_of<H>(results: Seq<ExecuteResult<H>>) -> Seq<ResultView<H>> {
    results.map_values(|result: ExecuteResult<H>| result@)
}

/// The tasks that all of the results leave running.
pub open spec fn all_handles<H>(results: Seq<ResultView<H>>) -> Seq<H>
    decreases results.len(),
{
    if results.len() == 0 {
        Seq::empty()
    } else {
        results.first().handles() + all_handles(results.drop_first())
    }
}

/// The result of a pipeline, by those of its commands: the exit code of the last, no changes, the
/// tasks of the last and then those of the others. No command of it makes the shell exit.
pub open spec fn pipeline_result<H>(results: Seq<ResultView<H>>) -> ResultView<H> {
    ResultView::Continue(
        results.last().exit_code(),
        Seq::empty(),
        results.last().handles() + all_handles(results.drop_last()),
    )
}

/// The result of a pipeline, by those of its commands.
pub fn finish_pipeline<H>(results: Vec<ExecuteResult<H>>) -> (res: ExecuteResult<H>)
    requires
        results@.len() > 0,
    ensures
        res@ == pipeline_result(results_of(results@)),
{
    let mut rest = results;
    let last = rest.remove(rest.len() - 1);
    let ghost all = results_of(rest@);
    proof {
        assert(all =~= results_of(results@).drop_last());
    }
    let mut others: Vec<H> = Vec::new();
    proof {
        assert(others@ + all_handles(all) =~= all_handles(all));
    }
    while rest.len() > 0
        invariant
            others@ + all_handles(results_of(rest@)) == all_handles(all),
        decreases rest@.len(),
    {
        let ghost before = results_of(rest@);
        let ghost gathered = others@;
        let result = rest.remove(0);
        proof {
            assert(before.first() == result@);
            assert(results_of(rest@) =~= before.drop_first());
        }
        let ghost more = result@.handles();
        let mut handles = result.into_handles();
        others.append(&mut handles);
        proof {
            assert((gathered + more) + all_handles(before.drop_first()) =~= gathered + (more
                + all_handles(before.drop_first())));
        }
    }
    proof {
        assert(others@ + all_handles(results_of(rest@)) =~= others@);
    }
    let code: i32 = last.exit_code();
    let mut handles = last.into_handles();
    handles.append(&mut others);
    let res = ExecuteResult::Continue(code, Vec::new(), handles);
    proof {
        assert(res@->Continue_1 =~= Seq::<EnvChangeView>::empty());
    }
    res
}

/// The result of a subshell, by that of its list: an exit ends the subshell alone.
pub open spec fn subshell_result<H>(result: ResultView<H>) -> ResultView<H> {
    match result {
        ResultView::Exit(code, handles) => ResultView::Continue(code, Seq::empty(), handles),
        ResultView::Continue(_, _, _) => result,
    }
}

/// The result of a subshell, by that of its list.
pub fn finish_subshell<H>(result: ExecuteResult<H>) -> (res: ExecuteResult<H>)
    ensures
        res@ == subshell_result(result@),
{
    match result {
        ExecuteResult::Exit(code, handles) => {
            let res = ExecuteResult::Continue(code, Vec::new(), handles);
            proof {
                assert(res@->Continue_1 =~= Seq::<EnvChangeView>::empty());
            }
            res
        },
        ExecuteResult::Continue(code, changes, handles) => ExecuteResult::Continue(
            code,
            changes,
            handles,
        ),
    }
}

/// How a sequence begins.
pub enum SequenceStep<H> {
    /// As an assignment.
    Assign(AssignStep<H>),
    /// As a command.
    Command(CommandStep<H>),
    /// The result of `first`, run in `state`, goes to `run`.
    BooleanList { first: Sequence, state: ShellState, run: AfterFirst },
    /// The results of `sequences`, each run in `state` at the same time, the output of each the
    /// input of the next, go to `finish_pipeline`.
    Pipeline { sequences: Vec<Sequence>, state: ShellState },
    /// The result of `list` goes to `finish_subshell`.
    Subshell { list: ListRun<H> },
}

/// How a sequence begins, as mathematical values.
#[verifier::ext_equal]
pub enum SequenceStepView<H> {
    Assign(AssignStepView<H>),
    Command(CommandStepView<H>),
    BooleanList { first: Sequence, state: StateView, run: AfterFirstView },
    Pipeline { sequences: Seq<Sequence>, state: StateView },
    Subshell { list: ListView<H> },
}

impl<H> View for SequenceStep<H> {
    type V = SequenceStepView<H>;

    open spec fn view(&self) -> SequenceStepView<H> {
        match self {
            SequenceStep::Assign(step) => SequenceStepView::Assign(step@),
            SequenceStep::Command(step) => SequenceStepView::Command(step@),
            SequenceStep::BooleanList { first, state, run } => SequenceStepView::BooleanList {
                first: *first,
                state: state@,
                run: run@,
            },
            SequenceStep::Pipeline { sequences, state } => SequenceStepView::Pipeline {
                sequences: sequences@,
                state: state@,
            },
            SequenceStep::Subshell { list } => SequenceStepView::Subshell { list: list@ },
        }
    }
}

/// How a sequence begins.
pub open spec fn sequence_step<H>(sequence: Sequence, state: StateView, separator: char)
    -> SequenceStepView<H> {
    match sequence {
        Sequence::EnvVar(var) => SequenceStepView::Assign(
            assign_step(
                true,
                var.name@,
                parts_step(Seq::empty(), var.value.parts(), state),
                state,
            ),
        ),
        Sequence::ShellVar(var) => SequenceStepView::Assign(
            assign_step(
                false,
                var.name@,
                parts_step(Seq::empty(), var.value.parts(), state),
                state,
            ),
        ),
        Sequence::Command(command) => SequenceStepView::Command(
            command_step(
                args_step(Seq::empty(), command.args@, state),
                command.env_vars@,
                state,
                separator,
            ),
        ),
        Sequence::BooleanList(list) => SequenceStepView::BooleanList {
            first: list.current,
            state,
            run: AfterFirstView { op: list.op, next: list.next, state },
        },
        Sequence::Pipeline(pipeline) => SequenceStepView::Pipeline {
            sequences: pipeline_elements(*pipeline),
            state,
        },
        Sequence::Subshell(list) => SequenceStepView::Subshell {
            list: list_start(list.items@, state, AsyncCommandBehavior::Yield),
        },
    }
}

/// Begins to run a sequence.
pub fn execute_sequence<H>(sequence: Sequence, state: ShellState, platform: &Platform) -> (step:
    SequenceStep<H>)
    ensures
        step@ == sequence_step::<H>(sequence, state@, platform@),
{
    match sequence {
        Sequence::EnvVar(var) => SequenceStep::Assign(execute_assignment(true, var, state)),
        Sequence::ShellVar(var) => SequenceStep::Assign(execute_assignment(false, var, state)),
        Sequence::Command(command) => SequenceStep::Command(
            execute_command(command, state, platform),
        ),
        Sequence::BooleanList(list) => {
            let BooleanList { current, op, next } = *list;
            SequenceStep::BooleanList {
                first: current,
                state: state.clone(),
                run: AfterFirst { op, next, state },
            }
        },
        Sequence::Pipeline(pipeline) => SequenceStep::Pipeline {
            sequences: (*pipeline).into_vec(),
            state,
        },
        Sequence::Subshell(list) => SequenceStep::Subshell {
            list: execute_sequential_list(*list, state, AsyncCommandBehavior::Yield),
        },
    }
}

} // verus!
