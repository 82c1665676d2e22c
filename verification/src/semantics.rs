//! What complete runs come to.
//!
//! The outside answers what a run asks of it; a `World` says how, by all that has happened before.
//! In a given world the meaning of a list, a sequence or a command is its result together with all
//! that has happened by then, in its order.
use crate::command::{
    command_step, ended_step, named_step, program_step, resolved_step, substituted_step, Builtin,
    CommandRunView, CommandStepView, ProcessEnd, ProcessView,
};
use crate::evaluate::{
    arg_values, args_step, part_text, parts_step, substitutions_in, substitutions_in_args,
    ArgsStepView, PartsStepView,
};
use crate::list::{list_start, AsyncCommandBehavior, ListStepView, ListView};
use crate::outcome::ResultView;
use crate::resolve::{search_step, ResolveStepView};
use crate::sequence::{
    after_first, after_next, assign_step, assign_substituted_step, next_to_run, pipeline_result,
    subshell_result, AfterFirstView, AssignStepView, BooleanStepView,
};
use crate::state::StateView;
use crate::syntax::{
    pipeline_elements, BooleanListOperator, EnvVar, Sequence, StringOrWord, StringPart,
};
use vstd::prelude::*;

verus! {

/// Something that was asked of the outside, with the answer.
pub enum Event<H> {
    /// A task was started.
    Spawn { sequence: Sequence, state: StateView, handle: H },
    /// Tasks were waited for.
    Join { handles: Seq<H> },
    /// The commands of a pipeline were run.
    Pipeline { sequences: Seq<Sequence>, state: StateView, results: Seq<ResultView<H>> },
    /// The list of a command substitution was run, and its output stands for this text.
    Substitute { list: ListView<H>, text: Seq<char> },
    /// A command of the caller's was run.
    Builtin { builtin: Builtin, args: Seq<Seq<char>>, cwd: Seq<char>, result: ResultView<H> },
    /// A text was written to the output.
    Print { text: Seq<char> },
    /// A line was written to the error output.
    Report { line: Seq<char> },
    /// It was asked whether there is a file at a path.
    Probe { path: Seq<char>, is_file: bool },
    /// A program was launched and waited for.
    Launch { process: ProcessView, end: ProcessEnd },
}

/// How the outside answers, by all that has happened before.
#[verifier::reject_recursive_types(H)]
pub struct World<H> {
    pub spawn: spec_fn(Seq<Event<H>>, Sequence, StateView) -> H,
    pub pipeline: spec_fn(Seq<Event<H>>, Seq<Sequence>, StateView) -> Seq<ResultView<H>>,
    pub substitute: spec_fn(Seq<Event<H>>, ListView<H>) -> Seq<char>,
    pub builtin: spec_fn(Seq<Event<H>>, Builtin, Seq<Seq<char>>, Seq<char>) -> ResultView<H>,
    pub is_file: spec_fn(Seq<Event<H>>, Seq<char>) -> bool,
    pub launch: spec_fn(Seq<Event<H>>, ProcessView) -> ProcessEnd,
    /// The path separator of the platform.
    pub separator: char,
}

/// A result, and all that has happened by then.
#[verifier::ext_equal]
pub struct Ended<H> {
    pub result: ResultView<H>,
    pub history: Seq<Event<H>>,
}

/// How many command substitutions the values of the variables hold.
pub open spec fn substitutions_in_vars(vars: Seq<EnvVar>) -> nat
    decreases vars.len(),
{
    if vars.len() == 0 {
        0
    } else {
        substitutions_in(vars.first().value.parts()) + substitutions_in_vars(vars.drop_first())
    }
}

/// How many command substitutions a waiting command has before it, the awaited one among them.
pub open spec fn substitutions_ahead(run: CommandRunView) -> nat {
    match run {
        CommandRunView::Args { parts, rest, env_vars, .. } => 1 + substitutions_in(parts)
            + substitutions_in_args(rest) + substitutions_in_vars(env_vars),
        CommandRunView::Env { parts, later, .. } => 1 + substitutions_in(parts)
            + substitutions_in_vars(later),
    }
}

/// How many command substitutions a command may still ask for.
pub open spec fn substitutions_due<H>(step: CommandStepView<H>) -> nat {
    match step {
        CommandStepView::Substitute { run, .. } => substitutions_ahead(run),
        _ => 0,
    }
}

/// How much else a command may still ask for.
pub open spec fn other_work_due<H>(step: CommandStepView<H>) -> nat {
    match step {
        CommandStepView::Probe { rest, .. } => 2 + rest.len(),
        CommandStepView::Launch { .. } => 1,
        _ => 0,
    }
}

/// An evaluation that stops at a command substitution has it behind it.
pub proof fn lemma_parts_due(text: Seq<char>, parts: Seq<StringPart>, state: StateView)
    ensures
        parts_step(text, parts, state) matches PartsStepView::Substitute { rest, .. } ==> 1
            + substitutions_in(rest) <= substitutions_in(parts),
    decreases parts.len(),
{
    if parts.len() > 0 && !(parts.first() is Command) {
        lemma_parts_due(
            text + part_text(parts.first(), state),
            parts.drop_first(),
            state,
        );
    }
}

/// The same of the evaluation of arguments.
proof fn lemma_args_due(done: Seq<Seq<char>>, args: Seq<StringOrWord>, state: StateView)
    ensures
        args_step(done, args, state) matches ArgsStepView::Substitute { parts, rest, .. } ==> 1
            + substitutions_in(parts) + substitutions_in_args(rest) <= substitutions_in_args(args),
    decreases args.len(),
{
    if args.len() > 0 {
        lemma_parts_due(Seq::empty(), args.first().parts(), state);
        match parts_step(Seq::empty(), args.first().parts(), state) {
            PartsStepView::Done(text) => {
                lemma_args_due(
                    done + arg_values(args.first() is Word, text),
                    args.drop_first(),
                    state,
                );
            },
            PartsStepView::Substitute { .. } => {},
        }
    }
}

/// The same of a program's variables.
proof fn lemma_program_due<H>(
    command_name: Seq<char>,
    args: Seq<Seq<char>>,
    env_vars: Seq<EnvVar>,
    state: StateView,
    separator: char,
)
    ensures
        substitutions_due(
            program_step::<H>(command_name, args, env_vars, state, separator),
        ) <= substitutions_in_vars(env_vars),
    decreases env_vars.len(),
{
    if env_vars.len() > 0 {
        lemma_parts_due(Seq::empty(), env_vars.first().value.parts(), state);
        match parts_step(Seq::empty(), env_vars.first().value.parts(), state) {
            PartsStepView::Done(value) => {
                lemma_program_due::<H>(
                    command_name,
                    args,
                    env_vars.drop_first(),
                    state.with_env_var(env_vars.first().name@, value),
                    separator,
                );
            },
            PartsStepView::Substitute { .. } => {},
        }
    }
}

/// The same of a command whose words are evaluated.
proof fn lemma_named_due<H>(
    words: Seq<Seq<char>>,
    env_vars: Seq<EnvVar>,
    state: StateView,
    separator: char,
)
    ensures
        substitutions_due(named_step::<H>(words, env_vars, state, separator))
            <= substitutions_in_vars(env_vars),
{
    let command_name = if words.len() == 0 {
        Seq::empty()
    } else {
        words.first()
    };
    let args = if words.len() == 0 {
        words
    } else {
        words.drop_first()
    };
    lemma_program_due::<H>(command_name, args, env_vars, state, separator);
}

/// Each command substitution brings a command nearer to its end.
pub proof fn lemma_substituted_due<H>(run: CommandRunView, output: Seq<char>, separator: char)
    ensures
        substitutions_due(substituted_step::<H>(run, output, separator)) < substitutions_ahead(run),
{
    match run {
        CommandRunView::Args { done, is_word, text, parts, rest, env_vars, state } => {
            lemma_parts_due(text + output, parts, state);
            match parts_step(text + output, parts, state) {
                PartsStepView::Done(word) => {
                    let made = done + arg_values(is_word, word);
                    lemma_args_due(made, rest, state);
                    match args_step(made, rest, state) {
                        ArgsStepView::Done(words) => {
                            lemma_named_due::<H>(words, env_vars, state, separator);
                        },
                        ArgsStepView::Substitute { .. } => {},
                    }
                },
                PartsStepView::Substitute { .. } => {},
            }
        },
        CommandRunView::Env { command_name, args, name, text, parts, later, state } => {
            lemma_parts_due(text + output, parts, state);
            match parts_step(text + output, parts, state) {
                PartsStepView::Done(value) => {
                    lemma_program_due::<H>(
                        command_name,
                        args,
                        later,
                        state.with_env_var(name, value),
                        separator,
                    );
                },
                PartsStepView::Substitute { .. } => {},
            }
        },
    }
}

/// What comes of a command that has got to `step`.
pub open spec fn run_command<H>(
    world: World<H>,
    step: CommandStepView<H>,
    history: Seq<Event<H>>,
) -> Ended<H>
    decreases substitutions_due(step), other_work_due(step),
{
    match step {
        CommandStepView::Substitute { list, run } => {
            let text = (world.substitute)(history, list);
            proof {
                lemma_substituted_due::<H>(run, text, world.separator);
            }
            run_command(
                world,
                substituted_step(run, text, world.separator),
                history.push(Event::Substitute { list, text }),
            )
        },
        CommandStepView::Builtin { builtin, args, cwd } => {
            let result = (world.builtin)(history, builtin, args, cwd);
            Ended { result, history: history.push(Event::Builtin { builtin, args, cwd, result }) }
        },
        CommandStepView::Print { text, result } => Ended {
            result,
            history: history.push(Event::Print { text }),
        },
        CommandStepView::Report { line, result } => Ended {
            result,
            history: history.push(Event::Report { line }),
        },
        CommandStepView::Probe { command_name, path, rest, args, state } => {
            let is_file = (world.is_file)(history, path);
            let found = if is_file {
                ResolveStepView::Found(path)
            } else {
                search_step(command_name, rest)
            };
            run_command(
                world,
                resolved_step(command_name, found, args, state),
                history.push(Event::Probe { path, is_file }),
            )
        },
        CommandStepView::Launch { process, command_name } => {
            let end = (world.launch)(history, process);
            run_command(
                world,
                ended_step(command_name, end),
                history.push(Event::Launch { process, end }),
            )
        },
        CommandStepView::Done(result) => Ended { result, history },
    }
}

/// How many command substitutions an assignment may still ask for.
pub open spec fn assign_due<H>(step: AssignStepView<H>) -> nat {
    match step {
        AssignStepView::Substitute { run, .. } => 1 + substitutions_in(run.parts),
        AssignStepView::Done(_) => 0,
    }
}

/// What comes of an assignment that has got to `step`.
pub open spec fn run_assignment<H>(
    world: World<H>,
    step: AssignStepView<H>,
    history: Seq<Event<H>>,
) -> Ended<H>
    decreases assign_due(step),
{
    match step {
        AssignStepView::Substitute { list, run } => {
            let text = (world.substitute)(history, list);
            proof {
                lemma_parts_due(run.text + text, run.parts, run.state);
            }
            run_assignment(
                world,
                assign_substituted_step(run, text),
                history.push(Event::Substitute { list, text }),
            )
        },
        AssignStepView::Done(result) => Ended { result, history },
    }
}

/// What runs next in a boolean list is a part of it.
pub proof fn lemma_next_is_part(op: BooleanListOperator, next: Sequence, exit_code: i32)
    ensures
        next_to_run(op, next, exit_code) matches Some(part) ==> part == next || decreases_to!(
            next => part
        ),
    decreases next,
{
    if !op.moves_next(exit_code) {
        match next {
            Sequence::BooleanList(list) => {
                lemma_next_is_part(list.op, list.next, exit_code);
            },
            _ => {},
        }
    }
}

/// What comes of a sequence that is run in a state.
pub open spec fn run_sequence<H>(
    world: World<H>,
    sequence: Sequence,
    state: StateView,
    history: Seq<Event<H>>,
) -> Ended<H>
    decreases sequence,
{
    match sequence {
        Sequence::BooleanList(list) => {
            let first = run_sequence(world, list.current, state, history);
            proof {
                lemma_next_is_part(list.op, list.next, first.result.exit_code());
            }
            match after_first(
                AfterFirstView { op: list.op, next: list.next, state },
                first.result,
            ) {
                BooleanStepView::Done(result) => Ended { result, history: first.history },
                BooleanStepView::Next { sequence: next, state: next_state, changes, handles } => {
                    let last = run_sequence(world, next, next_state, first.history);
                    Ended {
                        result: after_next(changes, handles, last.result),
                        history: last.history,
                    }
                },
            }
        },
        Sequence::Subshell(list) => {
            let ended = run_list(
                world,
                list_start(list.items@, state, AsyncCommandBehavior::Yield),
                history,
            );
            Ended { result: subshell_result(ended.result), history: ended.history }
        },
        Sequence::EnvVar(var) => run_assignment(
            world,
            assign_step(
                true,
                var.name@,
                parts_step(Seq::empty(), var.value.parts(), state),
                state,
            ),
            history,
        ),
        Sequence::ShellVar(var) => run_assignment(
            world,
            assign_step(
                false,
                var.name@,
                parts_step(Seq::empty(), var.value.parts(), state),
                state,
            ),
            history,
        ),
        Sequence::Command(command) => run_command(
            world,
            command_step(
                args_step(Seq::empty(), command.args@, state),
                command.env_vars@,
                state,
                world.separator,
            ),
            history,
        ),
        Sequence::Pipeline(pipeline) => {
            let sequences = pipeline_elements(*pipeline);
            let results = (world.pipeline)(history, sequences, state);
            Ended {
                result: pipeline_result(results),
                history: history.push(Event::Pipeline { sequences, state, results }),
            }
        },
    }
}

/// What comes of a list that has got this far.
pub open spec fn run_list<H>(world: World<H>, run: ListView<H>, history: Seq<Event<H>>) -> Ended<H>
    decreases run.items,
{
    match run.step() {
        ListStepView::Spawn { sequence, state, run: rest } => {
            let handle = (world.spawn)(history, sequence, state);
            run_list(
                world,
                rest.spawned(handle),
                history.push(Event::Spawn { sequence, state, handle }),
            )
        },
        ListStepView::Run { sequence, state, run: rest } => {
            let ended = run_sequence(world, sequence, state, history);
            match ended.result {
                ResultView::Exit(_, _) => ended,
                ResultView::Continue(code, changes, handles) => run_list(
                    world,
                    rest.continued(code, changes, handles),
                    ended.history,
                ),
            }
        },
        ListStepView::Join { handles, result } => Ended {
            result,
            history: history.push(Event::Join { handles }),
        },
        ListStepView::Done(result) => Ended { result, history },
    }
}

} // verus!
