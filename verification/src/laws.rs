//! What holds of every run, whatever the outside answers.
use crate::command::{
    command_step, ended_step, kind_of, named_step, program_step, resolved_step, substituted_step,
    CommandKind, CommandRunView, CommandStepView,
};
use crate::evaluate::{
    args_step, law_plain_output_is_kept, parts_step, substitution_text, ArgsStepView, PartsStepView,
};
use crate::execution::{
    frames_of, probed, substituted, through, unwind, FrameView, Progress, SubstitutingView,
};
use crate::list::{
    list_start, substitution_start, AsyncCommandBehavior, ListStepView, ListView,
};
use crate::outcome::{plain_result, ResultView};
use crate::resolve::{search_step, ResolveStepView};
use crate::semantics::{
    assign_due, lemma_next_is_part, lemma_parts_due, lemma_substituted_due, other_work_due,
    run_assignment, run_command, run_list, run_sequence, substitutions_due, Ended, Event, World,
};
use crate::sequence::{
    after_first, after_next, all_handles, assign_step, assign_substituted_step, assignment,
    next_to_run, pipeline_result, AfterFirstView, AssignStepView, BooleanStepView,
};
use crate::state::{law_changes_add_up, EnvChangeView, StateView};
use crate::syntax::{
    pipeline_elements, BooleanListOperator, EnvVar, Pipeline, Sequence, SequentialList,
    SequentialListItem,
};
use crate::text::{joined_with, texts};
use vstd::prelude::*;

verus! {

/// Whether `later` begins with all of `earlier`.
pub open spec fn begins_with<A>(later: Seq<A>, earlier: Seq<A>) -> bool {
    earlier.len() <= later.len() && later.take(earlier.len() as int) == earlier
}

/// What begins with something begins with what that begins with.
proof fn lemma_begins_through<A>(last: Seq<A>, middle: Seq<A>, first: Seq<A>)
    requires
        begins_with(last, middle),
        begins_with(middle, first),
    ensures
        begins_with(last, first),
{
    assert(last.take(first.len() as int) =~= middle.take(first.len() as int));
}

/// A sequence with one item more begins with the sequence.
proof fn lemma_push_begins<A>(first: Seq<A>, item: A)
    ensures
        begins_with(first.push(item), first),
        begins_with(first, first),
{
    assert(first.push(item).take(first.len() as int) =~= first);
    assert(first.take(first.len() as int) =~= first);
}

/// A command only adds to what has happened.
pub proof fn law_command_adds_to_history<H>(
    world: World<H>,
    step: CommandStepView<H>,
    history: Seq<Event<H>>,
)
    ensures
        begins_with(run_command(world, step, history).history, history),
    decreases substitutions_due(step), other_work_due(step),
{
    let ended = run_command(world, step, history);
    match step {
        CommandStepView::Substitute { list, run } => {
            let text = (world.substitute)(history, list);
            let event = Event::Substitute { list, text };
            lemma_substituted_due::<H>(run, text, world.separator);
            law_command_adds_to_history(
                world,
                substituted_step(run, text, world.separator),
                history.push(event),
            );
            lemma_push_begins(history, event);
            lemma_begins_through(ended.history, history.push(event), history);
        },
        CommandStepView::Probe { command_name, path, rest, args, state } => {
            let is_file = (world.is_file)(history, path);
            let event = Event::Probe { path, is_file };
            let found = if is_file {
                ResolveStepView::Found(path)
            } else {
                search_step(command_name, rest)
            };
            law_command_adds_to_history(
                world,
                resolved_step(command_name, found, args, state),
                history.push(event),
            );
            lemma_push_begins(history, event);
            lemma_begins_through(ended.history, history.push(event), history);
        },
        CommandStepView::Launch { process, command_name } => {
            let end = (world.launch)(history, process);
            let event = Event::Launch { process, end };
            law_command_adds_to_history(
                world,
                ended_step(command_name, end),
                history.push(event),
            );
            lemma_push_begins(history, event);
            lemma_begins_through(ended.history, history.push(event), history);
        },
        CommandStepView::Builtin { builtin, args, cwd } => {
            let result = (world.builtin)(history, builtin, args, cwd);
            lemma_push_begins(history, Event::Builtin { builtin, args, cwd, result });
        },
        CommandStepView::Print { text, .. } => {
            lemma_push_begins(history, Event::Print { text });
        },
        CommandStepView::Report { line, .. } => {
            lemma_push_begins(history, Event::Report { line });
        },
        CommandStepView::Done(_) => {
            assert(history.take(history.len() as int) =~= history);
        },
    }
}

/// An assignment only adds to what has happened.
pub proof fn law_assignment_adds_to_history<H>(
    world: World<H>,
    step: AssignStepView<H>,
    history: Seq<Event<H>>,
)
    ensures
        begins_with(run_assignment(world, step, history).history, history),
    decreases assign_due(step),
{
    match step {
        AssignStepView::Substitute { list, run } => {
            let text = (world.substitute)(history, list);
            let event = Event::Substitute { list, text };
            lemma_parts_due(run.text + text, run.parts, run.state);
            law_assignment_adds_to_history(
                world,
                assign_substituted_step(run, text),
                history.push(event),
            );
            lemma_push_begins(history, event);
            lemma_begins_through(
                run_assignment(world, step, history).history,
                history.push(event),
                history,
            );
        },
        AssignStepView::Done(_) => {
            assert(history.take(history.len() as int) =~= history);
        },
    }
}

/// A sequence only adds to what has happened.
pub proof fn law_sequence_adds_to_history<H>(
    world: World<H>,
    sequence: Sequence,
    state: StateView,
    history: Seq<Event<H>>,
)
    ensures
        begins_with(run_sequence(world, sequence, state, history).history, history),
    decreases sequence,
{
    match sequence {
        Sequence::BooleanList(list) => {
            let first = run_sequence(world, list.current, state, history);
            law_sequence_adds_to_history(world, list.current, state, history);
            lemma_next_is_part(list.op, list.next, first.result.exit_code());
            match after_first(
                AfterFirstView { op: list.op, next: list.next, state },
                first.result,
            ) {
                BooleanStepView::Done(_) => {},
                BooleanStepView::Next { sequence: next, state: next_state, .. } => {
                    law_sequence_adds_to_history(world, next, next_state, first.history);
                    lemma_begins_through(
                        run_sequence(world, next, next_state, first.history).history,
                        first.history,
                        history,
                    );
                },
            }
        },
        Sequence::Subshell(list) => {
            law_list_adds_to_history(
                world,
                list_start(list.items@, state, AsyncCommandBehavior::Yield),
                history,
            );
        },
        Sequence::EnvVar(var) => {
            law_assignment_adds_to_history(
                world,
                assign_step(
                    true,
                    var.name@,
                    parts_step(Seq::empty(), var.value.parts(), state),
                    state,
                ),
                history,
            );
        },
        Sequence::ShellVar(var) => {
            law_assignment_adds_to_history(
                world,
                assign_step(
                    false,
                    var.name@,
                    parts_step(Seq::empty(), var.value.parts(), state),
                    state,
                ),
                history,
            );
        },
        Sequence::Command(command) => {
            law_command_adds_to_history(
                world,
                command_step(
                    args_step(Seq::empty(), command.args@, state),
                    command.env_vars@,
                    state,
                    world.separator,
                ),
                history,
            );
        },
        Sequence::Pipeline(pipeline) => {
            let sequences = pipeline_elements(*pipeline);
            let results = (world.pipeline)(history, sequences, state);
            lemma_push_begins(history, Event::Pipeline { sequences, state, results });
        },
    }
}

/// A list only adds to what has happened.
pub proof fn law_list_adds_to_history<H>(
    world: World<H>,
    run: ListView<H>,
    history: Seq<Event<H>>,
)
    ensures
        begins_with(run_list(world, run, history).history, history),
    decreases run.items,
{
    match run.step() {
        ListStepView::Spawn { sequence, state, run: rest } => {
            let handle = (world.spawn)(history, sequence, state);
            let event = Event::Spawn { sequence, state, handle };
            law_list_adds_to_history(world, rest.spawned(handle), history.push(event));
            lemma_push_begins(history, event);
            lemma_begins_through(
                run_list(world, run, history).history,
                history.push(event),
                history,
            );
        },
        ListStepView::Run { sequence, state, run: rest } => {
            let ended = run_sequence(world, sequence, state, history);
            law_sequence_adds_to_history(world, sequence, state, history);
            match ended.result {
                ResultView::Exit(_, _) => {},
                ResultView::Continue(code, changes, handles) => {
                    let next = rest.continued(code, changes, handles);
                    law_list_adds_to_history(world, next, ended.history);
                    lemma_begins_through(
                        run_list(world, next, ended.history).history,
                        ended.history,
                        history,
                    );
                },
            }
        },
        ListStepView::Join { handles, .. } => {
            lemma_push_begins(history, Event::Join { handles });
        },
        ListStepView::Done(_) => {
            assert(history.take(history.len() as int) =~= history);
        },
    }
}

/// The sequence that a boolean list runs first; any other sequence itself.
pub open spec fn first_of(sequence: Sequence) -> Sequence {
    match sequence {
        Sequence::BooleanList(list) => list.current,
        _ => sequence,
    }
}

/// What follows the first sequence of a boolean list, from left to right: each sequence with the
/// operator before it.
pub open spec fn followers(sequence: Sequence) -> Seq<(BooleanListOperator, Sequence)>
    decreases sequence,
{
    match sequence {
        Sequence::BooleanList(list) => seq![(list.op, first_of(list.next))] + followers(list.next),
        _ => Seq::empty(),
    }
}

/// Sequences run from left to right, where `so_far` is what has come of those before and `state` is
/// the state they have made: each runs if its operator goes on after the last exit code, and is
/// passed over if not.
pub open spec fn run_left_to_right<H>(
    world: World<H>,
    so_far: Ended<H>,
    state: StateView,
    rest: Seq<(BooleanListOperator, Sequence)>,
) -> Ended<H>
    decreases rest.len(),
{
    if rest.len() == 0 {
        so_far
    } else {
        match so_far.result {
            ResultView::Exit(_, _) => so_far,
            ResultView::Continue(code, changes, handles) => if rest.first().0.moves_next(code) {
                let ended = run_sequence(world, rest.first().1, state, so_far.history);
                run_left_to_right(
                    world,
                    Ended {
                        result: after_next(changes, handles, ended.result),
                        history: ended.history,
                    },
                    state.apply_all(ended.result.changes()),
                    rest.drop_first(),
                )
            } else {
                run_left_to_right(world, so_far, state, rest.drop_first())
            },
        }
    }
}

/// What was changed and left running before carries over.
proof fn lemma_carry_over<H>(
    world: World<H>,
    changes: Seq<EnvChangeView>,
    handles: Seq<H>,
    so_far: Ended<H>,
    state: StateView,
    rest: Seq<(BooleanListOperator, Sequence)>,
)
    ensures
        run_left_to_right(
            world,
            Ended { result: after_next(changes, handles, so_far.result), history: so_far.history },
            state,
            rest,
        ) == (Ended {
            result: after_next(
                changes,
                handles,
                run_left_to_right(world, so_far, state, rest).result,
            ),
            history: run_left_to_right(world, so_far, state, rest).history,
        }),
    decreases rest.len(),
{
    if rest.len() > 0 {
        match so_far.result {
            ResultView::Exit(_, _) => {},
            ResultView::Continue(code, more_changes, more_handles) => {
                if rest.first().0.moves_next(code) {
                    let ended = run_sequence(world, rest.first().1, state, so_far.history);
                    let next = Ended {
                        result: after_next(more_changes, more_handles, ended.result),
                        history: ended.history,
                    };
                    lemma_carry_over(
                        world,
                        changes,
                        handles,
                        next,
                        state.apply_all(ended.result.changes()),
                        rest.drop_first(),
                    );
                    assert(after_next(
                        changes + more_changes,
                        handles + more_handles,
                        ended.result,
                    ) =~= after_next(changes, handles, next.result)) by {
                        match ended.result {
                            ResultView::Exit(_, last_handles) => {
                                assert((handles + more_handles) + last_handles =~= handles + (
                                more_handles + last_handles));
                            },
                            ResultView::Continue(_, last_changes, last_handles) => {
                                assert((handles + more_handles) + last_handles =~= handles + (
                                more_handles + last_handles));
                                assert((changes + more_changes) + last_changes =~= changes + (
                                more_changes + last_changes));
                            },
                        }
                    }
                } else {
                    lemma_carry_over(world, changes, handles, so_far, state, rest.drop_first());
                }
            },
        }
    }
}

/// Passing over what does not run gets to what runs next.
proof fn lemma_pass_over<H>(
    world: World<H>,
    op: BooleanListOperator,
    next: Sequence,
    code: i32,
    changes: Seq<EnvChangeView>,
    handles: Seq<H>,
    history: Seq<Event<H>>,
    state: StateView,
)
    ensures
        run_left_to_right(
            world,
            Ended { result: ResultView::Continue(code, changes, handles), history },
            state,
            seq![(op, first_of(next))] + followers(next),
        ) == match next_to_run(op, next, code) {
            None => Ended { result: ResultView::Continue(code, changes, handles), history },
            Some(part) => {
                let ended = run_sequence(world, first_of(part), state, history);
                run_left_to_right(
                    world,
                    Ended {
                        result: after_next(changes, handles, ended.result),
                        history: ended.history,
                    },
                    state.apply_all(ended.result.changes()),
                    followers(part),
                )
            },
        },
    decreases next,
{
    let all = seq![(op, first_of(next))] + followers(next);
    assert(all.drop_first() =~= followers(next));
    assert(all.first() == (op, first_of(next)));
    if !op.moves_next(code) {
        match next {
            Sequence::BooleanList(list) => {
                lemma_pass_over(
                    world,
                    list.op,
                    list.next,
                    code,
                    changes,
                    handles,
                    history,
                    state,
                );
            },
            _ => {
                let so_far = Ended {
                    result: ResultView::Continue(code, changes, handles),
                    history,
                };
                assert(run_left_to_right(world, so_far, state, followers(next)) == so_far);
            },
        }
    }
}

/// A boolean list runs its sequences from left to right, `&&` and `||` alike: each one if its
/// operator goes on after the exit code of the one that ran last, in the state that those before it
/// have made. An exit ends the list. The result has the exit code of the one that ran last, and the
/// changes and the tasks of all that ran.
pub proof fn law_boolean_list_runs_left_to_right<H>(
    world: World<H>,
    sequence: Sequence,
    state: StateView,
    history: Seq<Event<H>>,
)
    ensures
        run_sequence(world, sequence, state, history) == ({
            let first = run_sequence(world, first_of(sequence), state, history);
            run_left_to_right(
                world,
                first,
                state.apply_all(first.result.changes()),
                followers(sequence),
            )
        }),
    decreases sequence,
{
    match sequence {
        Sequence::BooleanList(list) => {
            let first = run_sequence(world, list.current, state, history);
            match first.result {
                ResultView::Exit(_, _) => {},
                ResultView::Continue(code, changes, handles) => {
                    let after = state.apply_all(changes);
                    lemma_next_is_part(list.op, list.next, code);
                    lemma_pass_over(
                        world,
                        list.op,
                        list.next,
                        code,
                        changes,
                        handles,
                        first.history,
                        after,
                    );
                    match next_to_run(list.op, list.next, code) {
                        None => {},
                        Some(part) => {
                            law_boolean_list_runs_left_to_right(
                                world,
                                part,
                                after,
                                first.history,
                            );
                            let ended = run_sequence(world, first_of(part), after, first.history);
                            lemma_carry_over(
                                world,
                                changes,
                                handles,
                                ended,
                                after.apply_all(ended.result.changes()),
                                followers(part),
                            );
                        },
                    }
                },
            }
        },
        _ => {},
    }
}

/// The results of the items that a list waits for, in their order.
pub open spec fn foreground_results<H>(
    world: World<H>,
    run: ListView<H>,
    history: Seq<Event<H>>,
) -> Seq<ResultView<H>>
    decreases run.items,
{
    match run.step() {
        ListStepView::Spawn { sequence, state, run: rest } => {
            let handle = (world.spawn)(history, sequence, state);
            foreground_results(
                world,
                rest.spawned(handle),
                history.push(Event::Spawn { sequence, state, handle }),
            )
        },
        ListStepView::Run { sequence, state, run: rest } => {
            let ended = run_sequence(world, sequence, state, history);
            seq![ended.result] + match ended.result {
                ResultView::Exit(_, _) => Seq::empty(),
                ResultView::Continue(code, changes, handles) => foreground_results(
                    world,
                    rest.continued(code, changes, handles),
                    ended.history,
                ),
            }
        },
        _ => Seq::empty(),
    }
}

/// The changes of all results, in their order.
pub open spec fn all_changes<H>(results: Seq<ResultView<H>>) -> Seq<EnvChangeView>
    decreases results.len(),
{
    if results.len() == 0 {
        Seq::empty()
    } else {
        results.first().changes() + all_changes(results.drop_first())
    }
}

/// A list ends with the exit code of the last item that it waited for, and with the changes of all
/// of them. It exits if and only if one of them did, which is the last, and with its result.
pub proof fn law_list_ends_as_its_last_item<H>(
    world: World<H>,
    run: ListView<H>,
    history: Seq<Event<H>>,
)
    ensures
        ({
            let ended = run_list(world, run, history);
            let results = foreground_results(world, run, history);
            &&& ended.result.exit_code() == if results.len() == 0 {
                run.exit_code
            } else {
                results.last().exit_code()
            }
            &&& ended.result is Exit <==> results.len() > 0 && results.last() is Exit
            &&& ended.result is Exit ==> ended.result == results.last()
            &&& ended.result is Continue ==> ended.result.changes() == run.changes + all_changes(
                results,
            )
        }),
    decreases run.items,
{
    let results = foreground_results(world, run, history);
    match run.step() {
        ListStepView::Spawn { sequence, state, run: rest } => {
            let handle = (world.spawn)(history, sequence, state);
            law_list_ends_as_its_last_item(
                world,
                rest.spawned(handle),
                history.push(Event::Spawn { sequence, state, handle }),
            );
        },
        ListStepView::Run { sequence, state, run: rest } => {
            let ended = run_sequence(world, sequence, state, history);
            match ended.result {
                ResultView::Exit(_, _) => {
                    assert(results =~= seq![ended.result]);
                },
                ResultView::Continue(code, changes, handles) => {
                    let next = rest.continued(code, changes, handles);
                    let others = foreground_results(world, next, ended.history);
                    law_list_ends_as_its_last_item(world, next, ended.history);
                    assert(results.first() == ended.result);
                    assert(results.drop_first() =~= others);
                    if others.len() > 0 {
                        assert(results.last() == others.last());
                    }
                    assert((run.changes + changes) + all_changes(others) =~= run.changes + (changes
                        + all_changes(others)));
                },
            }
        },
        _ => {
            assert(run.changes + all_changes(results) =~= run.changes);
        },
    }
}

/// An item that is not waited for has no part in how its list ends.
pub proof fn law_background_items_do_not_count<H>(
    world: World<H>,
    run: ListView<H>,
    history: Seq<Event<H>>,
)
    requires
        forall|i: int| 0 <= i < run.items.len() ==> (#[trigger] run.items[i]).is_async,
    ensures
        run_list(world, run, history).result is Continue,
        run_list(world, run, history).result.exit_code() == run.exit_code,
        run_list(world, run, history).result.changes() == run.changes,
    decreases run.items.len(),
{
    match run.step() {
        ListStepView::Spawn { sequence, state, run: rest } => {
            let handle = (world.spawn)(history, sequence, state);
            assert forall|i: int| 0 <= i < rest.items.len() implies (
            #[trigger] rest.items[i]).is_async by {
                assert(rest.items[i] == run.items[i + 1]);
            }
            law_background_items_do_not_count(
                world,
                rest.spawned(handle),
                history.push(Event::Spawn { sequence, state, handle }),
            );
        },
        ListStepView::Run { .. } => {
            assert(run.items[0].is_async);
        },
        _ => {},
    }
}

/// The tasks that a list starts or takes over from its items, in their order.
pub open spec fn list_tasks<H>(
    world: World<H>,
    run: ListView<H>,
    history: Seq<Event<H>>,
) -> Seq<H>
    decreases run.items,
{
    match run.step() {
        ListStepView::Spawn { sequence, state, run: rest } => {
            let handle = (world.spawn)(history, sequence, state);
            seq![handle] + list_tasks(
                world,
                rest.spawned(handle),
                history.push(Event::Spawn { sequence, state, handle }),
            )
        },
        ListStepView::Run { sequence, state, run: rest } => {
            let ended = run_sequence(world, sequence, state, history);
            match ended.result {
                ResultView::Exit(_, _) => Seq::empty(),
                ResultView::Continue(code, changes, handles) => handles + list_tasks(
                    world,
                    rest.continued(code, changes, handles),
                    ended.history,
                ),
            }
        },
        _ => Seq::empty(),
    }
}

/// No task is lost where the shell goes on: a list that waits does so for all of them, as the last
/// thing it does, and leaves none; one that does not wait hands all of them on.
pub proof fn law_list_accounts_for_all_tasks<H>(
    world: World<H>,
    run: ListView<H>,
    history: Seq<Event<H>>,
)
    ensures
        ({
            let ended = run_list(world, run, history);
            let tasks = run.handles + list_tasks(world, run, history);
            ended.result is Continue ==> match run.behavior {
                AsyncCommandBehavior::Wait => {
                    &&& ended.result.handles() == Seq::<H>::empty()
                    &&& ended.history.len() > 0
                    &&& ended.history.last() == Event::Join { handles: tasks }
                },
                AsyncCommandBehavior::Yield => ended.result.handles() == tasks,
            }
        }),
    decreases run.items,
{
    match run.step() {
        ListStepView::Spawn { sequence, state, run: rest } => {
            let handle = (world.spawn)(history, sequence, state);
            let next = rest.spawned(handle);
            let later = history.push(Event::Spawn { sequence, state, handle });
            law_list_accounts_for_all_tasks(world, next, later);
            assert(run.handles.push(handle) + list_tasks(world, next, later) =~= run.handles + (
            seq![handle] + list_tasks(world, next, later)));
        },
        ListStepView::Run { sequence, state, run: rest } => {
            let ended = run_sequence(world, sequence, state, history);
            match ended.result {
                ResultView::Exit(_, _) => {},
                ResultView::Continue(code, changes, handles) => {
                    let next = rest.continued(code, changes, handles);
                    law_list_accounts_for_all_tasks(world, next, ended.history);
                    assert((run.handles + handles) + list_tasks(world, next, ended.history)
                        =~= run.handles + (handles + list_tasks(world, next, ended.history)));
                },
            }
        },
        _ => {
            assert(run.handles + list_tasks(world, run, history) =~= run.handles);
        },
    }
}

/// Whether the state of a list is that in which it began, with the changes so far made to it.
pub open spec fn in_step<H>(run: ListView<H>, start: StateView) -> bool {
    run.state == start.apply_all(run.changes)
}

/// Every item runs in the state in which its list began, with the changes of all items before it
/// made to it: so it is at the beginning, and every step keeps it so.
pub proof fn law_items_see_the_changes_before_them<H>(
    run: ListView<H>,
    start: StateView,
    handle: H,
    code: i32,
    changes: Seq<EnvChangeView>,
    handles: Seq<H>,
)
    ensures
        in_step(list_start::<H>(run.items, start, run.behavior), start),
        in_step(run, start) ==> in_step(run.spawned(handle), start),
        in_step(run, start) ==> in_step(run.continued(code, changes, handles), start),
        in_step(run, start) ==> match run.step() {
            ListStepView::Spawn { state, run: rest, .. } => state == start.apply_all(run.changes)
                && in_step(rest, start),
            ListStepView::Run { state, run: rest, .. } => state == start.apply_all(run.changes)
                && in_step(rest, start),
            _ => true,
        },
{
    law_changes_add_up(start, run.changes, changes);
}

/// Nothing that stands behind an exit in a list runs.
pub proof fn law_exit_ends_the_list<H>(
    world: World<H>,
    run: ListView<H>,
    more: Seq<SequentialListItem>,
    history: Seq<Event<H>>,
)
    requires
        run_list(world, run, history).result is Exit,
    ensures
        run_list(world, ListView { items: run.items + more, ..run }, history) == run_list(
            world,
            run,
            history,
        ),
    decreases run.items.len(),
{
    let longer = ListView { items: run.items + more, ..run };
    if run.items.len() > 0 {
        assert(longer.items.first() == run.items.first());
        assert(longer.items.drop_first() =~= run.items.drop_first() + more);
        match run.step() {
            ListStepView::Spawn { sequence, state, run: rest } => {
                let handle = (world.spawn)(history, sequence, state);
                law_exit_ends_the_list(
                    world,
                    rest.spawned(handle),
                    more,
                    history.push(Event::Spawn { sequence, state, handle }),
                );
            },
            ListStepView::Run { sequence, state, run: rest } => {
                let ended = run_sequence(world, sequence, state, history);
                match ended.result {
                    ResultView::Exit(_, _) => {},
                    ResultView::Continue(code, changes, handles) => {
                        law_exit_ends_the_list(
                            world,
                            rest.continued(code, changes, handles),
                            more,
                            ended.history,
                        );
                    },
                }
            },
            _ => {},
        }
    }
}

/// A subshell never makes the shell exit: an exit in its list ends the list alone, and the subshell
/// goes on with that exit code and without changes.
pub proof fn law_subshell_does_not_exit<H>(
    world: World<H>,
    list: Box<SequentialList>,
    state: StateView,
    history: Seq<Event<H>>,
)
    ensures
        ({
            let own = run_list(
                world,
                list_start(list.items@, state, AsyncCommandBehavior::Yield),
                history,
            );
            let ended = run_sequence(world, Sequence::Subshell(list), state, history);
            &&& ended.result is Continue
            &&& ended.result.exit_code() == own.result.exit_code()
            &&& ended.result.changes() == own.result.changes()
            &&& ended.result.handles() == own.result.handles()
            &&& ended.history == own.history
        }),
{
}

/// A pipeline never makes the shell exit nor changes it, ends with the exit code of its last
/// command, and hands on the tasks of all of its commands.
pub proof fn law_pipeline_does_not_exit<H>(
    world: World<H>,
    pipeline: Box<Pipeline>,
    state: StateView,
    history: Seq<Event<H>>,
)
    ensures
        ({
            let ended = run_sequence(world, Sequence::Pipeline(pipeline), state, history);
            let results = (world.pipeline)(
                history,
                pipeline_elements(*pipeline),
                state,
            );
            &&& ended.result is Continue
            &&& ended.result.exit_code() == results.last().exit_code()
            &&& ended.result.changes() == Seq::<EnvChangeView>::empty()
            &&& ended.result.handles() == results.last().handles() + all_handles(
                results.drop_last(),
            )
        }),
{
}

/// What the sequences come to when each is run in the same state, the one at `i` from
/// `histories[i]`.
pub open spec fn stage_results<H>(
    world: World<H>,
    sequences: Seq<Sequence>,
    state: StateView,
    histories: Seq<Seq<Event<H>>>,
) -> Seq<ResultView<H>> {
    Seq::new(
        sequences.len(),
        |i: int| run_sequence(world, sequences[i], state, histories[i]).result,
    )
}

/// Whether the outside runs the commands of pipelines: it answers with one result for each, which is
/// what the command comes to in the state of the pipeline. What happens meanwhile is its own: as the
/// commands run at the same time, each has some history.
pub open spec fn runs_pipelines<H>(world: World<H>) -> bool {
    forall|sequences: Seq<Sequence>, state: StateView, history: Seq<Event<H>>|
        exists|histories: Seq<Seq<Event<H>>>|
            histories.len() == sequences.len() && #[trigger] (world.pipeline)(
                history,
                sequences,
                state,
            ) == #[trigger] stage_results(world, sequences, state, histories)
}

/// A pipeline runs each of its commands in its own state. It ends with the exit code of the last,
/// whether that makes its shell exit or not, without changes, and with the tasks that the last has
/// left and then those of the others, in their order.
pub proof fn law_pipeline_ends_as_its_last_command<H>(
    world: World<H>,
    pipeline: Box<Pipeline>,
    state: StateView,
    history: Seq<Event<H>>,
)
    requires
        runs_pipelines(world),
    ensures
        ({
            let commands = pipeline_elements(*pipeline);
            let ended = run_sequence(world, Sequence::Pipeline(pipeline), state, history);
            &&& commands.len() >= 2
            &&& exists|histories: Seq<Seq<Event<H>>>|
                {
                    let results = #[trigger] stage_results(world, commands, state, histories);
                    let last = run_sequence(
                        world,
                        commands.last(),
                        state,
                        histories.last(),
                    ).result;
                    &&& histories.len() == commands.len()
                    &&& ended.result == ResultView::<H>::Continue(
                        last.exit_code(),
                        Seq::empty(),
                        last.handles() + all_handles(results.drop_last()),
                    )
                    &&& ended.history == history.push(
                        Event::Pipeline { sequences: commands, state, results },
                    )
                }
        }),
{
    let commands = pipeline_elements(*pipeline);
    lemma_pipeline_has_two(*pipeline);
    let results = (world.pipeline)(history, commands, state);
    let histories = choose|histories: Seq<Seq<Event<H>>>|
        histories.len() == commands.len() && results == #[trigger] stage_results(
            world,
            commands,
            state,
            histories,
        );
    assert(results == stage_results(world, commands, state, histories));
    assert(results.last() == run_sequence(world, commands.last(), state, histories.last()).result);
}

/// A pipeline has two commands or more.
proof fn lemma_pipeline_has_two(pipeline: Pipeline)
    ensures
        pipeline_elements(pipeline).len() >= 2,
    decreases pipeline,
{
    match pipeline.next {
        Sequence::Pipeline(rest) => {
            lemma_pipeline_has_two(*rest);
        },
        _ => {},
    }
}

/// Whether a result goes on, changes nothing and leaves no task.
pub open spec fn is_plain<H>(result: ResultView<H>) -> bool {
    result == plain_result::<H>(result.exit_code())
}

/// Whether a command can only end with a plain result.
spec fn is_quiet<H>(step: CommandStepView<H>) -> bool {
    match step {
        CommandStepView::Substitute { run, .. } => run is Env,
        CommandStepView::Builtin { .. } => false,
        CommandStepView::Print { result, .. } => is_plain(result),
        CommandStepView::Report { result, .. } => is_plain(result),
        CommandStepView::Probe { .. } => true,
        CommandStepView::Launch { .. } => true,
        CommandStepView::Done(result) => is_plain(result),
    }
}

/// A program can only end with a plain result.
proof fn lemma_program_is_quiet<H>(
    command_name: Seq<char>,
    args: Seq<Seq<char>>,
    env_vars: Seq<EnvVar>,
    state: StateView,
    separator: char,
)
    ensures
        is_quiet(program_step::<H>(command_name, args, env_vars, state, separator)),
    decreases env_vars.len(),
{
    if env_vars.len() > 0 {
        match parts_step(Seq::empty(), env_vars.first().value.parts(), state) {
            PartsStepView::Done(value) => {
                lemma_program_is_quiet::<H>(
                    command_name,
                    args,
                    env_vars.drop_first(),
                    state.with_env_var(env_vars.first().name@, value),
                    separator,
                );
            },
            PartsStepView::Substitute { .. } => {},
        }
    }
}

/// What can only end with a plain result does.
proof fn lemma_quiet_ends_plain<H>(
    world: World<H>,
    step: CommandStepView<H>,
    history: Seq<Event<H>>,
)
    requires
        is_quiet(step),
    ensures
        is_plain(run_command(world, step, history).result),
    decreases substitutions_due(step), other_work_due(step),
{
    match step {
        CommandStepView::Substitute { list, run } => {
            let text = (world.substitute)(history, list);
            let next = substituted_step::<H>(run, text, world.separator);
            lemma_substituted_due::<H>(run, text, world.separator);
            match run {
                CommandRunView::Env { command_name, args, name, text: before, parts, later, state } => {
                    match parts_step(before + text, parts, state) {
                        PartsStepView::Done(value) => {
                            lemma_program_is_quiet::<H>(
                                command_name,
                                args,
                                later,
                                state.with_env_var(name, value),
                                world.separator,
                            );
                        },
                        PartsStepView::Substitute { .. } => {},
                    }
                },
                CommandRunView::Args { .. } => {},
            }
            lemma_quiet_ends_plain(world, next, history.push(Event::Substitute { list, text }));
        },
        CommandStepView::Probe { command_name, path, rest, args, state } => {
            let is_file = (world.is_file)(history, path);
            let found = if is_file {
                ResolveStepView::Found(path)
            } else {
                search_step(command_name, rest)
            };
            lemma_quiet_ends_plain(
                world,
                resolved_step(command_name, found, args, state),
                history.push(Event::Probe { path, is_file }),
            );
        },
        CommandStepView::Launch { process, command_name } => {
            let end = (world.launch)(history, process);
            lemma_quiet_ends_plain(
                world,
                ended_step(command_name, end),
                history.push(Event::Launch { process, end }),
            );
        },
        _ => {},
    }
}

/// No command but the caller's own makes the shell exit, changes its state or leaves a task: the
/// variables that are set in front of a command are set for it alone.
pub proof fn law_only_builtins_touch_the_shell<H>(
    world: World<H>,
    words: Seq<Seq<char>>,
    env_vars: Seq<EnvVar>,
    state: StateView,
    history: Seq<Event<H>>,
)
    requires
        words.len() == 0 || !(kind_of(words.first()) is Builtin),
    ensures
        is_plain(
            run_command(
                world,
                named_step::<H>(words, env_vars, state, world.separator),
                history,
            ).result,
        ),
{
    let command_name = if words.len() == 0 {
        Seq::empty()
    } else {
        words.first()
    };
    let args = if words.len() == 0 {
        words
    } else {
        words.drop_first()
    };
    lemma_program_is_quiet::<H>(command_name, args, env_vars, state, world.separator);
    lemma_no_name_is_a_program();
    let step = named_step::<H>(words, env_vars, state, world.separator);
    assert(is_quiet(step));
    lemma_quiet_ends_plain(world, step, history);
}

/// `pwd`, `true` and `false` ignore their arguments.
pub proof fn law_some_commands_ignore_arguments<H>(
    words: Seq<Seq<char>>,
    env_vars: Seq<EnvVar>,
    state: StateView,
    separator: char,
)
    requires
        words.len() > 0,
        kind_of(words.first()) is PrintWorkingDirectory || kind_of(words.first()) is Succeed
            || kind_of(words.first()) is Fail,
    ensures
        named_step::<H>(words, env_vars, state, separator) == named_step::<H>(
            seq![words.first()],
            env_vars,
            state,
            separator,
        ),
{
}

/// The empty name is none of the shell's own commands.
proof fn lemma_no_name_is_a_program()
    ensures
        kind_of(Seq::empty()) == CommandKind::Program,
{
    reveal_strlit("cd");
    reveal_strlit("exit");
    reveal_strlit("pwd");
    reveal_strlit("echo");
    reveal_strlit("true");
    reveal_strlit("false");
    reveal_strlit("cp");
    reveal_strlit("mkdir");
    reveal_strlit("mv");
    reveal_strlit("rm");
    reveal_strlit("sleep");
    assert(Seq::<char>::empty().len() == 0);
    assert("cd"@.len() > 0);
    assert("exit"@.len() > 0);
    assert("pwd"@.len() > 0);
    assert("echo"@.len() > 0);
    assert("true"@.len() > 0);
    assert("false"@.len() > 0);
    assert("cp"@.len() > 0);
    assert("mkdir"@.len() > 0);
    assert("mv"@.len() > 0);
    assert("rm"@.len() > 0);
    assert("sleep"@.len() > 0);
}

/// An assignment succeeds with one change, to the variable that it names.
pub proof fn law_assignment_sets_its_variable<H>(
    world: World<H>,
    exported: bool,
    name: Seq<char>,
    value: PartsStepView,
    state: StateView,
    history: Seq<Event<H>>,
)
    ensures
        exists|text: Seq<char>|
            run_assignment(
                world,
                assign_step(exported, name, value, state),
                history,
            ).result == ResultView::<H>::Continue(
                0,
                seq![#[trigger] assignment(exported, name, text)],
                Seq::empty(),
            ),
    decreases assign_due(assign_step::<H>(exported, name, value, state)),
{
    match value {
        PartsStepView::Done(text) => {
            assert(assignment(exported, name, text) == assignment(exported, name, text));
        },
        PartsStepView::Substitute { list, text, rest } => {
            let list = substitution_start::<H>(list, state);
            let output = (world.substitute)(history, list);
            lemma_parts_due(text + output, rest, state);
            law_assignment_sets_its_variable(
                world,
                exported,
                name,
                parts_step(text + output, rest, state),
                state,
                history.push(Event::Substitute { list, text: output }),
            );
        },
    }
}

/// What the shell itself has written to its output, in the order of the events.
pub open spec fn printed<H>(events: Seq<Event<H>>) -> Seq<char>
    decreases events.len(),
{
    if events.len() == 0 {
        Seq::empty()
    } else {
        printed(events.drop_last()) + match events.last() {
            Event::Print { text } => text,
            _ => Seq::empty(),
        }
    }
}

/// Whether nothing but the shell itself can have written to the output: no program, no task, no
/// pipeline.
pub open spec fn writes_alone<H>(events: Seq<Event<H>>) -> bool {
    forall|i: int|
        0 <= i < events.len() ==> !(#[trigger] events[i] is Launch || events[i] is Spawn
            || events[i] is Pipeline)
}

/// Whether the outside catches the output of command substitutions: where nothing but the shell
/// itself writes to it, the text is what was printed, on one line.
pub open spec fn catches_output<H>(world: World<H>) -> bool {
    forall|list: ListView<H>, history: Seq<Event<H>>|
        ({
            let events = run_list(world, list, history).history.skip(history.len() as int);
            writes_alone(events) ==> #[trigger] (world.substitute)(history, list)
                == substitution_text(printed(events))
        })
}

/// `$(echo text)` stands for the text: the arguments of `echo`, with spaces between them. A line end
/// in them becomes a space, and a carriage return at their end is taken for a part of the line end.
pub proof fn law_echo_is_substituted<H>(
    world: World<H>,
    list: SequentialList,
    words: Seq<Seq<char>>,
    state: StateView,
    history: Seq<Event<H>>,
)
    requires
        catches_output(world),
        list.items@.len() == 1,
        !list.items@[0].is_async,
        list.items@[0].sequence matches Sequence::Command(command) && args_step(
            Seq::empty(),
            command.args@,
            state,
        ) == ArgsStepView::Done(words),
        words.len() > 0,
        kind_of(words.first()) is Echo,
    ensures
        ({
            let text = joined_with(words.drop_first(), " "@);
            let substituted = (world.substitute)(history, substitution_start(list, state));
            &&& substituted == substitution_text(text + "\n"@)
            &&& !text.contains('\n') && (text.len() == 0 || text.last() != '\r') ==> substituted
                == text
        }),
{
    let text = joined_with(words.drop_first(), " "@);
    let run = substitution_start::<H>(list, state);
    let print = Event::<H>::Print { text: text + "\n"@ };
    let join = Event::<H>::Join { handles: Seq::empty() };
    let ended = run_sequence(world, list.items@[0].sequence, state, history);
    assert(ended == (Ended { result: plain_result::<H>(0), history: history.push(print) }));
    let last = ListView { items: run.items.drop_first(), ..run }.continued(
        0,
        Seq::empty(),
        Seq::empty(),
    );
    assert(last.handles =~= Seq::<H>::empty());
    assert(run_list(world, last, ended.history).history == history.push(print).push(join));
    let events = run_list(world, run, history).history.skip(history.len() as int);
    assert(events =~= seq![print, join]);
    assert(events.drop_last() =~= seq![print]);
    assert(events.drop_last().drop_last() =~= Seq::<Event<H>>::empty());
    assert(printed(events.drop_last().drop_last()) =~= Seq::<char>::empty());
    assert(printed(events.drop_last()) =~= text + "\n"@);
    assert(printed(events) =~= text + "\n"@);
    reveal_strlit("\n");
    assert(text + "\n"@ =~= text.push('\n'));
    if !text.contains('\n') {
        law_plain_output_is_kept(text);
    }
}

/// What waits for a result only adds to what has happened.
proof fn lemma_unwind_adds<H>(world: World<H>, frames: Seq<FrameView<H>>, ended: Ended<H>)
    ensures
        begins_with(unwind(world, frames, ended).history, ended.history),
    decreases frames.len(),
{
    if frames.len() == 0 {
        assert(ended.history.take(ended.history.len() as int) =~= ended.history);
    } else {
        let next = through(world, frames.last(), ended);
        match frames.last() {
            FrameView::List(run) => match ended.result {
                ResultView::Exit(_, _) => {},
                ResultView::Continue(code, changes, handles) => {
                    law_list_adds_to_history(
                        world,
                        run.continued(code, changes, handles),
                        ended.history,
                    );
                },
            },
            FrameView::First(run) => match after_first(run, ended.result) {
                BooleanStepView::Done(_) => {},
                BooleanStepView::Next { sequence, state, .. } => {
                    law_sequence_adds_to_history(world, sequence, state, ended.history);
                },
            },
            FrameView::Background => {
                lemma_push_begins(
                    ended.history,
                    Event::Join { handles: ended.result.handles() },
                );
            },
            _ => {},
        }
        assert(ended.history.take(ended.history.len() as int) =~= ended.history);
        lemma_unwind_adds(world, frames.drop_last(), next);
        lemma_begins_through(
            unwind(world, frames.drop_last(), next).history,
            next.history,
            ended.history,
        );
    }
}

/// What a run asks for is the next thing that happens; a run that has ended adds nothing.
pub proof fn law_request_happens_next<H>(
    progress: Progress<H>,
    world: World<H>,
    history: Seq<Event<H>>,
)
    ensures
        ({
            let later = progress.meaning(world, history).history;
            match progress {
                Progress::Done(_) => later == history,
                Progress::Spawn { sequence, state, .. } => begins_with(
                    later,
                    history.push(
                        Event::Spawn {
                            sequence,
                            state: state@,
                            handle: (world.spawn)(history, sequence, state@),
                        },
                    ),
                ),
                Progress::Join { handles, .. } => begins_with(
                    later,
                    history.push(Event::Join { handles: handles@ }),
                ),
                Progress::Pipeline { sequences, state, .. } => begins_with(
                    later,
                    history.push(
                        Event::Pipeline {
                            sequences: sequences@,
                            state: state@,
                            results: (world.pipeline)(history, sequences@, state@),
                        },
                    ),
                ),
                Progress::Substitute { list, .. } => begins_with(
                    later,
                    history.push(
                        Event::Substitute {
                            list: list@,
                            text: (world.substitute)(history, list@),
                        },
                    ),
                ),
                Progress::Builtin { builtin, args, cwd, .. } => begins_with(
                    later,
                    history.push(
                        Event::Builtin {
                            builtin,
                            args: texts(args@),
                            cwd: cwd@,
                            result: (world.builtin)(history, builtin, texts(args@), cwd@),
                        },
                    ),
                ),
                Progress::Print { text, .. } => begins_with(
                    later,
                    history.push(Event::Print { text: text@ }),
                ),
                Progress::Report { line, .. } => begins_with(
                    later,
                    history.push(Event::Report { line: line@ }),
                ),
                Progress::Probe { then } => begins_with(
                    later,
                    history.push(
                        Event::Probe {
                            path: then.run.search.path@,
                            is_file: (world.is_file)(history, then.run.search.path@),
                        },
                    ),
                ),
                Progress::Launch { process, .. } => begins_with(
                    later,
                    history.push(
                        Event::Launch {
                            process: process@,
                            end: (world.launch)(history, process@),
                        },
                    ),
                ),
            }
        }),
{
    let later = progress.meaning(world, history).history;
    match progress {
        Progress::Done(_) => {},
        Progress::Spawn { sequence, state, then } => {
            let handle = (world.spawn)(history, sequence, state@);
            let now = history.push(Event::Spawn { sequence, state: state@, handle });
            let ended = run_list(world, then.run@.spawned(handle), now);
            law_list_adds_to_history(world, then.run@.spawned(handle), now);
            lemma_unwind_adds(world, frames_of(then.stack@), ended);
            lemma_begins_through(later, ended.history, now);
        },
        Progress::Join { handles, then } => {
            lemma_unwind_adds(
                world,
                frames_of(then.stack@),
                Ended {
                    result: then.result@,
                    history: history.push(Event::Join { handles: handles@ }),
                },
            );
        },
        Progress::Pipeline { sequences, state, then } => {
            let results = (world.pipeline)(history, sequences@, state@);
            lemma_unwind_adds(
                world,
                frames_of(then.stack@),
                Ended {
                    result: pipeline_result(results),
                    history: history.push(
                        Event::Pipeline { sequences: sequences@, state: state@, results },
                    ),
                },
            );
        },
        Progress::Substitute { list, then } => {
            let text = (world.substitute)(history, list@);
            let now = history.push(Event::Substitute { list: list@, text });
            let ended = substituted(world, then.run@, text, now);
            match then.run@ {
                SubstitutingView::Assign(run) => {
                    law_assignment_adds_to_history(world, assign_substituted_step(run, text), now);
                },
                SubstitutingView::Command(run) => {
                    law_command_adds_to_history(
                        world,
                        substituted_step(run, text, world.separator),
                        now,
                    );
                },
            }
            lemma_unwind_adds(world, frames_of(then.stack@), ended);
            lemma_begins_through(later, ended.history, now);
        },
        Progress::Builtin { builtin, args, cwd, then } => {
            let result = (world.builtin)(history, builtin, texts(args@), cwd@);
            lemma_unwind_adds(
                world,
                frames_of(then.stack@),
                Ended {
                    result,
                    history: history.push(
                        Event::Builtin { builtin, args: texts(args@), cwd: cwd@, result },
                    ),
                },
            );
        },
        Progress::Print { text, then } => {
            lemma_unwind_adds(
                world,
                frames_of(then.stack@),
                Ended { result: then.result@, history: history.push(Event::Print { text: text@ }) },
            );
        },
        Progress::Report { line, then } => {
            lemma_unwind_adds(
                world,
                frames_of(then.stack@),
                Ended { result: then.result@, history: history.push(Event::Report { line: line@ }) },
            );
        },
        Progress::Probe { then } => {
            let path = then.run.search.path@;
            let is_file = (world.is_file)(history, path);
            let now = history.push(Event::Probe { path, is_file });
            let ended = probed(world, then.run, is_file, now);
            let found = if is_file {
                ResolveStepView::Found(path)
            } else {
                search_step(then.run.search.name@, texts(then.run.search.rest@))
            };
            law_command_adds_to_history(
                world,
                resolved_step(
                    then.run.search.name@,
                    found,
                    texts(then.run.args@),
                    then.run.state@,
                ),
                now,
            );
            lemma_unwind_adds(world, frames_of(then.stack@), ended);
            lemma_begins_through(later, ended.history, now);
        },
        Progress::Launch { process, then } => {
            let end = (world.launch)(history, process@);
            let now = history.push(Event::Launch { process: process@, end });
            let step = ended_step::<H>(then.run.command_name@, end);
            law_command_adds_to_history(world, step, now);
            lemma_unwind_adds(world, frames_of(then.stack@), run_command(world, step, now));
            lemma_begins_through(later, run_command(world, step, now).history, now);
        },
    }
}

} // verus!
