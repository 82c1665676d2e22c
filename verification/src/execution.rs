//! A run as a machine: it stops wherever something is asked of the outside, and goes on with the
//! answer.
//!
//! The machine keeps what is under way around the command in hand as a stack. What it still comes
//! to in a world is its meaning, and every step keeps the meaning that `semantics` gives.
use crate::command::{
    ended_step, resolved_step, substituted_step, Builtin, CommandRun, CommandRunView, CommandStep,
    LaunchRun, ProbeRun, Process, ProcessEnd,
};
use crate::evaluate::{lossy_text, substitute_output, substitution_text};
use crate::list::{ListRun, ListStep, ListView};
use crate::outcome::{plain_result, ExecuteResult, ResultView};
use crate::platform::Platform;
use crate::resolve::{search_step, ResolveStepView};
use crate::semantics::{
    run_assignment, run_command, run_list, run_sequence, Ended, Event, World,
};
use crate::sequence::{
    after_first, after_next, assign_substituted_step, execute_sequence, finish_pipeline,
    finish_subshell, next_to_run, pipeline_result, results_of, subshell_result, AfterFirst,
    AfterFirstView, AfterNext, AssignRun, AssignRunView, AssignStep, BooleanStep, BooleanStepView,
    SequenceStep,
};
use crate::state::{changes_of, EnvChangeView, ShellState};
use crate::syntax::{BooleanListOperator, Sequence, SequentialListItem};
use crate::text::texts;
use vstd::prelude::*;

verus! {

/// What waits for the result of something that is running.
pub enum Frame<H> {
    /// A list, for the result of an item.
    List(ListRun<H>),
    /// A boolean list, for the result of its first sequence.
    First(AfterFirst),
    /// A boolean list, for the result of a later one.
    Next(AfterNext<H>),
    /// A subshell, for the result of its list.
    Subshell,
    /// A task in the background, for the result of its sequence.
    Background,
}

/// What waits for a result, as mathematical values.
#[verifier::ext_equal]
pub enum FrameView<H> {
    List(ListView<H>),
    First(AfterFirstView),
    Next { changes: Seq<EnvChangeView>, handles: Seq<H> },
    Subshell,
    Background,
}

impl<H> View for Frame<H> {
    type V = FrameView<H>;

    open spec fn view(&self) -> FrameView<H> {
        match self {
            Frame::List(run) => FrameView::List(run@),
            Frame::First(run) => FrameView::First(run@),
            Frame::Next(run) => FrameView::Next {
                changes: changes_of(run.changes@),
                handles: run.handles@,
            },
            Frame::Subshell => FrameView::Subshell,
            Frame::Background => FrameView::Background,
        }
    }
}

/// What each frame of a stack is; the innermost is the last.
pub open spec fn frames_of<H>(stack: Seq<Frame<H>>) -> Seq<FrameView<H>> {
    stack.map_values(|frame: Frame<H>| frame@)
}

/// What the frame makes of what the thing that it waits for came to.
pub open spec fn through<H>(world: World<H>, frame: FrameView<H>, ended: Ended<H>) -> Ended<H> {
    match frame {
        FrameView::List(run) => match ended.result {
            ResultView::Exit(_, _) => ended,
            ResultView::Continue(code, changes, handles) => run_list(
                world,
                run.continued(code, changes, handles),
                ended.history,
            ),
        },
        FrameView::First(run) => match after_first(run, ended.result) {
            BooleanStepView::Done(result) => Ended { result, history: ended.history },
            BooleanStepView::Next { sequence, state, changes, handles } => {
                let last = run_sequence(world, sequence, state, ended.history);
                Ended { result: after_next(changes, handles, last.result), history: last.history }
            },
        },
        FrameView::Next { changes, handles } => Ended {
            result: after_next(changes, handles, ended.result),
            history: ended.history,
        },
        FrameView::Subshell => Ended {
            result: subshell_result(ended.result),
            history: ended.history,
        },
        FrameView::Background => Ended {
            result: plain_result(ended.result.exit_code()),
            history: ended.history.push(Event::Join { handles: ended.result.handles() }),
        },
    }
}

/// What all of the frames make of what the innermost waits for.
pub open spec fn unwind<H>(world: World<H>, frames: Seq<FrameView<H>>, ended: Ended<H>) -> Ended<H>
    decreases frames.len(),
{
    if frames.len() == 0 {
        ended
    } else {
        unwind(world, frames.drop_last(), through(world, frames.last(), ended))
    }
}

/// Where a run has got to: what it asks of the outside, or its result. Each answer goes to `then`.
#[allow(inconsistent_fields)]
pub enum Progress<H> {
    /// The run has ended.
    Done(ExecuteResult<H>),
    /// Start a task that runs `sequence` in `state` (see `start_background`); the answer is its
    /// handle.
    Spawn { sequence: Sequence, state: ShellState, then: AfterSpawn<H> },
    /// Wait for all of the tasks.
    Join { handles: Vec<H>, then: AfterWork<H> },
    /// Run all of the sequences in `state` at the same time (see `start_sequence`), the output of
    /// each the input of the next; the answer is their results.
    Pipeline { sequences: Vec<Sequence>, state: ShellState, then: AfterPipeline<H> },
    /// Run the list (see `start_list`) and catch its output; the answer is the output.
    Substitute { list: ListRun<H>, then: AfterSubstitute<H> },
    /// Run the caller's own command; the answer is its result.
    Builtin { builtin: Builtin, args: Vec<String>, cwd: String, then: AfterBuiltin<H> },
    /// Write the text to the output.
    Print { text: String, then: AfterWork<H> },
    /// Write the line to the error output.
    Report { line: String, then: AfterWork<H> },
    /// Look whether there is a file at `then.run.search.path`; the answer is whether.
    Probe { then: AfterProbe<H> },
    /// Launch the program and wait for it; the answer is what came of it.
    Launch { process: Process, then: AfterLaunch<H> },
}

/// A run that waits for the handle of a task.
pub struct AfterSpawn<H> {
    pub run: ListRun<H>,
    pub stack: Vec<Frame<H>>,
}

/// A run that waits for something to be done, and has a result to go on with.
pub struct AfterWork<H> {
    pub result: ExecuteResult<H>,
    pub stack: Vec<Frame<H>>,
}

/// A run that waits for the results of a pipeline.
pub struct AfterPipeline<H> {
    pub stack: Vec<Frame<H>>,
}

/// A run that waits for the output of a command substitution.
pub struct AfterSubstitute<H> {
    pub run: Substituting,
    pub stack: Vec<Frame<H>>,
}

/// What waits for the output of a command substitution.
pub enum Substituting {
    Assign(AssignRun),
    Command(CommandRun),
}

/// A run that waits for the result of a command of the caller's.
pub struct AfterBuiltin<H> {
    pub stack: Vec<Frame<H>>,
}

/// A run that waits to be told whether there is a file at a path.
pub struct AfterProbe<H> {
    pub run: ProbeRun,
    pub stack: Vec<Frame<H>>,
}

/// A run that waits for a program.
pub struct AfterLaunch<H> {
    pub run: LaunchRun,
    pub stack: Vec<Frame<H>>,
}

/// What waits for the output of a command substitution, as mathematical values.
#[verifier::ext_equal]
pub enum SubstitutingView {
    Assign(AssignRunView),
    Command(CommandRunView),
}

impl View for Substituting {
    type V = SubstitutingView;

    open spec fn view(&self) -> SubstitutingView {
        match self {
            Substituting::Assign(run) => SubstitutingView::Assign(run@),
            Substituting::Command(run) => SubstitutingView::Command(run@),
        }
    }
}

/// What comes of what waits for the output of a command substitution, once it has the text that
/// the output stands for.
pub open spec fn substituted<H>(
    world: World<H>,
    run: SubstitutingView,
    text: Seq<char>,
    history: Seq<Event<H>>,
) -> Ended<H> {
    match run {
        SubstitutingView::Assign(run) => run_assignment(
            world,
            assign_substituted_step(run, text),
            history,
        ),
        SubstitutingView::Command(run) => run_command(
            world,
            substituted_step(run, text, world.separator),
            history,
        ),
    }
}

/// What comes of a waiting search once it is known whether there is a file at its path.
pub open spec fn probed<H>(
    world: World<H>,
    run: ProbeRun,
    is_file: bool,
    history: Seq<Event<H>>,
) -> Ended<H> {
    let found = if is_file {
        ResolveStepView::Found(run.search.path@)
    } else {
        search_step(run.search.name@, texts(run.search.rest@))
    };
    run_command(
        world,
        resolved_step(run.search.name@, found, texts(run.args@), run.state@),
        history,
    )
}

impl<H> Progress<H> {
    /// What the run still comes to in a world, when this is what has happened so far.
    pub open spec fn meaning(self, world: World<H>, history: Seq<Event<H>>) -> Ended<H> {
        match self {
            Progress::Done(result) => Ended { result: result@, history },
            Progress::Spawn { sequence, state, then } => {
                let handle = (world.spawn)(history, sequence, state@);
                unwind(
                    world,
                    frames_of(then.stack@),
                    run_list(
                        world,
                        then.run@.spawned(handle),
                        history.push(Event::Spawn { sequence, state: state@, handle }),
                    ),
                )
            },
            Progress::Join { handles, then } => unwind(
                world,
                frames_of(then.stack@),
                Ended {
                    result: then.result@,
                    history: history.push(Event::Join { handles: handles@ }),
                },
            ),
            Progress::Pipeline { sequences, state, then } => {
                let results = (world.pipeline)(history, sequences@, state@);
                unwind(
                    world,
                    frames_of(then.stack@),
                    Ended {
                        result: pipeline_result(results),
                        history: history.push(
                            Event::Pipeline { sequences: sequences@, state: state@, results },
                        ),
                    },
                )
            },
            Progress::Substitute { list, then } => {
                let text = (world.substitute)(history, list@);
                unwind(
                    world,
                    frames_of(then.stack@),
                    substituted(
                        world,
                        then.run@,
                        text,
                        history.push(Event::Substitute { list: list@, text }),
                    ),
                )
            },
            Progress::Builtin { builtin, args, cwd, then } => {
                let result = (world.builtin)(history, builtin, texts(args@), cwd@);
                unwind(
                    world,
                    frames_of(then.stack@),
                    Ended {
                        result,
                        history: history.push(
                            Event::Builtin { builtin, args: texts(args@), cwd: cwd@, result },
                        ),
                    },
                )
            },
            Progress::Print { text, then } => unwind(
                world,
                frames_of(then.stack@),
                Ended { result: then.result@, history: history.push(Event::Print { text: text@ }) },
            ),
            Progress::Report { line, then } => unwind(
                world,
                frames_of(then.stack@),
                Ended { result: then.result@, history: history.push(Event::Report { line: line@ }) },
            ),
            Progress::Probe { then } => {
                let path = then.run.search.path@;
                let is_file = (world.is_file)(history, path);
                unwind(
                    world,
                    frames_of(then.stack@),
                    probed(world, then.run, is_file, history.push(Event::Probe { path, is_file })),
                )
            },
            Progress::Launch { process, then } => {
                let end = (world.launch)(history, process@);
                unwind(
                    world,
                    frames_of(then.stack@),
                    run_command(
                        world,
                        ended_step(then.run.command_name@, end),
                        history.push(Event::Launch { process: process@, end }),
                    ),
                )
            },
        }
    }
}

/// What the machine has in hand.
enum Hand<H> {
    /// A sequence that is to begin.
    Begin { sequence: Sequence, state: ShellState },
    /// A list that is to go on.
    List(ListRun<H>),
    /// An assignment that has got this far.
    Assign(AssignStep<H>),
    /// A command that has got this far.
    Command(CommandStep<H>),
    /// A result for the innermost frame.
    Result(ExecuteResult<H>),
}

impl<H> Hand<H> {
    /// What comes of what is in hand.
    spec fn ends(self, world: World<H>, history: Seq<Event<H>>) -> Ended<H> {
        match self {
            Hand::Begin { sequence, state } => run_sequence(world, sequence, state@, history),
            Hand::List(run) => run_list(world, run@, history),
            Hand::Assign(step) => run_assignment(world, step@, history),
            Hand::Command(step) => run_command(world, step@, history),
            Hand::Result(result) => Ended { result: result@, history },
        }
    }
}

/// What the machine still comes to.
spec fn machine_meaning<H>(
    hand: Hand<H>,
    frames: Seq<FrameView<H>>,
    world: World<H>,
    history: Seq<Event<H>>,
) -> Ended<H> {
    unwind(world, frames, hand.ends(world, history))
}

/// The size of what is still to run, which every move of the machine makes smaller.
spec fn sequence_size(sequence: Sequence) -> nat
    decreases sequence,
{
    match sequence {
        Sequence::BooleanList(list) => 2 + sequence_size(list.current) + sequence_size(list.next),
        Sequence::Subshell(list) => 1 + items_size(list.items@),
        _ => 1,
    }
}

spec fn items_size(items: Seq<SequentialListItem>) -> nat
    decreases items,
{
    if items.len() == 0 {
        0
    } else {
        1 + sequence_size(items.first().sequence) + items_size(items.drop_first())
    }
}

spec fn hand_size<H>(hand: Hand<H>) -> nat {
    match hand {
        Hand::Begin { sequence, .. } => sequence_size(sequence),
        Hand::List(run) => items_size(run.items@),
        _ => 0,
    }
}

spec fn frame_size<H>(frame: FrameView<H>) -> nat {
    match frame {
        FrameView::List(run) => items_size(run.items),
        FrameView::First(run) => 1 + sequence_size(run.next),
        _ => 0,
    }
}

spec fn frames_size<H>(frames: Seq<FrameView<H>>) -> nat
    decreases frames.len(),
{
    if frames.len() == 0 {
        0
    } else {
        frames_size(frames.drop_last()) + frame_size(frames.last())
    }
}

spec fn hand_rank<H>(hand: Hand<H>) -> nat {
    match hand {
        Hand::Result(_) => 0,
        _ => 1,
    }
}

proof fn lemma_next_size(op: BooleanListOperator, next: Sequence, exit_code: i32)
    ensures
        next_to_run(op, next, exit_code) matches Some(part) ==> sequence_size(part)
            <= sequence_size(next),
    decreases next,
{
    if !op.moves_next(exit_code) {
        match next {
            Sequence::BooleanList(list) => {
                lemma_next_size(list.op, list.next, exit_code);
            },
            _ => {},
        }
    }
}

/// What one move of the machine leads to.
enum Move<H> {
    /// Something is asked of the outside, or the run has ended.
    Stop(Progress<H>),
    /// The machine has this in hand, and this stack.
    Go(Hand<H>, Vec<Frame<H>>),
}

impl<H> Move<H> {
    /// What the run still comes to.
    spec fn meaning(self, world: World<H>, history: Seq<Event<H>>) -> Ended<H> {
        match self {
            Move::Stop(progress) => progress.meaning(world, history),
            Move::Go(hand, stack) => machine_meaning(hand, frames_of(stack@), world, history),
        }
    }

    /// Whether the move keeps the meaning of `hand` on `stack`, in all worlds of a platform.
    spec fn keeps(self, separator: char, hand: Hand<H>, stack: Seq<Frame<H>>) -> bool {
        forall|world: World<H>, history: Seq<Event<H>>|
            world.separator == separator ==> #[trigger] self.meaning(world, history)
                == machine_meaning(hand, frames_of(stack), world, history)
    }

    /// Whether the move keeps the meaning of `hand` on `stack`, in all worlds.
    spec fn keeps_everywhere(self, hand: Hand<H>, stack: Seq<Frame<H>>) -> bool {
        forall|world: World<H>, history: Seq<Event<H>>| #[trigger]
            self.meaning(world, history) == machine_meaning(hand, frames_of(stack), world, history)
    }

    /// Whether the move brings the machine nearer to its next stop.
    spec fn lessens(self, hand: Hand<H>, stack: Seq<Frame<H>>) -> bool {
        match self {
            Move::Stop(_) => true,
            Move::Go(next, rest) => {
                let size = hand_size(hand) + frames_size(frames_of(stack));
                let next_size = hand_size(next) + frames_size(frames_of(rest@));
                ||| next_size < size
                ||| next_size == size && rest@.len() < stack.len()
                ||| next_size == size && rest@.len() == stack.len() && hand_rank(next) < hand_rank(
                    hand,
                )
            },
        }
    }
}

/// A frame put on the stack gets what is in hand.
proof fn lemma_push<H>(world: World<H>, stack: Seq<Frame<H>>, frame: Frame<H>, ended: Ended<H>)
    ensures
        unwind(world, frames_of(stack.push(frame)), ended) == unwind(
            world,
            frames_of(stack),
            through(world, frame@, ended),
        ),
        frames_size(frames_of(stack.push(frame))) == frames_size(frames_of(stack)) + frame_size(
            frame@,
        ),
{
    assert(frames_of(stack.push(frame)).drop_last() =~= frames_of(stack));
}

/// Begins a sequence.
fn begin<H>(sequence: Sequence, state: ShellState, stack: Vec<Frame<H>>, platform: &Platform) -> (res:
    Move<H>)
    ensures
        res.keeps(platform@, Hand::Begin { sequence, state }, stack@),
        res.lessens(Hand::Begin { sequence, state }, stack@),
{
    let ghost hand = Hand::<H>::Begin { sequence, state };
    let ghost frames = frames_of(stack@);
    let mut stack = stack;
    match execute_sequence::<H>(sequence, state, platform) {
        SequenceStep::Assign(step) => Move::Go(Hand::Assign(step), stack),
        SequenceStep::Command(step) => Move::Go(Hand::Command(step), stack),
        SequenceStep::BooleanList { first, state: first_state, run } => {
            let ghost below = stack@;
            stack.push(Frame::First(run));
            let res = Move::Go(Hand::Begin { sequence: first, state: first_state }, stack);
            proof {
                assert forall|world: World<H>, history: Seq<Event<H>>|
                    world.separator == platform@ implies #[trigger] res.meaning(world, history)
                    == machine_meaning(hand, frames, world, history) by {
                    lemma_push(
                        world,
                        below,
                        Frame::First(run),
                        run_sequence(world, first, first_state@, history),
                    );
                }
                assert(frames_of(stack@).drop_last() =~= frames);
            }
            res
        },
        SequenceStep::Pipeline { sequences, state } => Move::Stop(
            Progress::Pipeline { sequences, state, then: AfterPipeline { stack } },
        ),
        SequenceStep::Subshell { list } => {
            let ghost below = stack@;
            stack.push(Frame::Subshell);
            let res = Move::Go(Hand::List(list), stack);
            proof {
                assert forall|world: World<H>, history: Seq<Event<H>>|
                    world.separator == platform@ implies #[trigger] res.meaning(world, history)
                    == machine_meaning(hand, frames, world, history) by {
                    lemma_push(
                        world,
                        below,
                        Frame::Subshell,
                        run_list(world, list@, history),
                    );
                }
                assert(frames_of(stack@).drop_last() =~= frames);
            }
            res
        },
    }
}

/// Goes on with a list.
fn go_on<H>(run: ListRun<H>, stack: Vec<Frame<H>>) -> (res: Move<H>)
    ensures
        res.keeps_everywhere(Hand::List(run), stack@),
        res.lessens(Hand::List(run), stack@),
{
    let ghost hand = Hand::List(run);
    let ghost frames = frames_of(stack@);
    let mut stack = stack;
    match run.step() {
        ListStep::Spawn { sequence, state, run } => Move::Stop(
            Progress::Spawn { sequence, state, then: AfterSpawn { run, stack } },
        ),
        ListStep::Run { sequence, state, run: rest } => {
            let ghost below = stack@;
            stack.push(Frame::List(rest));
            let res = Move::Go(Hand::Begin { sequence, state }, stack);
            proof {
                assert forall|world: World<H>, history: Seq<Event<H>>| #[trigger]
                    res.meaning(world, history) == machine_meaning(hand, frames, world, history) by {
                    lemma_push(
                        world,
                        below,
                        Frame::List(rest),
                        run_sequence(world, sequence, state@, history),
                    );
                }
                assert(frames_of(stack@).drop_last() =~= frames);
            }
            res
        },
        ListStep::Join { handles, result } => Move::Stop(
            Progress::Join { handles, then: AfterWork { result, stack } },
        ),
        ListStep::Done(result) => Move::Go(Hand::Result(result), stack),
    }
}

/// Takes up where an assignment has got to.
fn take_assignment<H>(step: AssignStep<H>, stack: Vec<Frame<H>>) -> (res: Move<H>)
    ensures
        res.keeps_everywhere(Hand::Assign(step), stack@),
        res.lessens(Hand::Assign(step), stack@),
{
    match step {
        AssignStep::Substitute { list, run } => Move::Stop(
            Progress::Substitute {
                list,
                then: AfterSubstitute { run: Substituting::Assign(run), stack },
            },
        ),
        AssignStep::Done(result) => Move::Go(Hand::Result(result), stack),
    }
}

/// Takes up where a command has got to.
fn take_command<H>(step: CommandStep<H>, stack: Vec<Frame<H>>) -> (res: Move<H>)
    ensures
        res.keeps_everywhere(Hand::Command(step), stack@),
        res.lessens(Hand::Command(step), stack@),
{
    match step {
        CommandStep::Substitute { list, run } => Move::Stop(
            Progress::Substitute {
                list,
                then: AfterSubstitute { run: Substituting::Command(run), stack },
            },
        ),
        CommandStep::Builtin { builtin, args, cwd } => Move::Stop(
            Progress::Builtin { builtin, args, cwd, then: AfterBuiltin { stack } },
        ),
        CommandStep::Print { text, result } => Move::Stop(
            Progress::Print { text, then: AfterWork { result, stack } },
        ),
        CommandStep::Report { line, result } => Move::Stop(
            Progress::Report { line, then: AfterWork { result, stack } },
        ),
        CommandStep::Probe(run) => Move::Stop(Progress::Probe { then: AfterProbe { run, stack } }),
        CommandStep::Launch { process, then } => Move::Stop(
            Progress::Launch { process, then: AfterLaunch { run: then, stack } },
        ),
        CommandStep::Done(result) => Move::Go(Hand::Result(result), stack),
    }
}

/// Gives a result to a frame that was the innermost.
fn give<H>(result: ExecuteResult<H>, frame: Frame<H>, stack: Vec<Frame<H>>) -> (res: Move<H>)
    ensures
        res.keeps_everywhere(Hand::Result(result), stack@.push(frame)),
        res.lessens(Hand::Result(result), stack@.push(frame)),
{
    let ghost hand = Hand::Result(result);
    let ghost below = stack@;
    proof {
        assert forall|world: World<H>, history: Seq<Event<H>>| #[trigger]
            machine_meaning(hand, frames_of(below.push(frame)), world, history) == unwind(
            world,
            frames_of(below),
            through(world, frame@, Ended { result: result@, history }),
        ) by {
            lemma_push(world, below, frame, Ended { result: result@, history });
        }
        assert(frames_of(below.push(frame)).drop_last() =~= frames_of(below));
    }
    match frame {
        Frame::List(run) => {
            match run.finished(result) {
                Ok(run) => Move::Go(Hand::List(run), stack),
                Err(end) => Move::Go(Hand::Result(end), stack),
            }
        },
        Frame::First(run) => {
            proof {
                lemma_next_size(run.op, run.next, result@.exit_code());
            }
            match run.finished(result) {
                BooleanStep::Done(end) => Move::Go(Hand::Result(end), stack),
                BooleanStep::Next { sequence, state, run: rest } => {
                    let mut stack = stack;
                    stack.push(Frame::Next(rest));
                    let res = Move::Go(Hand::Begin { sequence, state }, stack);
                    proof {
                        assert forall|world: World<H>, history: Seq<Event<H>>| #[trigger]
                            res.meaning(world, history) == machine_meaning(
                            hand,
                            frames_of(below.push(frame)),
                            world,
                            history,
                        ) by {
                            lemma_push(
                                world,
                                below,
                                Frame::Next(rest),
                                run_sequence(world, sequence, state@, history),
                            );
                        }
                        assert(frames_of(stack@).drop_last() =~= frames_of(below));
                    }
                    res
                },
            }
        },
        Frame::Next(run) => Move::Go(Hand::Result(run.finished(result)), stack),
        Frame::Subshell => Move::Go(Hand::Result(finish_subshell(result)), stack),
        Frame::Background => {
            let code: i32 = result.exit_code();
            Move::Stop(
                Progress::Join {
                    handles: result.into_handles(),
                    then: AfterWork { result: ExecuteResult::from_exit_code(code), stack },
                },
            )
        },
    }
}

/// Lets the machine move until it asks something of the outside or ends.
fn settle<H>(hand: Hand<H>, stack: Vec<Frame<H>>, platform: &Platform) -> (progress: Progress<H>)
    ensures
        forall|world: World<H>, history: Seq<Event<H>>|
            world.separator == platform@ ==> #[trigger] progress.meaning(world, history)
                == machine_meaning(hand, frames_of(stack@), world, history),
{
    let mut now = hand;
    let mut frames = stack;
    loop
        invariant
            forall|world: World<H>, history: Seq<Event<H>>|
                world.separator == platform@ ==> #[trigger] machine_meaning(
                    now,
                    frames_of(frames@),
                    world,
                    history,
                ) == machine_meaning(hand, frames_of(stack@), world, history),
        decreases
                hand_size(now) + frames_size(frames_of(frames@)),
                frames@.len(),
                hand_rank(now),
    {
        let ghost last = now;
        let ghost below = frames@;
        let moved: Move<H> = match now {
            Hand::Begin { sequence, state } => begin(sequence, state, frames, platform),
            Hand::List(run) => go_on(run, frames),
            Hand::Assign(step) => take_assignment(step, frames),
            Hand::Command(step) => take_command(step, frames),
            Hand::Result(result) => {
                if frames.len() == 0 {
                    let progress = Progress::Done(result);
                    proof {
                        assert forall|world: World<H>, history: Seq<Event<H>>|
                            world.separator == platform@ implies #[trigger] progress.meaning(
                            world,
                            history,
                        ) == machine_meaning(hand, frames_of(stack@), world, history) by {
                            assert(machine_meaning(last, frames_of(below), world, history)
                                == progress.meaning(world, history));
                        }
                    }
                    return progress;
                }
                let frame = frames.remove(frames.len() - 1);
                proof {
                    assert(frames@.push(frame) =~= below);
                }
                give(result, frame, frames)
            },
        };
        assert(moved.keeps(platform@, last, below));
        match moved {
            Move::Stop(progress) => {
                assert forall|world: World<H>, history: Seq<Event<H>>|
                    world.separator == platform@ implies #[trigger] progress.meaning(
                    world,
                    history,
                ) == machine_meaning(hand, frames_of(stack@), world, history) by {
                    assert(progress.meaning(world, history) == moved.meaning(world, history));
                }
                return progress;
            },
            Move::Go(next, rest) => {
                assert forall|world: World<H>, history: Seq<Event<H>>|
                    world.separator == platform@ implies #[trigger] machine_meaning(
                    next,
                    frames_of(rest@),
                    world,
                    history,
                ) == machine_meaning(hand, frames_of(stack@), world, history) by {
                    assert(machine_meaning(next, frames_of(rest@), world, history)
                        == moved.meaning(world, history));
                }
                now = next;
                frames = rest;
            },
        }
    }
}

/// Begins a run that is nothing but a list.
pub fn start_list<H>(run: ListRun<H>, platform: &Platform) -> (progress: Progress<H>)
    ensures
        forall|world: World<H>, history: Seq<Event<H>>|
            world.separator == platform@ ==> #[trigger] progress.meaning(world, history)
                == run_list(world, run@, history),
{
    let stack: Vec<Frame<H>> = Vec::new();
    settle(Hand::List(run), stack, platform)
}

/// Begins a run that is nothing but a sequence, such as one of a pipeline.
pub fn start_sequence<H>(sequence: Sequence, state: ShellState, platform: &Platform) -> (progress:
    Progress<H>)
    ensures
        forall|world: World<H>, history: Seq<Event<H>>|
            world.separator == platform@ ==> #[trigger] progress.meaning(world, history)
                == run_sequence(world, sequence, state@, history),
{
    let stack: Vec<Frame<H>> = Vec::new();
    settle(Hand::Begin { sequence, state }, stack, platform)
}

/// Begins the run of a task in the background: a sequence, and then the wait for the tasks that it
/// left running.
pub fn start_background<H>(sequence: Sequence, state: ShellState, platform: &Platform) -> (progress:
    Progress<H>)
    ensures
        forall|world: World<H>, history: Seq<Event<H>>|
            world.separator == platform@ ==> #[trigger] progress.meaning(world, history) == through(
                world,
                FrameView::Background,
                run_sequence(world, sequence, state@, history),
            ),
{
    let mut stack: Vec<Frame<H>> = Vec::new();
    proof {
        assert forall|world: World<H>, ended: Ended<H>| #[trigger]
            unwind(world, frames_of(stack@.push(Frame::Background)), ended) == through(
            world,
            FrameView::Background,
            ended,
        ) by {
            lemma_push(world, stack@, Frame::Background, ended);
        }
    }
    stack.push(Frame::Background);
    settle(Hand::Begin { sequence, state }, stack, platform)
}

impl<H> AfterSpawn<H> {
    /// Goes on once the task was started.
    pub fn spawned(self, handle: H, platform: &Platform) -> (progress: Progress<H>)
        ensures
            forall|world: World<H>, history: Seq<Event<H>>|
                world.separator == platform@ ==> #[trigger] progress.meaning(world, history)
                    == unwind(
                    world,
                    frames_of(self.stack@),
                    run_list(world, self.run@.spawned(handle), history),
                ),
    {
        settle(Hand::List(self.run.spawned(handle)), self.stack, platform)
    }
}

impl<H> AfterWork<H> {
    /// Goes on once the work was done.
    pub fn done(self, platform: &Platform) -> (progress: Progress<H>)
        ensures
            forall|world: World<H>, history: Seq<Event<H>>|
                world.separator == platform@ ==> #[trigger] progress.meaning(world, history)
                    == unwind(
                    world,
                    frames_of(self.stack@),
                    Ended { result: self.result@, history },
                ),
    {
        settle(Hand::Result(self.result), self.stack, platform)
    }
}

impl<H> AfterPipeline<H> {
    /// Goes on with the results of the pipeline's commands.
    pub fn finished(self, results: Vec<ExecuteResult<H>>, platform: &Platform) -> (progress: Progress<
        H,
    >)
        requires
            results@.len() > 0,
        ensures
            forall|world: World<H>, history: Seq<Event<H>>|
                world.separator == platform@ ==> #[trigger] progress.meaning(world, history)
                    == unwind(
                    world,
                    frames_of(self.stack@),
                    Ended { result: pipeline_result(results_of(results@)), history },
                ),
    {
        settle(Hand::Result(finish_pipeline(results)), self.stack, platform)
    }
}

impl<H> AfterSubstitute<H> {
    /// Goes on with the text that the output of the list stands for.
    pub fn substituted(self, text: &str, platform: &Platform) -> (progress: Progress<H>)
        ensures
            forall|world: World<H>, history: Seq<Event<H>>|
                world.separator == platform@ ==> #[trigger] progress.meaning(world, history)
                    == unwind(
                    world,
                    frames_of(self.stack@),
                    substituted(world, self.run@, text@, history),
                ),
    {
        let hand: Hand<H> = match self.run {
            Substituting::Assign(run) => Hand::Assign(run.substituted(text)),
            Substituting::Command(run) => Hand::Command(run.substituted(text, platform)),
        };
        settle(hand, self.stack, platform)
    }

    /// Goes on with what the list has written to its output.
    pub fn captured(self, output: &Vec<u8>, platform: &Platform) -> (progress: Progress<H>)
        ensures
            forall|world: World<H>, history: Seq<Event<H>>|
                world.separator == platform@ ==> #[trigger] progress.meaning(world, history)
                    == unwind(
                    world,
                    frames_of(self.stack@),
                    substituted(
                        world,
                        self.run@,
                        substitution_text(lossy_text(output@)),
                        history,
                    ),
                ),
            vstd::utf8::valid_utf8(output@) ==> lossy_text(output@) == vstd::utf8::decode_utf8(
                output@,
            ),
    {
        let text = substitute_output(output);
        self.substituted(text.as_str(), platform)
    }
}

impl<H> AfterBuiltin<H> {
    /// Goes on with the result of the command.
    pub fn finished(self, result: ExecuteResult<H>, platform: &Platform) -> (progress: Progress<H>)
        ensures
            forall|world: World<H>, history: Seq<Event<H>>|
                world.separator == platform@ ==> #[trigger] progress.meaning(world, history)
                    == unwind(world, frames_of(self.stack@), Ended { result: result@, history }),
    {
        settle(Hand::Result(result), self.stack, platform)
    }
}

impl<H> AfterProbe<H> {
    /// Goes on once it is known whether there is a file at the path.
    pub fn probed(self, is_file: bool, platform: &Platform) -> (progress: Progress<H>)
        ensures
            forall|world: World<H>, history: Seq<Event<H>>|
                world.separator == platform@ ==> #[trigger] progress.meaning(world, history)
                    == unwind(
                    world,
                    frames_of(self.stack@),
                    probed(world, self.run, is_file, history),
                ),
    {
        settle(Hand::Command(self.run.probed(is_file)), self.stack, platform)
    }
}

impl<H> AfterLaunch<H> {
    /// Goes on with what came of the program.
    pub fn ended(self, end: ProcessEnd, platform: &Platform) -> (progress: Progress<H>)
        ensures
            forall|world: World<H>, history: Seq<Event<H>>|
                world.separator == platform@ ==> #[trigger] progress.meaning(world, history)
                    == unwind(
                    world,
                    frames_of(self.stack@),
                    run_command(world, ended_step(self.run.command_name@, end), history),
                ),
    {
        settle(Hand::Command(self.run.ended(end)), self.stack, platform)
    }
}

} // verus!
