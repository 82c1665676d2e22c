//! Running a list: its items one after the other, those that end in `&` in the background.
use crate::outcome::{ExecuteResult, ResultView};
use crate::state::{changes_of, EnvChange, EnvChangeView, ShellState, StateView};
use crate::syntax::{Sequence, SequentialList, SequentialListItem};
use vstd::prelude::*;

verus! {

/// What becomes of the tasks that a list leaves running.
#[derive(Debug, Clone, Copy, PartialEq, Eq, Structural)]
pub enum AsyncCommandBehavior {
    /// The list waits for them.
    Wait,
    /// They are handed on with its result.
    Yield,
}

/// A list that is running.
pub struct ListRun<H> {
    /// The items that are still to run.
    pub items: Vec<SequentialListItem>,
    /// The state that the next item runs in.
    pub state: ShellState,
    /// The exit code of the last item that was waited for.
    pub exit_code: i32,
    /// What the items have changed so far.
    pub changes: Vec<EnvChange>,
    /// The tasks that were started so far.
    pub handles: Vec<H>,
    pub behavior: AsyncCommandBehavior,
}

/// A running list, as mathematical values.
#[verifier::ext_equal]
pub struct ListView<H> {
    pub items: Seq<SequentialListItem>,
    pub state: StateView,
    pub exit_code: i32,
    pub changes: Seq<EnvChangeView>,
    pub handles: Seq<H>,
    pub behavior: AsyncCommandBehavior,
}

impl<H> View for ListRun<H> {
    type V = ListView<H>;

    open spec fn view(&self) -> ListView<H> {
        ListView {
            items: self.items@,
            state: self.state@,
            exit_code: self.exit_code,
            changes: changes_of(self.changes@),
            handles: self.handles@,
            behavior: self.behavior,
        }
    }
}

/// Where a list has got to.
pub enum ListStep<H> {
    /// A task that runs `sequence` in `state` and then waits for the tasks that it left running is
    /// to be started; its handle goes to `ListRun::spawned`.
    Spawn { sequence: Sequence, state: ShellState, run: ListRun<H> },
    /// The result of `sequence`, run in `state`, goes to `ListRun::finished`.
    Run { sequence: Sequence, state: ShellState, run: ListRun<H> },
    /// The list has ended with `result` once all of `handles` have ended.
    Join { handles: Vec<H>, result: ExecuteResult<H> },
    /// The list has ended.
    Done(ExecuteResult<H>),
}

/// Where a list has got to, as mathematical values.
#[verifier::ext_equal]
pub enum ListStepView<H> {
    Spawn { sequence: Sequence, state: StateView, run: ListView<H> },
    Run { sequence: Sequence, state: StateView, run: ListView<H> },
    Join { handles: Seq<H>, result: ResultView<H> },
    Done(ResultView<H>),
}

impl<H> View for ListStep<H> {
    type V = ListStepView<H>;

    open spec fn view(&self) -> ListStepView<H> {
        match self {
            ListStep::Spawn { sequence, state, run } => ListStepView::Spawn {
                sequence: *sequence,
                state: state@,
                run: run@,
            },
            ListStep::Run { sequence, state, run } => ListStepView::Run {
                sequence: *sequence,
                state: state@,
                run: run@,
            },
            ListStep::Join { handles, result } => ListStepView::Join {
                handles: handles@,
                result: result@,
            },
            ListStep::Done(result) => ListStepView::Done(result@),
        }
    }
}

/// A list that has not begun.
pub open spec fn list_start<H>(
    items: Seq<SequentialListItem>,
    state: StateView,
    behavior: AsyncCommandBehavior,
) -> ListView<H> {
    ListView {
        items,
        state,
        exit_code: 0,
        changes: Seq::empty(),
        handles: Seq::empty(),
        behavior,
    }
}

impl<H> ListView<H> {
    /// What the list does next: its next item runs, or it ends.
    pub open spec fn step(self) -> ListStepView<H> {
        if self.items.len() > 0 {
            let run = ListView { items: self.items.drop_first(), ..self };
            if self.items.first().is_async {
                ListStepView::Spawn {
                    sequence: self.items.first().sequence,
                    state: self.state,
                    run,
                }
            } else {
                ListStepView::Run { sequence: self.items.first().sequence, state: self.state, run }
            }
        } else {
            match self.behavior {
                AsyncCommandBehavior::Wait => ListStepView::Join {
                    handles: self.handles,
                    result: ResultView::Continue(self.exit_code, self.changes, Seq::empty()),
                },
                AsyncCommandBehavior::Yield => ListStepView::Done(
                    ResultView::Continue(self.exit_code, self.changes, self.handles),
                ),
            }
        }
    }

    /// The list once a task was started for an item.
    pub open spec fn spawned(self, handle: H) -> ListView<H> {
        ListView { handles: self.handles.push(handle), ..self }
    }

    /// The list once an item went on with this exit code, these changes and these tasks.
    pub open spec fn continued(
        self,
        code: i32,
        changes: Seq<EnvChangeView>,
        handles: Seq<H>,
    ) -> ListView<H> {
        ListView {
            state: self.state.apply_all(changes),
            exit_code: code,
            changes: self.changes + changes,
            handles: self.handles + handles,
            ..self
        }
    }
}

/// Begins to run a list in a state.
pub fn execute_sequential_list<H>(
    list: SequentialList,
    state: ShellState,
    behavior: AsyncCommandBehavior,
) -> (run: ListRun<H>)
    ensures
        run@ == list_start::<H>(list.items@, state@, behavior),
{
    let run = ListRun {
        items: list.items,
        state,
        exit_code: 0,
        changes: Vec::new(),
        handles: Vec::new(),
        behavior,
    };
    proof {
        assert(run@.changes =~= Seq::<EnvChangeView>::empty());
    }
    run
}

/// The list of a command substitution before it has begun: it runs in a copy of the state and waits
/// for the tasks that it starts.
pub open spec fn substitution_start<H>(list: SequentialList, state: StateView) -> ListView<H> {
    list_start(list.items@, state, AsyncCommandBehavior::Wait)
}

/// Begins to run the list of a command substitution.
pub fn start_substitution<H>(list: SequentialList, state: &ShellState) -> (run: ListRun<H>)
    ensures
        run@ == substitution_start::<H>(list, state@),
{
    execute_sequential_list(list, state.clone(), AsyncCommandBehavior::Wait)
}

impl<H> ListRun<H> {
    /// Takes up the next item, or ends.
    pub fn step(self) -> (step: ListStep<H>)
        ensures
            step@ == self@.step(),
    {
        let ListRun { items, state, exit_code, changes, handles, behavior } = self;
        if items.len() > 0 {
            let mut rest = items;
            let item = rest.remove(0);
            proof {
                assert(rest@ =~= items@.drop_first());
            }
            let SequentialListItem { is_async, sequence } = item;
            let item_state = state.clone();
            let run = ListRun { items: rest, state, exit_code, changes, handles, behavior };
            if is_async {
                ListStep::Spawn { sequence, state: item_state, run }
            } else {
                ListStep::Run { sequence, state: item_state, run }
            }
        } else {
            match behavior {
                AsyncCommandBehavior::Wait => ListStep::Join {
                    handles,
                    result: ExecuteResult::Continue(exit_code, changes, Vec::new()),
                },
                AsyncCommandBehavior::Yield => ListStep::Done(
                    ExecuteResult::Continue(exit_code, changes, handles),
                ),
            }
        }
    }

    /// Goes on once a task was started.
    pub fn spawned(self, handle: H) -> (run: ListRun<H>)
        ensures
            run@ == self@.spawned(handle),
    {
        let mut run = self;
        run.handles.push(handle);
        run
    }

    /// Goes on with the result of an item: `Err` ends the list with that result, an exit.
    pub fn finished(self, result: ExecuteResult<H>) -> (res: Result<ListRun<H>, ExecuteResult<H>>)
        ensures
            match result@ {
                ResultView::Exit(_, _) => res matches Err(end) && end@ == result@,
                ResultView::Continue(code, changes, handles) => {
                    res matches Ok(run) && run@ == self@.continued(code, changes, handles)
                },
            },
    {
        match result {
            ExecuteResult::Exit(code, handles) => Err(ExecuteResult::Exit(code, handles)),
            ExecuteResult::Continue(code, changes, handles) => {
                let ghost all = changes_of(self.changes@) + changes_of(changes@);
                let mut run = self;
                let mut changes = changes;
                let mut handles = handles;
                run.state.apply_changes(&changes);
                run.changes.append(&mut changes);
                run.handles.append(&mut handles);
                run.exit_code = code;
                proof {
                    assert(run@.changes =~= all);
                }
                Ok(run)
            },
        }
    }
}

} // verus!
