//! What running something comes to.
use crate::state::{changes_of, EnvChange, EnvChangeView};
use vstd::prelude::*;

verus! {

/// The result of running a list, a sequence or a command. `H` is the handle of a background task.
pub enum ExecuteResult<H> {
    /// The shell is to exit with this code; these tasks are still running.
    Exit(i32, Vec<H>),
    /// The shell goes on: the exit code, the changes to its state, the tasks that are still running.
    Continue(i32, Vec<EnvChange>, Vec<H>),
}

/// An `ExecuteResult`, as mathematical values.
#[verifier::ext_equal]
pub enum ResultView<H> {
    Exit(i32, Seq<H>),
    Continue(i32, Seq<EnvChangeView>, Seq<H>),
}

impl<H> View for ExecuteResult<H> {
    type V = ResultView<H>;

    open spec fn view(&self) -> ResultView<H> {
        match self {
            ExecuteResult::Exit(code, handles) => ResultView::Exit(*code, handles@),
            ExecuteResult::Continue(code, changes, handles) => ResultView::Continue(
                *code,
                changes_of(changes@),
                handles@,
            ),
        }
    }
}

impl<H> ResultView<H> {
    /// The exit code.
    pub open spec fn exit_code(self) -> i32 {
        match self {
            ResultView::Exit(code, _) => code,
            ResultView::Continue(code, _, _) => code,
        }
    }

    /// The tasks that are still running.
    pub open spec fn handles(self) -> Seq<H> {
        match self {
            ResultView::Exit(_, handles) => handles,
            ResultView::Continue(_, _, handles) => handles,
        }
    }

    /// The changes that reach the shell: an exit brings none.
    pub open spec fn changes(self) -> Seq<EnvChangeView> {
        match self {
            ResultView::Exit(_, _) => Seq::empty(),
            ResultView::Continue(_, changes, _) => changes,
        }
    }
}

/// The result of something that ended with `code`, changed nothing and left no task behind.
pub open spec fn plain_result<H>(code: i32) -> ResultView<H> {
    ResultView::Continue(code, Seq::empty(), Seq::empty())
}

impl<H> ExecuteResult<H> {
    /// The result of something that ended with `exit_code`, changed nothing and left no task behind.
    pub fn from_exit_code(exit_code: i32) -> (res: Self)
        ensures
            res@ == plain_result::<H>(exit_code),
    {
        let res = ExecuteResult::Continue(exit_code, Vec::new(), Vec::new());
        proof {
            assert(res@->Continue_1 =~= Seq::<EnvChangeView>::empty());
        }
        res
    }

    /// The exit code, whether the shell goes on or not.
    pub fn exit_code(&self) -> (code: i32)
        ensures
            code == self@.exit_code(),
    {
        match self {
            ExecuteResult::Exit(code, _) => *code,
            ExecuteResult::Continue(code, _, _) => *code,
        }
    }

    /// The tasks that are still running.
    pub fn into_handles(self) -> (handles: Vec<H>)
        ensures
            handles@ == self@.handles(),
    {
        match self {
            ExecuteResult::Exit(_, handles) => handles,
            ExecuteResult::Continue(_, _, handles) => handles,
        }
    }
}

/// What a result says: its exit code, its changes and its tasks, each as it was given.
pub proof fn law_results_say_what_they_hold<H>(
    code: i32,
    changes: Seq<EnvChangeView>,
    handles: Seq<H>,
)
    ensures
        ResultView::<H>::Exit(code, handles).exit_code() == code,
        ResultView::<H>::Exit(code, handles).handles() == handles,
        ResultView::<H>::Exit(code, handles).changes() == Seq::<EnvChangeView>::empty(),
        ResultView::Continue(code, changes, handles).exit_code() == code,
        ResultView::Continue(code, changes, handles).handles() == handles,
        ResultView::Continue(code, changes, handles).changes() == changes,
        plain_result::<H>(code) == ResultView::<H>::Continue(code, Seq::empty(), Seq::empty()),
{
}

/// A result says the same as mathematical values.
pub proof fn law_result_as_values<H>(code: i32, changes: Vec<EnvChange>, handles: Vec<H>)
    ensures
        ExecuteResult::Exit(code, handles)@ == ResultView::<H>::Exit(code, handles@),
        ExecuteResult::Continue(code, changes, handles)@ == ResultView::<H>::Continue(
            code,
            changes_of(changes@),
            handles@,
        ),
{
}

} // verus!
