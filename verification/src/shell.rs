//! Running a command line.
use crate::execution::{start_list, Progress};
use crate::list::{execute_sequential_list, list_start, AsyncCommandBehavior};
use crate::platform::{is_absolute_in, Platform};
use crate::semantics::{run_list, Event, World};
use crate::state::{pairs_map, ShellState, StateView};
use crate::syntax::SequentialList;
use vstd::prelude::*;

verus! {

/// The state that a command line begins in.
pub open spec fn initial_state(env_vars: Seq<(String, String)>, cwd: Seq<char>) -> StateView {
    StateView { env_vars: pairs_map(env_vars), shell_vars: Map::empty(), cwd }
}

/// Begins to run a command line with these environment variables in this directory; in the end it
/// waits for all tasks that it started. The exit code is that of the run's result. `None` where the
/// directory is no absolute path.
pub fn execute<H>(
    list: SequentialList,
    env_vars: Vec<(String, String)>,
    cwd: String,
    platform: &Platform,
) -> (res: Option<Progress<H>>)
    ensures
        res is Some == is_absolute_in(platform@, cwd@),
        res matches Some(progress) ==> forall|world: World<H>, history: Seq<Event<H>>|
            world.separator == platform@ ==> #[trigger] progress.meaning(world, history)
                == run_list(
                world,
                list_start(
                    list.items@,
                    initial_state(env_vars@, cwd@),
                    AsyncCommandBehavior::Wait,
                ),
                history,
            ),
{
    if platform.is_absolute(cwd.as_str()) {
        let state = ShellState::new(env_vars, cwd);
        let run = execute_sequential_list(list, state, AsyncCommandBehavior::Wait);
        Some(start_list(run, platform))
    } else {
        None
    }
}

} // verus!
