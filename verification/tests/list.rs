use task_shell::list::{execute_sequential_list, AsyncCommandBehavior, ListRun, ListStep};
use task_shell::outcome::ExecuteResult;
use task_shell::state::{EnvChange, ShellState};
use task_shell::syntax::{Command, Sequence, SequentialList, SequentialListItem, StringOrWord, StringPart};

type Outcome = ExecuteResult<u32>;

fn named(name: &str) -> Sequence {
    let word = StringOrWord::Word(vec![StringPart::Text(name.to_string())]);
    Sequence::Command(Command { env_vars: Vec::new(), args: vec![word] })
}

fn begin(items: &[(&str, bool)], behavior: AsyncCommandBehavior) -> ListRun<u32> {
    let items = items
        .iter()
        .map(|(name, is_async)| SequentialListItem { is_async: *is_async, sequence: named(name) })
        .collect();
    let state = ShellState::new(Vec::new(), "/".to_string());
    execute_sequential_list(SequentialList { items }, state, behavior)
}

fn set(name: &str, value: &str) -> EnvChange {
    EnvChange::SetShellVar(name.to_string(), value.to_string())
}

fn parts_of(result: Outcome) -> (bool, i32, Vec<EnvChange>, Vec<u32>) {
    match result {
        ExecuteResult::Exit(code, handles) => (true, code, Vec::new(), handles),
        ExecuteResult::Continue(code, changes, handles) => (false, code, changes, handles),
    }
}

fn run_item(run: ListRun<u32>, name: &str, result: Outcome) -> ListRun<u32> {
    match run.step() {
        ListStep::Run { sequence, run, .. } => {
            assert_eq!(sequence, named(name));
            match run.finished(result) {
                Ok(run) => run,
                Err(_) => panic!("the list goes on"),
            }
        }
        _ => panic!("an item to run"),
    }
}

fn spawn_item(run: ListRun<u32>, name: &str, handle: u32) -> ListRun<u32> {
    match run.step() {
        ListStep::Spawn { sequence, run, .. } => {
            assert_eq!(sequence, named(name));
            run.spawned(handle)
        }
        _ => panic!("an item to start"),
    }
}

#[test]
fn an_empty_list_succeeds() {
    match begin(&[], AsyncCommandBehavior::Wait).step() {
        ListStep::Join { handles, result } => {
            assert!(handles.is_empty());
            assert_eq!(parts_of(result), (false, 0, vec![], vec![]));
        }
        _ => panic!("the list waits"),
    }
    match begin(&[], AsyncCommandBehavior::Yield).step() {
        ListStep::Done(result) => assert_eq!(parts_of(result), (false, 0, vec![], vec![])),
        _ => panic!("the list does not wait"),
    }
}

#[test]
fn the_last_item_gives_the_exit_code() {
    let items = [("a", false), ("b", false), ("c", true)];
    for behavior in [AsyncCommandBehavior::Wait, AsyncCommandBehavior::Yield] {
        let run = begin(&items, behavior);
        let run = run_item(run, "a", Outcome::Continue(1, vec![set("X", "1")], vec![1]));
        assert_eq!(run.state.get_var("X"), Some(&"1".to_string()));
        let run = run_item(run, "b", Outcome::Continue(2, vec![set("X", "2")], vec![2]));
        let run = spawn_item(run, "c", 3);
        assert_eq!(run.state.get_var("X"), Some(&"2".to_string()));
        let changes = vec![set("X", "1"), set("X", "2")];
        match run.step() {
            ListStep::Join { handles, result } => {
                assert_eq!(behavior, AsyncCommandBehavior::Wait);
                assert_eq!(handles, vec![1, 2, 3]);
                assert_eq!(parts_of(result), (false, 2, changes, vec![]));
            }
            ListStep::Done(result) => {
                assert_eq!(behavior, AsyncCommandBehavior::Yield);
                assert_eq!(parts_of(result), (false, 2, changes, vec![1, 2, 3]));
            }
            _ => panic!("the list has ended"),
        }
    }
}

#[test]
fn an_exit_ends_the_list() {
    let run = begin(&[("a", true), ("b", false), ("c", false)], AsyncCommandBehavior::Wait);
    let run = spawn_item(run, "a", 1);
    match run.step() {
        ListStep::Run { run, .. } => match run.finished(Outcome::Exit(4, vec![2])) {
            Err(result) => assert_eq!(parts_of(result), (true, 4, vec![], vec![2])),
            Ok(_) => panic!("nothing more runs"),
        },
        _ => panic!("an item to run"),
    }
}

#[test]
fn results_tell_their_exit_code_and_tasks() {
    assert_eq!(Outcome::Exit(3, vec![1]).exit_code(), 3);
    assert_eq!(Outcome::Continue(4, vec![], vec![]).exit_code(), 4);
    assert_eq!(Outcome::Exit(3, vec![1]).into_handles(), vec![1]);
    assert_eq!(Outcome::Continue(4, vec![], vec![2, 3]).into_handles(), vec![2, 3]);
    assert_eq!(parts_of(Outcome::from_exit_code(5)), (false, 5, vec![], vec![]));
}
