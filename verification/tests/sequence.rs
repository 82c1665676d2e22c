use task_shell::outcome::ExecuteResult;
use task_shell::platform::Platform;
use task_shell::sequence::{
    choose_next, execute_assignment, execute_sequence, finish_pipeline, finish_subshell, AfterFirst,
    AfterNext, AssignStep, BooleanStep, SequenceStep,
};
use task_shell::state::{EnvChange, ShellState};
use task_shell::syntax::{
    BooleanList, BooleanListOperator, Command, EnvVar, Pipeline, Sequence, SequentialList,
    StringOrWord, StringPart,
};

type Outcome = ExecuteResult<u32>;

fn state() -> ShellState {
    ShellState::new(Vec::new(), "/".to_string())
}

fn named(name: &str) -> Sequence {
    let word = StringOrWord::Word(vec![StringPart::Text(name.to_string())]);
    Sequence::Command(Command { env_vars: Vec::new(), args: vec![word] })
}

fn and(current: Sequence, next: Sequence) -> Sequence {
    let op = BooleanListOperator::And;
    Sequence::BooleanList(Box::new(BooleanList { current, op, next }))
}

fn or(current: Sequence, next: Sequence) -> Sequence {
    let op = BooleanListOperator::Or;
    Sequence::BooleanList(Box::new(BooleanList { current, op, next }))
}

fn set(name: &str, value: &str) -> EnvChange {
    EnvChange::SetShellVar(name.to_string(), value.to_string())
}

fn parts_of(result: Outcome) -> (bool, i32, Vec<EnvChange>, Vec<u32>) {
    match result {
        ExecuteResult::Exit(code, handles) => (true, code, Vec::new(), handles),
        ExecuteResult::Continue(code, changes, handles) => (false, code, changes, handles),
    }
}

#[test]
fn operators_go_on_by_the_exit_code() {
    assert!(BooleanListOperator::And.moves_next_for_exit_code(0));
    assert!(!BooleanListOperator::And.moves_next_for_exit_code(1));
    assert!(!BooleanListOperator::Or.moves_next_for_exit_code(0));
    assert!(BooleanListOperator::Or.moves_next_for_exit_code(-1));
}

#[test]
fn boolean_lists_move_right() {
    // a && b || c, after a
    let rest = || or(named("b"), named("c"));
    assert_eq!(choose_next(BooleanListOperator::And, rest(), 0), Some(rest()));
    assert_eq!(choose_next(BooleanListOperator::And, rest(), 1), Some(named("c")));
    // a || b && c || d, after a
    let rest = || and(named("b"), or(named("c"), named("d")));
    assert_eq!(
        choose_next(BooleanListOperator::Or, rest(), 0),
        Some(or(named("c"), named("d")))
    );
    // a && b && c, after a
    assert_eq!(choose_next(BooleanListOperator::And, and(named("b"), named("c")), 5), None);
    assert_eq!(choose_next(BooleanListOperator::Or, named("b"), 0), None);
}

#[test]
fn the_first_sequence_decides_what_follows() {
    let run = || AfterFirst { op: BooleanListOperator::And, next: named("b"), state: state() };
    match run().finished(Outcome::Continue(0, vec![set("X", "1")], vec![7])) {
        BooleanStep::Next { sequence, state, run } => {
            assert_eq!(sequence, named("b"));
            assert_eq!(state.get_var("X"), Some(&"1".to_string()));
            assert_eq!(run.changes, vec![set("X", "1")]);
            assert_eq!(run.handles, vec![7]);
        }
        BooleanStep::Done(_) => panic!("the next sequence runs"),
    }
    match run().finished(Outcome::Continue(2, vec![set("X", "1")], vec![7])) {
        BooleanStep::Done(result) => {
            assert_eq!(parts_of(result), (false, 2, vec![set("X", "1")], vec![7]));
        }
        BooleanStep::Next { .. } => panic!("nothing runs"),
    }
    match run().finished(Outcome::Exit(0, vec![7])) {
        BooleanStep::Done(result) => assert_eq!(parts_of(result), (true, 0, vec![], vec![7])),
        BooleanStep::Next { .. } => panic!("nothing runs"),
    }
}

#[test]
fn the_last_sequence_ends_the_list() {
    let run = || AfterNext { changes: vec![set("X", "1")], handles: vec![7] };
    let ended = run().finished(Outcome::Continue(4, vec![set("Y", "2")], vec![8]));
    assert_eq!(parts_of(ended), (false, 4, vec![set("X", "1"), set("Y", "2")], vec![7, 8]));
    let ended = run().finished(Outcome::Exit(5, vec![8]));
    assert_eq!(parts_of(ended), (true, 5, vec![], vec![7, 8]));
}

#[test]
fn pipelines_end_as_their_last_command() {
    let results = || vec![Outcome::Exit(1, vec![1]), Outcome::Continue(2, vec![set("X", "1")], vec![2])];
    let mut all = results();
    all.push(Outcome::Exit(3, vec![3, 4]));
    assert_eq!(parts_of(finish_pipeline(all)), (false, 3, vec![], vec![3, 4, 1, 2]));
    assert_eq!(parts_of(finish_pipeline(results())), (false, 2, vec![], vec![2, 1]));
}

#[test]
fn subshells_do_not_exit() {
    let ended = finish_subshell(Outcome::Exit(9, vec![1]));
    assert_eq!(parts_of(ended), (false, 9, vec![], vec![1]));
    let ended = finish_subshell(Outcome::Continue(0, vec![set("X", "1")], vec![1]));
    assert_eq!(parts_of(ended), (false, 0, vec![set("X", "1")], vec![1]));
}

#[test]
fn pipelines_are_flattened() {
    let inner = Pipeline { current: named("b"), next: named("c") };
    let pipeline = Pipeline {
        current: named("a"),
        next: Sequence::Pipeline(Box::new(inner)),
    };
    assert_eq!(pipeline.into_vec(), vec![named("a"), named("b"), named("c")]);
}

#[test]
fn assignments_set_a_variable() {
    let var = || EnvVar {
        name: "N".to_string(),
        value: StringOrWord::Word(vec![StringPart::Text("a  b".to_string())]),
    };
    match execute_assignment::<u32>(true, var(), state()) {
        AssignStep::Done(result) => {
            let change = EnvChange::SetEnvVar("N".to_string(), "a  b".to_string());
            assert_eq!(parts_of(result), (false, 0, vec![change], vec![]));
        }
        AssignStep::Substitute { .. } => panic!("no substitution"),
    }
    match execute_assignment::<u32>(false, var(), state()) {
        AssignStep::Done(result) => {
            assert_eq!(parts_of(result), (false, 0, vec![set("N", "a  b")], vec![]));
        }
        AssignStep::Substitute { .. } => panic!("no substitution"),
    }
}

#[test]
fn assignments_wait_for_substitutions() {
    let list = SequentialList { items: Vec::new() };
    let value = StringOrWord::String(vec![
        StringPart::Text("<".to_string()),
        StringPart::Command(list),
        StringPart::Text(">".to_string()),
    ]);
    let var = EnvVar { name: "N".to_string(), value };
    match execute_assignment::<u32>(false, var, state()) {
        AssignStep::Substitute { run, .. } => match run.substituted::<u32>("1 2") {
            AssignStep::Done(result) => {
                assert_eq!(parts_of(result), (false, 0, vec![set("N", "<1 2>")], vec![]));
            }
            AssignStep::Substitute { .. } => panic!("no more substitutions"),
        },
        AssignStep::Done(_) => panic!("a substitution"),
    }
}

#[test]
fn sequences_begin_by_their_kind() {
    let platform = Platform::current();
    match execute_sequence::<u32>(and(named("a"), named("b")), state(), &platform) {
        SequenceStep::BooleanList { first, run, .. } => {
            assert_eq!(first, named("a"));
            assert_eq!(run.next, named("b"));
        }
        _ => panic!("a boolean list"),
    }
    let pipeline = Pipeline { current: named("a"), next: named("b") };
    match execute_sequence::<u32>(Sequence::Pipeline(Box::new(pipeline)), state(), &platform) {
        SequenceStep::Pipeline { sequences, .. } => {
            assert_eq!(sequences, vec![named("a"), named("b")]);
        }
        _ => panic!("a pipeline"),
    }
    let list = SequentialList { items: Vec::new() };
    match execute_sequence::<u32>(Sequence::Subshell(Box::new(list)), state(), &platform) {
        SequenceStep::Subshell { list } => {
            assert_eq!(list.behavior, task_shell::list::AsyncCommandBehavior::Yield);
        }
        _ => panic!("a subshell"),
    }
    match execute_sequence::<u32>(named("true"), state(), &platform) {
        SequenceStep::Command(_) => {}
        _ => panic!("a command"),
    }
}
