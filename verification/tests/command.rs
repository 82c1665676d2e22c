use task_shell::command::{
    command_kind, execute_command, join_with_spaces, Builtin, CommandKind, CommandStep, LaunchRun,
    ProcessEnd,
};
use task_shell::outcome::ExecuteResult;
use task_shell::platform::Platform;
use task_shell::state::ShellState;
use task_shell::syntax::{Command, EnvVar, SequentialList, StringOrWord, StringPart};

type Step = CommandStep<u32>;

fn state() -> ShellState {
    let env = vec![("PATH".to_string(), "/bin".to_string()), ("A".to_string(), "1".to_string())];
    ShellState::new(env, "/work".to_string())
}

fn quoted(text: &str) -> StringOrWord {
    StringOrWord::String(vec![StringPart::Text(text.to_string())])
}

fn command(words: &[&str]) -> Command {
    Command { env_vars: Vec::new(), args: words.iter().map(|word| quoted(word)).collect() }
}

fn begin(words: &[&str]) -> Step {
    execute_command(command(words), state(), &Platform::current())
}

fn is_plain(result: &ExecuteResult<u32>, code: i32) -> bool {
    match result {
        ExecuteResult::Continue(found, changes, handles) => {
            *found == code && changes.is_empty() && handles.is_empty()
        }
        ExecuteResult::Exit(_, _) => false,
    }
}

#[test]
fn names_of_commands_are_known() {
    assert_eq!(command_kind("cd"), CommandKind::Builtin(Builtin::Cd));
    assert_eq!(command_kind("exit"), CommandKind::Builtin(Builtin::Exit));
    assert_eq!(command_kind("pwd"), CommandKind::PrintWorkingDirectory);
    assert_eq!(command_kind("echo"), CommandKind::Echo);
    assert_eq!(command_kind("true"), CommandKind::Succeed);
    assert_eq!(command_kind("false"), CommandKind::Fail);
    assert_eq!(command_kind("cp"), CommandKind::Builtin(Builtin::Cp));
    assert_eq!(command_kind("mkdir"), CommandKind::Builtin(Builtin::Mkdir));
    assert_eq!(command_kind("mv"), CommandKind::Builtin(Builtin::Mv));
    assert_eq!(command_kind("rm"), CommandKind::Builtin(Builtin::Rm));
    assert_eq!(command_kind("sleep"), CommandKind::Builtin(Builtin::Sleep));
    assert_eq!(command_kind("ls"), CommandKind::Program);
    assert_eq!(command_kind(""), CommandKind::Program);
    assert_eq!(command_kind("Echo"), CommandKind::Program);
}

#[test]
fn texts_are_joined_with_spaces() {
    let join = |texts: &[&str]| {
        join_with_spaces(&texts.iter().map(|text| text.to_string()).collect())
    };
    assert_eq!(join(&[]), "");
    assert_eq!(join(&["a"]), "a");
    assert_eq!(join(&["a", "", "b c"]), "a  b c");
}

#[test]
fn echo_prints_its_arguments() {
    match begin(&["echo", "a", "b  c"]) {
        Step::Print { text, result } => {
            assert_eq!(text, "a b  c\n");
            assert!(is_plain(&result, 0));
        }
        _ => panic!("a text to print"),
    }
    match begin(&["echo"]) {
        Step::Print { text, .. } => assert_eq!(text, "\n"),
        _ => panic!("a text to print"),
    }
}

#[test]
fn pwd_true_and_false_ignore_arguments() {
    match begin(&["pwd", "x"]) {
        Step::Print { text, result } => {
            assert_eq!(text, "/work\n");
            assert!(is_plain(&result, 0));
        }
        _ => panic!("a text to print"),
    }
    match begin(&["true", "x"]) {
        Step::Done(result) => assert!(is_plain(&result, 0)),
        _ => panic!("done"),
    }
    match begin(&["false", "x"]) {
        Step::Done(result) => assert!(is_plain(&result, 1)),
        _ => panic!("done"),
    }
}

#[test]
fn builtins_are_handed_out() {
    match begin(&["cd", "..", "x"]) {
        Step::Builtin { builtin, args, cwd } => {
            assert_eq!(builtin, Builtin::Cd);
            assert_eq!(args, vec!["..", "x"]);
            assert_eq!(cwd, "/work");
        }
        _ => panic!("a builtin"),
    }
}

#[test]
fn empty_names_are_reported() {
    for words in [&[][..], &["", "x"][..]] {
        match begin(words) {
            Step::Report { line, result } => {
                assert_eq!(line, "command name was empty");
                assert!(is_plain(&result, 1));
            }
            _ => panic!("a report"),
        }
    }
}

#[test]
fn variables_in_front_of_a_command_build_on_each_other() {
    let env_vars = vec![
        EnvVar { name: "A".to_string(), value: quoted("2") },
        EnvVar {
            name: "B".to_string(),
            value: StringOrWord::Word(vec![
                StringPart::Variable("A".to_string()),
                StringPart::Command(SequentialList { items: Vec::new() }),
                StringPart::Text("  x".to_string()),
            ]),
        },
        EnvVar {
            name: "PATH".to_string(),
            value: StringOrWord::Word(vec![StringPart::Variable("B".to_string())]),
        },
    ];
    let platform = Platform::current();
    let command = Command { env_vars, args: vec![quoted("run"), quoted("arg")] };
    let run = match execute_command::<u32>(command, state(), &platform) {
        Step::Substitute { list, run } => {
            assert_eq!(list.state.get_var("A"), Some(&"2".to_string()));
            run
        }
        _ => panic!("a substitution"),
    };
    let mut step: Step = run.substituted("!", &platform);
    let mut tried = Vec::new();
    loop {
        step = match step {
            Step::Probe(probe) => {
                tried.push(probe.search.path.clone());
                let is_file = tried.len() == 2;
                probe.probed(is_file)
            }
            Step::Launch { process, then } => {
                assert_eq!(Some(&process.path), tried.last());
                assert_eq!(process.args, vec!["arg"]);
                assert_eq!(process.cwd, "/work");
                assert_eq!(process.env_vars.get("A"), Some(&"2".to_string()));
                assert_eq!(process.env_vars.get("B"), Some(&"2!  x".to_string()));
                assert_eq!(process.env_vars.get("PATH"), Some(&"2!  x".to_string()));
                then.ended(ProcessEnd::Exited(Some(7)))
            }
            Step::Done(result) => {
                assert!(is_plain(&result, 7));
                break;
            }
            _ => panic!("a program is looked for and launched"),
        };
    }
    if !platform.is_windows() {
        assert_eq!(tried, vec!["/work/run", "2!  x/run"]);
    }
}

#[test]
fn builtins_leave_variables_in_front_alone() {
    let env_vars = vec![EnvVar {
        name: "A".to_string(),
        value: StringOrWord::Word(vec![StringPart::Command(SequentialList { items: Vec::new() })]),
    }];
    let command = Command { env_vars, args: vec![quoted("true")] };
    match execute_command::<u32>(command, state(), &Platform::current()) {
        Step::Done(result) => assert!(is_plain(&result, 0)),
        _ => panic!("nothing is evaluated"),
    }
}

#[test]
fn unknown_commands_are_reported() {
    let mut step = begin(&["nothing"]);
    loop {
        step = match step {
            Step::Probe(probe) => probe.probed(false),
            Step::Report { line, result } => {
                assert_eq!(line, "nothing: command not found");
                assert!(is_plain(&result, 1));
                break;
            }
            _ => panic!("a search that fails"),
        };
    }
}

#[test]
fn programs_end_commands() {
    let run = || LaunchRun { command_name: "run".to_string() };
    match run().ended::<u32>(ProcessEnd::Exited(Some(3))) {
        Step::Done(result) => assert!(is_plain(&result, 3)),
        _ => panic!("done"),
    }
    match run().ended::<u32>(ProcessEnd::Exited(None)) {
        Step::Done(result) => assert!(is_plain(&result, 1)),
        _ => panic!("done"),
    }
    match run().ended::<u32>(ProcessEnd::LaunchFailed("denied".to_string())) {
        Step::Report { line, result } => {
            assert_eq!(line, "Error launching 'run': denied");
            assert!(is_plain(&result, 1));
        }
        _ => panic!("a report"),
    }
    match run().ended::<u32>(ProcessEnd::WaitFailed("lost".to_string())) {
        Step::Report { line, result } => {
            assert_eq!(line, "lost");
            assert!(is_plain(&result, 1));
        }
        _ => panic!("a report"),
    }
}
