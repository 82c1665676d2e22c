use task_shell::command::{Builtin, ProcessEnd};
use task_shell::execution::{start_background, start_list, start_sequence, Progress};
use task_shell::outcome::ExecuteResult;
use task_shell::platform::Platform;
use task_shell::shell::execute;
use task_shell::state::{EnvChange, ShellState};
use task_shell::syntax::{
    BooleanList, BooleanListOperator, Command, EnvVar, Pipeline, Sequence, SequentialList,
    SequentialListItem, StringOrWord, StringPart,
};

type Outcome = ExecuteResult<u32>;

/// A shell without an outside: it keeps a log of what is asked of it, and knows `cd`, `exit` and the
/// program `/bin/code`, which ends with the code that it is given.
struct Shell {
    platform: Platform,
    log: Vec<String>,
    tasks: u32,
}

impl Shell {
    fn new() -> Shell {
        Shell { platform: Platform::current(), log: Vec::new(), tasks: 0 }
    }

    fn drive(&mut self, progress: Progress<u32>, output: &mut Vec<u8>) -> Outcome {
        let mut progress = progress;
        loop {
            let platform = self.platform;
            progress = match progress {
                Progress::Done(result) => return result,
                Progress::Spawn { sequence, state, then } => {
                    self.tasks += 1;
                    let handle = self.tasks;
                    self.log.push(format!("spawn {}", handle));
                    let mut own = Vec::new();
                    let result = self.drive(start_background(sequence, state, &platform), &mut own);
                    assert!(result.into_handles().is_empty());
                    output.extend(own);
                    then.spawned(handle, &platform)
                }
                Progress::Join { handles, then } => {
                    self.log.push(format!("join {:?}", handles));
                    then.done(&platform)
                }
                Progress::Pipeline { sequences, state, then } => {
                    self.log.push(format!("pipe {}", sequences.len()));
                    let mut results = Vec::new();
                    let mut last = Vec::new();
                    for sequence in sequences {
                        last.clear();
                        let start = start_sequence(sequence, state.clone(), &platform);
                        results.push(self.drive(start, &mut last));
                    }
                    output.extend(last);
                    then.finished(results, &platform)
                }
                Progress::Substitute { list, then } => {
                    let mut own = Vec::new();
                    self.drive(start_list(list, &platform), &mut own);
                    then.captured(&own, &platform)
                }
                Progress::Builtin { builtin, args, cwd, then } => {
                    self.log.push(format!("{:?} {} in {}", builtin, args.join(" "), cwd));
                    let result = match builtin {
                        Builtin::Exit => Outcome::Exit(args[0].parse().unwrap(), Vec::new()),
                        Builtin::Cd => {
                            Outcome::Continue(0, vec![EnvChange::Cd(args[0].clone())], Vec::new())
                        }
                        _ => Outcome::from_exit_code(0),
                    };
                    then.finished(result, &platform)
                }
                Progress::Print { text, then } => {
                    output.extend(text.as_bytes());
                    then.done(&platform)
                }
                Progress::Report { line, then } => {
                    self.log.push(format!("error {}", line));
                    then.done(&platform)
                }
                Progress::Probe { then } => {
                    let path = then.run.search.path.clone();
                    then.probed(path == "/bin/code" || path == "/bin/broken", &platform)
                }
                Progress::Launch { process, then } => {
                    let mut env = process.env_vars.pairs();
                    env.sort();
                    env.retain(|(name, _)| name != "PATH");
                    self.log.push(format!("launch {} {:?} {:?}", process.path, process.args, env));
                    let end = if process.path == "/bin/code" {
                        ProcessEnd::Exited(process.args[0].parse().ok())
                    } else {
                        ProcessEnd::LaunchFailed("broken".to_string())
                    };
                    then.ended(end, &platform)
                }
            };
        }
    }

    fn run(&mut self, items: Vec<SequentialListItem>) -> (i32, String) {
        let env = vec![("PATH".to_string(), "/bin".to_string())];
        let list = SequentialList { items };
        let progress = execute(list, env, "/work".to_string(), &self.platform).unwrap();
        let mut output = Vec::new();
        let code = self.drive(progress, &mut output).exit_code();
        (code, String::from_utf8(output).unwrap())
    }
}

fn text(text: &str) -> StringPart {
    StringPart::Text(text.to_string())
}

fn var(name: &str) -> StringPart {
    StringPart::Variable(name.to_string())
}

fn bare(word: &str) -> StringOrWord {
    let part = match word.strip_prefix('$') {
        Some(name) => var(name),
        None => text(word),
    };
    StringOrWord::Word(vec![part])
}

fn cmd(line: &str) -> Sequence {
    Sequence::Command(Command { env_vars: Vec::new(), args: line.split(' ').map(bare).collect() })
}

fn shell_var(name: &str, value: &str) -> Sequence {
    Sequence::ShellVar(EnvVar { name: name.to_string(), value: bare(value) })
}

fn export(name: &str, value: &str) -> Sequence {
    Sequence::EnvVar(EnvVar { name: name.to_string(), value: bare(value) })
}

fn and(current: Sequence, next: Sequence) -> Sequence {
    let op = BooleanListOperator::And;
    Sequence::BooleanList(Box::new(BooleanList { current, op, next }))
}

fn or(current: Sequence, next: Sequence) -> Sequence {
    let op = BooleanListOperator::Or;
    Sequence::BooleanList(Box::new(BooleanList { current, op, next }))
}

fn pipe(current: Sequence, next: Sequence) -> Sequence {
    Sequence::Pipeline(Box::new(Pipeline { current, next }))
}

fn item(sequence: Sequence) -> SequentialListItem {
    SequentialListItem { is_async: false, sequence }
}

fn background(sequence: Sequence) -> SequentialListItem {
    SequentialListItem { is_async: true, sequence }
}

fn subshell(items: Vec<SequentialListItem>) -> Sequence {
    Sequence::Subshell(Box::new(SequentialList { items }))
}

fn run(items: Vec<SequentialListItem>) -> (i32, String) {
    Shell::new().run(items)
}

#[test]
fn only_absolute_directories_are_accepted() {
    let platform = Platform::current();
    let begin = |cwd: &str| {
        let list = SequentialList { items: Vec::new() };
        execute::<u32>(list, Vec::new(), cwd.to_string(), &platform).is_some()
    };
    assert!(!begin(""));
    assert!(!begin("work"));
    assert!(!begin("./work"));
    if !platform.is_windows() {
        assert!(begin("/work"));
        assert!(begin("/"));
    }
}

#[test]
fn commands_run_one_after_the_other() {
    assert_eq!(run(vec![]), (0, "".to_string()));
    assert_eq!(
        run(vec![item(cmd("echo 1")), item(cmd("false")), item(cmd("echo 2"))]),
        (0, "1\n2\n".to_string())
    );
    assert_eq!(run(vec![item(cmd("echo 1")), item(cmd("false"))]), (1, "1\n".to_string()));
}

#[test]
fn boolean_lists_run_from_left_to_right() {
    let echo = |word: &str| cmd(&format!("echo {}", word));
    assert_eq!(run(vec![item(and(cmd("true"), echo("1")))]), (0, "1\n".to_string()));
    assert_eq!(run(vec![item(and(cmd("false"), echo("1")))]), (1, "".to_string()));
    assert_eq!(run(vec![item(or(cmd("false"), echo("1")))]), (0, "1\n".to_string()));
    assert_eq!(run(vec![item(or(cmd("true"), echo("1")))]), (0, "".to_string()));
    // false && echo 1 || echo 2 && echo 3
    let list = and(cmd("false"), or(echo("1"), and(echo("2"), echo("3"))));
    assert_eq!(run(vec![item(list)]), (0, "2\n3\n".to_string()));
    // true || echo 1 && echo 2 || echo 3
    let list = or(cmd("true"), and(echo("1"), or(echo("2"), echo("3"))));
    assert_eq!(run(vec![item(list)]), (0, "2\n".to_string()));
    // X=1 && false || echo $X
    let list = and(shell_var("X", "1"), or(cmd("false"), cmd("echo $X")));
    assert_eq!(run(vec![item(list)]), (0, "1\n".to_string()));
}

#[test]
fn exit_ends_all_but_subshells_and_pipelines() {
    let mut shell = Shell::new();
    let list = and(cmd("exit 3"), cmd("echo 1"));
    assert_eq!(shell.run(vec![item(list), item(cmd("echo 2"))]), (3, "".to_string()));
    assert_eq!(shell.log, vec!["Exit 3 in /work"]);
    let inner = subshell(vec![item(cmd("exit 4")), item(cmd("echo 1"))]);
    assert_eq!(run(vec![item(inner)]), (4, "".to_string()));
    let inner = subshell(vec![item(cmd("exit 4"))]);
    assert_eq!(run(vec![item(or(inner, cmd("echo 2")))]), (0, "2\n".to_string()));
    let piped = pipe(cmd("echo 1"), cmd("exit 5"));
    assert_eq!(run(vec![item(piped)]), (5, "".to_string()));
    let piped = pipe(cmd("exit 5"), pipe(cmd("true"), cmd("echo 1")));
    assert_eq!(run(vec![item(piped), item(cmd("echo 2"))]), (0, "1\n2\n".to_string()));
}

#[test]
fn variables_reach_later_commands() {
    let mut shell = Shell::new();
    let items = vec![
        item(shell_var("A", "1")),
        item(export("B", "2")),
        item(cmd("echo $A $B $C")),
        item(cmd("code 0")),
        item(cmd("cd /tmp")),
        item(cmd("pwd")),
    ];
    assert_eq!(shell.run(items), (0, "1 2\n/tmp\n".to_string()));
    assert_eq!(
        shell.log,
        vec![
            "launch /bin/code [\"0\"] [(\"B\", \"2\")]".to_string(),
            "Cd /tmp in /work".to_string(),
            "join []".to_string(),
        ]
    );
}

#[test]
fn pipelines_keep_their_changes_to_themselves() {
    let piped = pipe(cmd("true"), shell_var("A", "1"));
    assert_eq!(run(vec![item(piped), item(cmd("echo <$A>"))]), (0, "<$A>\n".to_string()));
    let piped = pipe(cmd("true"), shell_var("A", "1"));
    assert_eq!(run(vec![item(piped), item(cmd("echo x $A"))]), (0, "x\n".to_string()));
}

#[test]
fn tasks_of_all_commands_of_a_pipeline_are_waited_for() {
    let mut shell = Shell::new();
    let first = subshell(vec![background(cmd("true")), item(cmd("false"))]);
    let last = subshell(vec![background(cmd("true")), item(cmd("code 6"))]);
    assert_eq!(shell.run(vec![item(pipe(first, last))]), (6, "".to_string()));
    assert_eq!(
        shell.log,
        vec![
            "pipe 2".to_string(),
            "spawn 1".to_string(),
            "join []".to_string(),
            "spawn 2".to_string(),
            "join []".to_string(),
            "launch /bin/code [\"6\"] []".to_string(),
            "join [2, 1]".to_string(),
        ]
    );
}

#[test]
fn changes_of_a_subshell_are_handed_on_unless_it_exits() {
    let inner = subshell(vec![item(shell_var("A", "1"))]);
    assert_eq!(run(vec![item(inner), item(cmd("echo x $A"))]), (0, "x 1\n".to_string()));
    let inner = subshell(vec![item(shell_var("A", "1")), item(cmd("exit 0"))]);
    assert_eq!(run(vec![item(inner), item(cmd("echo x $A"))]), (0, "x\n".to_string()));
}

#[test]
fn background_tasks_are_waited_for_in_the_end() {
    let mut shell = Shell::new();
    let items = vec![
        background(and(shell_var("A", "1"), cmd("false"))),
        item(subshell(vec![background(cmd("echo 1")), item(cmd("code 6"))])),
        background(cmd("false")),
    ];
    assert_eq!(shell.run(items), (6, "1\n".to_string()));
    assert_eq!(
        shell.log,
        vec![
            "spawn 1".to_string(),
            "join []".to_string(),
            "spawn 2".to_string(),
            "join []".to_string(),
            "launch /bin/code [\"6\"] []".to_string(),
            "spawn 3".to_string(),
            "join []".to_string(),
            "join [1, 2, 3]".to_string(),
        ]
    );
}

#[test]
fn background_tasks_wait_for_their_own() {
    let mut shell = Shell::new();
    let inner = subshell(vec![background(cmd("true")), item(cmd("true"))]);
    assert_eq!(shell.run(vec![background(inner)]), (0, "".to_string()));
    assert_eq!(shell.log, vec!["spawn 1", "spawn 2", "join []", "join [2]", "join [1]"]);
}

#[test]
fn substituted_output_becomes_words() {
    // echo $(echo 1 && echo 2) "$(echo 3; echo 4)"
    let first = SequentialList { items: vec![item(and(cmd("echo 1"), cmd("echo 2")))] };
    let second = SequentialList { items: vec![item(cmd("echo 3")), item(cmd("echo 4"))] };
    let command = Sequence::Command(Command {
        env_vars: Vec::new(),
        args: vec![
            bare("echo"),
            StringOrWord::Word(vec![StringPart::Command(first)]),
            StringOrWord::String(vec![text("<"), StringPart::Command(second), text(">")]),
        ],
    });
    assert_eq!(run(vec![item(command)]), (0, "1 2 <3 4>\n".to_string()));
}

#[test]
fn line_ends_in_substituted_output_separate_words() {
    // echo $(echo 1 && echo "\n2\n") and the same in quotes
    let inner = || {
        let lines = Sequence::Command(Command {
            env_vars: Vec::new(),
            args: vec![bare("echo"), StringOrWord::String(vec![text("\n2\n")])],
        });
        StringPart::Command(SequentialList { items: vec![item(and(cmd("echo 1"), lines))] })
    };
    let echo = |word: StringOrWord| {
        item(Sequence::Command(Command { env_vars: Vec::new(), args: vec![bare("echo"), word] }))
    };
    assert_eq!(run(vec![echo(StringOrWord::Word(vec![inner()]))]), (0, "1 2\n".to_string()));
    assert_eq!(run(vec![echo(StringOrWord::String(vec![inner()]))]), (0, "1  2 \n".to_string()));
}

#[test]
fn substitutions_do_not_change_the_shell() {
    let inner = SequentialList { items: vec![item(shell_var("A", "1")), item(cmd("exit 3"))] };
    let assign = Sequence::ShellVar(EnvVar {
        name: "B".to_string(),
        value: StringOrWord::Word(vec![text("b"), StringPart::Command(inner)]),
    });
    assert_eq!(run(vec![item(assign), item(cmd("echo $B $A"))]), (0, "b\n".to_string()));
}

#[test]
fn failures_to_find_or_launch_are_reported() {
    let mut shell = Shell::new();
    assert_eq!(shell.run(vec![item(cmd("nothing x"))]), (1, "".to_string()));
    assert_eq!(shell.run(vec![item(cmd("broken"))]).0, 1);
    assert_eq!(shell.run(vec![item(cmd("code x"))]).0, 1);
    assert_eq!(shell.run(vec![item(cmd("code 42"))]).0, 42);
    let errors: Vec<&String> = shell.log.iter().filter(|line| line.starts_with("error")).collect();
    assert_eq!(
        errors,
        vec!["error nothing: command not found", "error Error launching 'broken': broken"]
    );
}

#[test]
fn variables_in_front_are_set_for_the_command_alone() {
    let mut shell = Shell::new();
    let command = Sequence::Command(Command {
        env_vars: vec![EnvVar { name: "A".to_string(), value: bare("1") }],
        args: vec![bare("code"), bare("0")],
    });
    assert_eq!(
        shell.run(vec![item(command), item(cmd("echo x $A"))]),
        (0, "x\n".to_string())
    );
    assert_eq!(shell.log[0], "launch /bin/code [\"0\"] [(\"A\", \"1\")]");
}

#[test]
fn a_state_is_not_shared_between_runs() {
    let platform = Platform::current();
    let state = ShellState::new(Vec::new(), "/".to_string());
    let mut shell = Shell::new();
    let mut output = Vec::new();
    let first = start_sequence(shell_var("A", "1"), state.clone(), &platform);
    shell.drive(first, &mut output);
    let second = start_sequence(cmd("echo x $A"), state, &platform);
    shell.drive(second, &mut output);
    assert_eq!(String::from_utf8(output).unwrap(), "x\n");
}
