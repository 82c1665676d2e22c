//! Running one command: its words are evaluated, a command of the shell itself is handed out as
//! such, and for any other the program is found and launched.
//!
//! What touches the outside is the caller's: each step names what is to be done next, and takes
//! back what came of it.
use crate::evaluate::{
    args_step, args_step_in_word, evaluate_args, evaluate_string_or_word, parts_step, ArgsRun,
    ArgsStep, ArgsStepView, PartsRun, PartsStep, PartsStepView,
};
use crate::list::{start_substitution, substitution_start, ListRun, ListView};
use crate::outcome::{plain_result, ExecuteResult, ResultView};
use crate::platform::Platform;
use crate::resolve::{
    resolve_command_path, resolve_step, search_step, ResolveStep, ResolveStepView, SearchRun,
};
use crate::state::{ShellState, StateView, Variables};
use crate::syntax::{Command, EnvVar, StringOrWord, StringPart};
use crate::text::{joined_with, same_text, texts};
use vstd::prelude::*;
use vstd::string::StringExecFns;

verus! {

/// The commands that the caller has in itself.
#[derive(Debug, Clone, Copy, PartialEq, Eq, Structural)]
pub enum Builtin {
    Cd,
    Exit,
    Cp,
    Mkdir,
    Mv,
    Rm,
    Sleep,
}

/// What a command's name stands for.
#[derive(Debug, Clone, Copy, PartialEq, Eq, Structural)]
pub enum CommandKind {
    /// A command that the caller has in itself.
    Builtin(Builtin),
    /// `pwd`
    PrintWorkingDirectory,
    /// `echo`
    Echo,
    /// `true`
    Succeed,
    /// `false`
    Fail,
    /// A program.
    Program,
}

/// What a command's name stands for.
pub open spec fn kind_of(name: Seq<char>) -> CommandKind {
    if name == "cd"@ {
        CommandKind::Builtin(Builtin::Cd)
    } else if name == "exit"@ {
        CommandKind::Builtin(Builtin::Exit)
    } else if name == "pwd"@ {
        CommandKind::PrintWorkingDirectory
    } else if name == "echo"@ {
        CommandKind::Echo
    } else if name == "true"@ {
        CommandKind::Succeed
    } else if name == "false"@ {
        CommandKind::Fail
    } else if name == "cp"@ {
        CommandKind::Builtin(Builtin::Cp)
    } else if name == "mkdir"@ {
        CommandKind::Builtin(Builtin::Mkdir)
    } else if name == "mv"@ {
        CommandKind::Builtin(Builtin::Mv)
    } else if name == "rm"@ {
        CommandKind::Builtin(Builtin::Rm)
    } else if name == "sleep"@ {
        CommandKind::Builtin(Builtin::Sleep)
    } else {
        CommandKind::Program
    }
}

/// What a command's name stands for.
pub fn command_kind(name: &str) -> (kind: CommandKind)
    ensures
        kind == kind_of(name@),
{
    if same_text(name, "cd") {
        CommandKind::Builtin(Builtin::Cd)
    } else if same_text(name, "exit") {
        CommandKind::Builtin(Builtin::Exit)
    } else if same_text(name, "pwd") {
        CommandKind::PrintWorkingDirectory
    } else if same_text(name, "echo") {
        CommandKind::Echo
    } else if same_text(name, "true") {
        CommandKind::Succeed
    } else if same_text(name, "false") {
        CommandKind::Fail
    } else if same_text(name, "cp") {
        CommandKind::Builtin(Builtin::Cp)
    } else if same_text(name, "mkdir") {
        CommandKind::Builtin(Builtin::Mkdir)
    } else if same_text(name, "mv") {
        CommandKind::Builtin(Builtin::Mv)
    } else if same_text(name, "rm") {
        CommandKind::Builtin(Builtin::Rm)
    } else if same_text(name, "sleep") {
        CommandKind::Builtin(Builtin::Sleep)
    } else {
        CommandKind::Program
    }
}

/// Joins texts, with a space between neighbours.
pub fn join_with_spaces(args: &Vec<String>) -> (text: String)
    ensures
        text@ == joined_with(texts(args@), " "@),
{
    let ghost all = texts(args@);
    let mut text = String::new();
    let mut i: usize = 0;
    while i < args.len()
        invariant
            i <= args@.len(),
            all == texts(args@),
            text@ == joined_with(all.take(i as int), " "@),
        decreases args@.len() - i,
    {
        if i > 0 {
            text.append(" ");
        }
        text.append(args[i].as_str());
        i += 1;
        proof {
            assert(all.take(i as int).last() == args@[i - 1]@);
            assert(all.take(i as int).drop_last() =~= all.take(i - 1));
            if i == 1 {
                assert(text@ =~= all[0]);
            }
        }
    }
    proof {
        assert(all.take(i as int) =~= all);
    }
    text
}

/// A program to be launched with nothing but these variables in its environment.
pub struct Process {
    /// Where the program is.
    pub path: String,
    pub args: Vec<String>,
    pub env_vars: Variables,
    pub cwd: String,
}

/// A program to be launched, as mathematical values.
#[verifier::ext_equal]
pub struct ProcessView {
    pub path: Seq<char>,
    pub args: Seq<Seq<char>>,
    pub env_vars: Map<Seq<char>, Seq<char>>,
    pub cwd: Seq<char>,
}

impl View for Process {
    type V = ProcessView;

    open spec fn view(&self) -> ProcessView {
        ProcessView {
            path: self.path@,
            args: texts(self.args@),
            env_vars: self.env_vars@,
            cwd: self.cwd@,
        }
    }
}

/// What came of launching a program. The texts are those of the errors.
#[derive(Debug, PartialEq, Eq)]
pub enum ProcessEnd {
    /// It ended, with an exit code unless it was killed.
    Exited(Option<i32>),
    /// It could not be launched.
    LaunchFailed(String),
    /// It could not be waited for.
    WaitFailed(String),
}

/// Where a command has got to.
pub enum CommandStep<H> {
    /// The text that the output of `list` stands for goes to `run`.
    Substitute { list: ListRun<H>, run: CommandRun },
    /// The result is that of the caller's own command.
    Builtin { builtin: Builtin, args: Vec<String>, cwd: String },
    /// `text` goes to the command's output, which ends it with `result`.
    Print { text: String, result: ExecuteResult<H> },
    /// `line` goes to the error output as a line, which ends the command with `result`.
    Report { line: String, result: ExecuteResult<H> },
    /// Whether there is a file at the path that the search is at goes to this.
    Probe(ProbeRun),
    /// What comes of launching the program goes to `then`.
    Launch { process: Process, then: LaunchRun },
    /// The command has ended.
    Done(ExecuteResult<H>),
}

/// A command that waits for the text of a command substitution.
pub enum CommandRun {
    /// In one of its words.
    Args { words: ArgsRun, env_vars: Vec<EnvVar>, state: ShellState },
    /// In the value of a variable that is set for it alone.
    Env {
        command_name: String,
        args: Vec<String>,
        name: String,
        value: PartsRun,
        later: Vec<EnvVar>,
        state: ShellState,
    },
}

/// A command that waits to be told whether there is a file at a path.
pub struct ProbeRun {
    pub search: SearchRun,
    pub args: Vec<String>,
    pub state: ShellState,
}

/// A command that waits for its program to end.
pub struct LaunchRun {
    pub command_name: String,
}

/// Where a command has got to, as mathematical values.
#[verifier::ext_equal]
pub enum CommandStepView<H> {
    Substitute { list: ListView<H>, run: CommandRunView },
    Builtin { builtin: Builtin, args: Seq<Seq<char>>, cwd: Seq<char> },
    Print { text: Seq<char>, result: ResultView<H> },
    Report { line: Seq<char>, result: ResultView<H> },
    Probe {
        command_name: Seq<char>,
        path: Seq<char>,
        rest: Seq<Seq<char>>,
        args: Seq<Seq<char>>,
        state: StateView,
    },
    Launch { process: ProcessView, command_name: Seq<char> },
    Done(ResultView<H>),
}

/// A command that waits for the text of a command substitution, as mathematical values.
#[verifier::ext_equal]
pub enum CommandRunView {
    Args {
        done: Seq<Seq<char>>,
        is_word: bool,
        text: Seq<char>,
        parts: Seq<StringPart>,
        rest: Seq<StringOrWord>,
        env_vars: Seq<EnvVar>,
        state: StateView,
    },
    Env {
        command_name: Seq<char>,
        args: Seq<Seq<char>>,
        name: Seq<char>,
        text: Seq<char>,
        parts: Seq<StringPart>,
        later: Seq<EnvVar>,
        state: StateView,
    },
}

impl View for CommandRun {
    type V = CommandRunView;

    open spec fn view(&self) -> CommandRunView {
        match self {
            CommandRun::Args { words, env_vars, state } => CommandRunView::Args {
                done: texts(words.done@),
                is_word: words.is_word,
                text: words.parts.text@,
                parts: words.parts.rest@,
                rest: words.rest@,
                env_vars: env_vars@,
                state: state@,
            },
            CommandRun::Env { command_name, args, name, value, later, state } => CommandRunView::Env {
                command_name: command_name@,
                args: texts(args@),
                name: name@,
                text: value.text@,
                parts: value.rest@,
                later: later@,
                state: state@,
            },
        }
    }
}

impl<H> View for CommandStep<H> {
    type V = CommandStepView<H>;

    open spec fn view(&self) -> CommandStepView<H> {
        match self {
            CommandStep::Substitute { list, run } => CommandStepView::Substitute {
                list: list@,
                run: run@,
            },
            CommandStep::Builtin { builtin, args, cwd } => CommandStepView::Builtin {
                builtin: *builtin,
                args: texts(args@),
                cwd: cwd@,
            },
            CommandStep::Print { text, result } => CommandStepView::Print {
                text: text@,
                result: result@,
            },
            CommandStep::Report { line, result } => CommandStepView::Report {
                line: line@,
                result: result@,
            },
            CommandStep::Probe(run) => CommandStepView::Probe {
                command_name: run.search.name@,
                path: run.search.path@,
                rest: texts(run.search.rest@),
                args: texts(run.args@),
                state: run.state@,
            },
            CommandStep::Launch { process, then } => CommandStepView::Launch {
                process: process@,
                command_name: then.command_name@,
            },
            CommandStep::Done(result) => CommandStepView::Done(result@),
        }
    }
}

/// What follows once the search for the program has got to `found`.
pub open spec fn resolved_step<H>(
    command_name: Seq<char>,
    found: ResolveStepView,
    args: Seq<Seq<char>>,
    state: StateView,
) -> CommandStepView<H> {
    match found {
        ResolveStepView::Failed(error) => CommandStepView::Report {
            line: error.message(),
            result: plain_result(1),
        },
        ResolveStepView::Found(path) => CommandStepView::Launch {
            process: ProcessView { path, args, env_vars: state.env_vars, cwd: state.cwd },
            command_name,
        },
        ResolveStepView::Probe { name, path, rest } => CommandStepView::Probe {
            command_name: name,
            path,
            rest,
            args,
            state,
        },
    }
}

/// What follows once a program's arguments are evaluated: each variable that is set for it alone
/// is evaluated in the state that the ones before it have made, then the program is looked for.
pub open spec fn program_step<H>(
    command_name: Seq<char>,
    args: Seq<Seq<char>>,
    env_vars: Seq<EnvVar>,
    state: StateView,
    separator: char,
) -> CommandStepView<H>
    decreases env_vars.len(),
{
    if env_vars.len() == 0 {
        resolved_step(command_name, resolve_step(command_name, state, separator), args, state)
    } else {
        match parts_step(Seq::empty(), env_vars.first().value.parts(), state) {
            PartsStepView::Done(value) => program_step(
                command_name,
                args,
                env_vars.drop_first(),
                state.with_env_var(env_vars.first().name@, value),
                separator,
            ),
            PartsStepView::Substitute { list, text, rest } => CommandStepView::Substitute {
                list: substitution_start(list, state),
                run: CommandRunView::Env {
                    command_name,
                    args,
                    name: env_vars.first().name@,
                    text,
                    parts: rest,
                    later: env_vars.drop_first(),
                    state,
                },
            },
        }
    }
}

/// The same with a variable in hand whose evaluation has got to `value`.
pub open spec fn program_step_in_value<H>(
    command_name: Seq<char>,
    args: Seq<Seq<char>>,
    name: Seq<char>,
    value: PartsStepView,
    later: Seq<EnvVar>,
    state: StateView,
    separator: char,
) -> CommandStepView<H> {
    match value {
        PartsStepView::Done(text) => program_step(
            command_name,
            args,
            later,
            state.with_env_var(name, text),
            separator,
        ),
        PartsStepView::Substitute { list, text, rest } => CommandStepView::Substitute {
            list: substitution_start(list, state),
            run: CommandRunView::Env { command_name, args, name, text, parts: rest, later, state },
        },
    }
}

/// What a command does once its words are evaluated. Without any, its name is empty.
pub open spec fn named_step<H>(
    words: Seq<Seq<char>>,
    env_vars: Seq<EnvVar>,
    state: StateView,
    separator: char,
) -> CommandStepView<H> {
    let command_name = if words.len() == 0 {
        Seq::empty()
    } else {
        words.first()
    };
    let args = if words.len() == 0 {
        words
    } else {
        words.drop_first()
    };
    match kind_of(command_name) {
        CommandKind::Builtin(builtin) => CommandStepView::Builtin { builtin, args, cwd: state.cwd },
        CommandKind::PrintWorkingDirectory => CommandStepView::Print {
            text: state.cwd + "\n"@,
            result: plain_result(0),
        },
        CommandKind::Echo => CommandStepView::Print {
            text: joined_with(args, " "@) + "\n"@,
            result: plain_result(0),
        },
        CommandKind::Succeed => CommandStepView::Done(plain_result(0)),
        CommandKind::Fail => CommandStepView::Done(plain_result(1)),
        CommandKind::Program => program_step(command_name, args, env_vars, state, separator),
    }
}

/// What a command does once the evaluation of its words has got to `words`.
pub open spec fn command_step<H>(
    words: ArgsStepView,
    env_vars: Seq<EnvVar>,
    state: StateView,
    separator: char,
) -> CommandStepView<H> {
    match words {
        ArgsStepView::Done(words) => named_step(words, env_vars, state, separator),
        ArgsStepView::Substitute { list, done, is_word, text, parts, rest } => {
            CommandStepView::Substitute {
                list: substitution_start(list, state),
                run: CommandRunView::Args { done, is_word, text, parts, rest, env_vars, state },
            }
        },
    }
}

/// What a command does with the text of the command substitution that it waits for.
pub open spec fn substituted_step<H>(
    run: CommandRunView,
    output: Seq<char>,
    separator: char,
) -> CommandStepView<H> {
    match run {
        CommandRunView::Args { done, is_word, text, parts, rest, env_vars, state } => command_step(
            args_step_in_word(done, is_word, parts_step(text + output, parts, state), rest, state),
            env_vars,
            state,
            separator,
        ),
        CommandRunView::Env { command_name, args, name, text, parts, later, state } => {
            program_step_in_value(
                command_name,
                args,
                name,
                parts_step(text + output, parts, state),
                later,
                state,
                separator,
            )
        },
    }
}

/// How a command ends with its program.
pub open spec fn ended_step<H>(command_name: Seq<char>, end: ProcessEnd) -> CommandStepView<H> {
    match end {
        ProcessEnd::Exited(Some(code)) => CommandStepView::Done(plain_result(code)),
        ProcessEnd::Exited(None) => CommandStepView::Done(plain_result(1)),
        ProcessEnd::LaunchFailed(error) => CommandStepView::Report {
            line: "Error launching '"@ + command_name + "': "@ + error@,
            result: plain_result(1),
        },
        ProcessEnd::WaitFailed(error) => CommandStepView::Report {
            line: error@,
            result: plain_result(1),
        },
    }
}

/// Goes on from where the search for the program has got to.
fn after_resolve<H>(command_name: String, found: ResolveStep, args: Vec<String>, state: ShellState)
    -> (step: CommandStep<H>)
    ensures
        step@ == resolved_step::<H>(command_name@, found@, texts(args@), state@),
{
    match found {
        ResolveStep::Failed(error) => CommandStep::Report {
            line: error.message(),
            result: ExecuteResult::from_exit_code(1),
        },
        ResolveStep::Found(path) => CommandStep::Launch {
            process: Process { path, args, env_vars: state.env_vars().clone(), cwd: state.cwd().clone() },
            then: LaunchRun { command_name },
        },
        ResolveStep::Probe(search) => CommandStep::Probe(ProbeRun { search, args, state }),
    }
}

/// Goes on from a variable in hand whose evaluation has got to `value`.
fn after_value<H>(
    command_name: String,
    args: Vec<String>,
    name: String,
    value: PartsStep,
    later: Vec<EnvVar>,
    state: ShellState,
    platform: &Platform,
) -> (step: CommandStep<H>)
    ensures
        step@ == program_step_in_value::<H>(
            command_name@,
            texts(args@),
            name@,
            value@,
            later@,
            state@,
            platform@,
        ),
{
    let mut current_name = name;
    let mut current = value;
    let mut left = later;
    let mut now = state;
    loop
        invariant
            program_step_in_value::<H>(
                command_name@,
                texts(args@),
                current_name@,
                current@,
                left@,
                now@,
                platform@,
            ) == program_step_in_value::<H>(
                command_name@,
                texts(args@),
                name@,
                value@,
                later@,
                state@,
                platform@,
            ),
        decreases left@.len(),
    {
        match current {
            PartsStep::Substitute { list, run } => {
                return CommandStep::Substitute {
                    list: start_substitution(list, &now),
                    run: CommandRun::Env {
                        command_name,
                        args,
                        name: current_name,
                        value: run,
                        later: left,
                        state: now,
                    },
                };
            },
            PartsStep::Done(text) => {
                now.apply_env_var(current_name.as_str(), text.as_str());
                if left.len() == 0 {
                    let found = resolve_command_path(command_name.as_str(), &now, platform);
                    return after_resolve(command_name, found, args, now);
                }
                let ghost before = left@;
                let var = left.remove(0);
                proof {
                    assert(left@ =~= before.drop_first());
                }
                let EnvVar { name: next_name, value: next_value } = var;
                current_name = next_name;
                current = evaluate_string_or_word(next_value, &now);
            },
        }
    }
}

/// Runs a program whose arguments are evaluated.
fn run_program<H>(
    command_name: String,
    args: Vec<String>,
    env_vars: Vec<EnvVar>,
    state: ShellState,
    platform: &Platform,
) -> (step: CommandStep<H>)
    ensures
        step@ == program_step::<H>(command_name@, texts(args@), env_vars@, state@, platform@),
{
    if env_vars.len() == 0 {
        let found = resolve_command_path(command_name.as_str(), &state, platform);
        return after_resolve(command_name, found, args, state);
    }
    let mut rest = env_vars;
    let var = rest.remove(0);
    proof {
        assert(rest@ =~= env_vars@.drop_first());
    }
    let EnvVar { name, value } = var;
    let value = evaluate_string_or_word(value, &state);
    after_value(command_name, args, name, value, rest, state, platform)
}

/// Runs a command whose words are evaluated.
fn run_named<H>(
    words: Vec<String>,
    env_vars: Vec<EnvVar>,
    state: ShellState,
    platform: &Platform,
) -> (step: CommandStep<H>)
    ensures
        step@ == named_step::<H>(texts(words@), env_vars@, state@, platform@),
{
    let mut args = words;
    let command_name: String = if args.len() == 0 {
        String::new()
    } else {
        args.remove(0)
    };
    proof {
        if words@.len() > 0 {
            assert(texts(args@) =~= texts(words@).drop_first());
        }
    }
    match command_kind(command_name.as_str()) {
        CommandKind::Builtin(builtin) => CommandStep::Builtin {
            builtin,
            args,
            cwd: state.cwd().clone(),
        },
        CommandKind::PrintWorkingDirectory => CommandStep::Print {
            text: state.cwd().clone().concat("\n"),
            result: ExecuteResult::from_exit_code(0),
        },
        CommandKind::Echo => CommandStep::Print {
            text: join_with_spaces(&args).concat("\n"),
            result: ExecuteResult::from_exit_code(0),
        },
        CommandKind::Succeed => CommandStep::Done(ExecuteResult::from_exit_code(0)),
        CommandKind::Fail => CommandStep::Done(ExecuteResult::from_exit_code(1)),
        CommandKind::Program => run_program(command_name, args, env_vars, state, platform),
    }
}

/// Goes on from where the evaluation of the words has got to.
fn after_words<H>(
    words: ArgsStep,
    env_vars: Vec<EnvVar>,
    state: ShellState,
    platform: &Platform,
) -> (step: CommandStep<H>)
    ensures
        step@ == command_step::<H>(words@, env_vars@, state@, platform@),
{
    match words {
        ArgsStep::Done(words) => run_named(words, env_vars, state, platform),
        ArgsStep::Substitute { list, run } => CommandStep::Substitute {
            list: start_substitution(list, &state),
            run: CommandRun::Args { words: run, env_vars, state },
        },
    }
}

/// Begins to run a command.
pub fn execute_command<H>(command: Command, state: ShellState, platform: &Platform) -> (step:
    CommandStep<H>)
    ensures
        step@ == command_step::<H>(
            args_step(Seq::empty(), command.args@, state@),
            command.env_vars@,
            state@,
            platform@,
        ),
{
    let Command { env_vars, args } = command;
    let words = evaluate_args(args, &state);
    after_words(words, env_vars, state, platform)
}

impl CommandRun {
    /// Goes on with the text that the awaited command substitution stands for.
    pub fn substituted<H>(self, output: &str, platform: &Platform) -> (step: CommandStep<H>)
        ensures
            step@ == substituted_step::<H>(self@, output@, platform@),
    {
        match self {
            CommandRun::Args { words, env_vars, state } => {
                let words = words.substituted(output, &state);
                after_words(words, env_vars, state, platform)
            },
            CommandRun::Env { command_name, args, name, value, later, state } => {
                let value = value.substituted(output, &state);
                after_value(command_name, args, name, value, later, state, platform)
            },
        }
    }
}

impl ProbeRun {
    /// Goes on once it is known whether there is a file at `self.search.path`.
    pub fn probed<H>(self, is_file: bool) -> (step: CommandStep<H>)
        ensures
            step@ == resolved_step::<H>(
                self.search.name@,
                if is_file {
                    ResolveStepView::Found(self.search.path@)
                } else {
                    search_step(self.search.name@, texts(self.search.rest@))
                },
                texts(self.args@),
                self.state@,
            ),
    {
        let ProbeRun { search, args, state } = self;
        let command_name = search.name.clone();
        let found = search.probed(is_file);
        after_resolve(command_name, found, args, state)
    }
}

impl LaunchRun {
    /// Ends the command with its program.
    pub fn ended<H>(self, end: ProcessEnd) -> (step: CommandStep<H>)
        ensures
            step@ == ended_step::<H>(self.command_name@, end),
    {
        match end {
            ProcessEnd::Exited(Some(code)) => CommandStep::Done(ExecuteResult::from_exit_code(code)),
            ProcessEnd::Exited(None) => CommandStep::Done(ExecuteResult::from_exit_code(1)),
            ProcessEnd::LaunchFailed(error) => CommandStep::Report {
                line: "Error launching '".to_string().concat(self.command_name.as_str()).concat(
                    "': ",
                ).concat(error.as_str()),
                result: ExecuteResult::from_exit_code(1),
            },
            ProcessEnd::WaitFailed(error) => CommandStep::Report {
                line: error,
                result: ExecuteResult::from_exit_code(1),
            },
        }
    }
}

} // verus!
