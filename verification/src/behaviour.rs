//! What commands, sequences and lists do, told by how their runs relate.
use crate::command::{
    command_step, kind_of, named_step, program_step, program_step_in_value, resolved_step,
    substituted_step, Builtin, CommandKind, CommandRunView, CommandStepView, Process, ProcessEnd,
    ProcessView,
};
use crate::evaluate::{
    arg_values, args_step, args_step_in_word, part_text, parts_step, ArgsStepView, PartsStepView,
};
use crate::execution::{
    frames_of, probed, substituted, through, unwind, FrameView, Progress, SubstitutingView,
};
use crate::list::{list_start, substitution_start, AsyncCommandBehavior, ListView};
use crate::outcome::{ExecuteResult, ResultView};
use crate::resolve::{resolve_step, search_step, ResolveErrorView, ResolveStepView};
use crate::semantics::{
    lemma_substituted_due, other_work_due, run_assignment, run_command, run_list, run_sequence,
    substitutions_due, Ended, Event, World,
};
use crate::sequence::{
    all_handles, assign_step, assignment, results_of, sequence_step, AfterFirstView, AssignRunView,
    AssignStepView, SequenceStepView,
};
use crate::shell::initial_state;
use crate::state::{pairs_map, EnvChangeView, StateView};
use crate::syntax::{
    pipeline_elements, BooleanList, Command, EnvVar, Pipeline, Sequence,
    SequentialList, SequentialListItem, StringOrWord, StringPart,
};
use crate::text::{joined_with, texts, words};
use vstd::prelude::*;

verus! {

/// The names of the shell's own commands, and that every other name is that of a program.
pub proof fn law_names_of_commands(name: Seq<char>)
    ensures
        kind_of(name) == CommandKind::Builtin(Builtin::Cd) <==> name == "cd"@,
        kind_of(name) == CommandKind::Builtin(Builtin::Exit) <==> name == "exit"@,
        kind_of(name) == CommandKind::PrintWorkingDirectory <==> name == "pwd"@,
        kind_of(name) == CommandKind::Echo <==> name == "echo"@,
        kind_of(name) == CommandKind::Succeed <==> name == "true"@,
        kind_of(name) == CommandKind::Fail <==> name == "false"@,
        kind_of(name) == CommandKind::Builtin(Builtin::Cp) <==> name == "cp"@,
        kind_of(name) == CommandKind::Builtin(Builtin::Mkdir) <==> name == "mkdir"@,
        kind_of(name) == CommandKind::Builtin(Builtin::Mv) <==> name == "mv"@,
        kind_of(name) == CommandKind::Builtin(Builtin::Rm) <==> name == "rm"@,
        kind_of(name) == CommandKind::Builtin(Builtin::Sleep) <==> name == "sleep"@,
{
    reveal_strlit("cd");
    reveal_strlit("exit");
    reveal_strlit("pwd");
    reveal_strlit("echo");
    reveal_strlit("true");
    reveal_strlit("false");
    reveal_strlit("cp");
    reveal_strlit("mkdir");
    reveal_strlit("mv");
    reveal_strlit("rm");
    reveal_strlit("sleep");
    assert("cd"@[0] == 'c' && "cd"@[1] == 'd');
    assert("cp"@[0] == 'c' && "cp"@[1] == 'p');
    assert("mv"@[0] == 'm' && "mv"@.len() == 2);
    assert("rm"@[0] == 'r' && "rm"@.len() == 2);
    assert("exit"@[1] == 'x' && "echo"@[1] == 'c' && "true"@[1] == 'r');
    assert("false"@[0] == 'f' && "mkdir"@[0] == 'm' && "sleep"@[0] == 's');
}

/// The text that the parts of a word stand for, when the outside is asked for the output of each
/// command substitution in its turn; and what has happened by then.
pub open spec fn value_of<H>(
    world: World<H>,
    parts: Seq<StringPart>,
    state: StateView,
    history: Seq<Event<H>>,
) -> (Seq<char>, Seq<Event<H>>)
    decreases parts.len(),
{
    if parts.len() == 0 {
        (Seq::empty(), history)
    } else {
        match parts.first() {
            StringPart::Command(list) => {
                let asked = substitution_start::<H>(list, state);
                let text = (world.substitute)(history, asked);
                let rest = value_of(
                    world,
                    parts.drop_first(),
                    state,
                    history.push(Event::Substitute { list: asked, text }),
                );
                (text + rest.0, rest.1)
            },
            part => {
                let rest = value_of(world, parts.drop_first(), state, history);
                (part_text(part, state) + rest.0, rest.1)
            },
        }
    }
}

/// What one part stands for: a literal for itself, a variable for its value or nothing, and a command
/// substitution for what the outside answers to its list, run in a copy of the state.
pub proof fn law_value_of_one_part<H>(
    world: World<H>,
    part: StringPart,
    state: StateView,
    history: Seq<Event<H>>,
)
    ensures
        value_of(world, Seq::empty(), state, history) == (Seq::<char>::empty(), history),
        value_of(world, seq![part], state, history) == match part {
            StringPart::Text(literal) => (literal@, history),
            StringPart::Variable(name) => match state.get_var(name@) {
                Some(value) => (value, history),
                None => (Seq::empty(), history),
            },
            StringPart::Command(list) => {
                let asked = ListView {
                    items: list.items@,
                    state,
                    exit_code: 0,
                    changes: Seq::empty(),
                    handles: Seq::empty(),
                    behavior: AsyncCommandBehavior::Wait,
                };
                let text = (world.substitute)(history, asked);
                (text, history.push(Event::Substitute { list: asked, text }))
            },
        },
{
    let rest = seq![part].drop_first();
    assert(rest =~= Seq::<StringPart>::empty());
    match part {
        StringPart::Command(list) => {
            let asked = substitution_start::<H>(list, state);
            let text = (world.substitute)(history, asked);
            let later = history.push(Event::Substitute { list: asked, text });
            assert(value_of(world, rest, state, later) == (Seq::<char>::empty(), later));
            assert(text + Seq::<char>::empty() =~= text);
        },
        _ => {
            let text = part_text(part, state);
            assert(value_of(world, rest, state, history) == (Seq::<char>::empty(), history));
            assert(text + Seq::<char>::empty() =~= text);
        },
    }
}

/// Parts put together stand for their texts put together, and what happens for the first ones happens
/// first.
pub proof fn law_values_put_together<H>(
    world: World<H>,
    first: Seq<StringPart>,
    second: Seq<StringPart>,
    state: StateView,
    history: Seq<Event<H>>,
)
    ensures
        ({
            let one = value_of(world, first, state, history);
            let two = value_of(world, second, state, one.1);
            value_of(world, first + second, state, history) == (one.0 + two.0, two.1)
        }),
    decreases first.len(),
{
    let all = first + second;
    if first.len() == 0 {
        assert(all =~= second);
        let two = value_of(world, second, state, history);
        assert(Seq::<char>::empty() + two.0 =~= two.0);
    } else {
        assert(all.first() == first.first());
        assert(all.drop_first() =~= first.drop_first() + second);
        let (text, later) = match first.first() {
            StringPart::Command(list) => {
                let asked = substitution_start::<H>(list, state);
                let text = (world.substitute)(history, asked);
                (text, history.push(Event::Substitute { list: asked, text }))
            },
            part => (part_text(part, state), history),
        };
        law_values_put_together(world, first.drop_first(), second, state, later);
        let one = value_of(world, first.drop_first(), state, later);
        let two = value_of(world, second, state, one.1);
        assert((text + one.0) + two.0 =~= text + (one.0 + two.0));
    }
}

/// An assignment that has `text` of its value already comes to that and the rest.
proof fn lemma_assignment<H>(
    world: World<H>,
    exported: bool,
    name: Seq<char>,
    text: Seq<char>,
    parts: Seq<StringPart>,
    state: StateView,
    history: Seq<Event<H>>,
)
    ensures
        run_assignment(
            world,
            assign_step(exported, name, parts_step(text, parts, state), state),
            history,
        ) == (Ended {
            result: ResultView::<H>::Continue(
                0,
                seq![
                    assignment(exported, name, text + value_of(world, parts, state, history).0),
                ],
                Seq::empty(),
            ),
            history: value_of(world, parts, state, history).1,
        }),
    decreases parts.len(),
{
    let value = value_of(world, parts, state, history).0;
    if parts.len() == 0 {
        assert(text + value =~= text);
    } else {
        match parts.first() {
            StringPart::Command(list) => {
                let asked = substitution_start::<H>(list, state);
                let output = (world.substitute)(history, asked);
                let later = history.push(Event::Substitute { list: asked, text: output });
                lemma_assignment(
                    world,
                    exported,
                    name,
                    text + output,
                    parts.drop_first(),
                    state,
                    later,
                );
                let rest = value_of(world, parts.drop_first(), state, later).0;
                assert((text + output) + rest =~= text + (output + rest));
            },
            part => {
                let here = part_text(part, state);
                lemma_assignment(
                    world,
                    exported,
                    name,
                    text + here,
                    parts.drop_first(),
                    state,
                    history,
                );
                let rest = value_of(world, parts.drop_first(), state, history).0;
                assert((text + here) + rest =~= text + (here + rest));
            },
        }
    }
}

/// An assignment succeeds, leaves no task, and makes one change: its variable gets exactly the text
/// that its value stands for, whole and unsplit, whether the value is quoted or not. `export` sets
/// an environment variable, a bare assignment a variable of the shell.
pub proof fn law_assignment_sets_the_whole_value<H>(
    world: World<H>,
    var: EnvVar,
    parts: Vec<StringPart>,
    state: StateView,
    history: Seq<Event<H>>,
)
    requires
        var.value == StringOrWord::Word(parts) || var.value == StringOrWord::String(parts),
    ensures
        ({
            let (value, later) = value_of(world, parts@, state, history);
            &&& run_sequence(world, Sequence::EnvVar(var), state, history) == (Ended {
                result: ResultView::<H>::Continue(
                    0,
                    seq![EnvChangeView::SetEnvVar(var.name@, value)],
                    Seq::empty(),
                ),
                history: later,
            })
            &&& run_sequence(world, Sequence::ShellVar(var), state, history) == (Ended {
                result: ResultView::<H>::Continue(
                    0,
                    seq![EnvChangeView::SetShellVar(var.name@, value)],
                    Seq::empty(),
                ),
                history: later,
            })
        }),
{
    let value = value_of(world, parts@, state, history).0;
    assert(Seq::<char>::empty() + value =~= value);
    lemma_assignment(world, true, var.name@, Seq::empty(), parts@, state, history);
    lemma_assignment(world, false, var.name@, Seq::empty(), parts@, state, history);
}

/// The words that the arguments of a command stand for, when the outside is asked for the output of
/// each command substitution in its turn; and what has happened by then.
pub open spec fn words_of<H>(
    world: World<H>,
    args: Seq<StringOrWord>,
    state: StateView,
    history: Seq<Event<H>>,
) -> (Seq<Seq<char>>, Seq<Event<H>>)
    decreases args.len(),
{
    if args.len() == 0 {
        (Seq::empty(), history)
    } else {
        let here = value_of(world, args.first().parts(), state, history);
        let rest = words_of(world, args.drop_first(), state, here.1);
        (arg_values(args.first() is Word, here.0) + rest.0, rest.1)
    }
}

/// What one argument becomes: a quoted one is one word, exactly its text; a bare one is all of the
/// words of its text.
pub proof fn law_words_of_one_argument<H>(
    world: World<H>,
    parts: Vec<StringPart>,
    state: StateView,
    history: Seq<Event<H>>,
)
    ensures
        ({
            let (value, later) = value_of(world, parts@, state, history);
            &&& words_of(world, seq![StringOrWord::String(parts)], state, history) == (
                seq![value],
                later,
            )
            &&& words_of(world, seq![StringOrWord::Word(parts)], state, history) == (
                words(value),
                later,
            )
            &&& words_of(world, Seq::empty(), state, history) == (
                Seq::<Seq<char>>::empty(),
                history,
            )
        }),
{
    let (value, later) = value_of(world, parts@, state, history);
    let none = Seq::<Seq<char>>::empty();
    assert(seq![StringOrWord::String(parts)].drop_first() =~= Seq::<StringOrWord>::empty());
    assert(seq![StringOrWord::Word(parts)].drop_first() =~= Seq::<StringOrWord>::empty());
    assert(words_of(world, Seq::<StringOrWord>::empty(), state, later) == (none, later));
    assert(seq![value] + none =~= seq![value]);
    assert(words(value) + none =~= words(value));
}

/// Arguments put together become the words of both, and what happens for the first ones happens first.
pub proof fn law_words_put_together<H>(
    world: World<H>,
    first: Seq<StringOrWord>,
    second: Seq<StringOrWord>,
    state: StateView,
    history: Seq<Event<H>>,
)
    ensures
        ({
            let one = words_of(world, first, state, history);
            let two = words_of(world, second, state, one.1);
            words_of(world, first + second, state, history) == (one.0 + two.0, two.1)
        }),
    decreases first.len(),
{
    let all = first + second;
    if first.len() == 0 {
        assert(all =~= second);
        let two = words_of(world, second, state, history);
        assert(Seq::<Seq<char>>::empty() + two.0 =~= two.0);
    } else {
        assert(all.first() == first.first());
        assert(all.drop_first() =~= first.drop_first() + second);
        let here = value_of(world, first.first().parts(), state, history);
        let own = arg_values(first.first() is Word, here.0);
        law_words_put_together(world, first.drop_first(), second, state, here.1);
        let one = words_of(world, first.drop_first(), state, here.1);
        let two = words_of(world, second, state, one.1);
        assert((own + one.0) + two.0 =~= own + (one.0 + two.0));
    }
}

/// A command that has the words `done` already and is in the middle of an argument.
proof fn lemma_words_in_argument<H>(
    world: World<H>,
    done: Seq<Seq<char>>,
    is_word: bool,
    text: Seq<char>,
    parts: Seq<StringPart>,
    rest: Seq<StringOrWord>,
    env_vars: Seq<EnvVar>,
    state: StateView,
    history: Seq<Event<H>>,
)
    ensures
        ({
            let here = value_of(world, parts, state, history);
            let later = words_of(world, rest, state, here.1);
            run_command(
                world,
                command_step(
                    args_step_in_word(done, is_word, parts_step(text, parts, state), rest, state),
                    env_vars,
                    state,
                    world.separator,
                ),
                history,
            ) == run_command(
                world,
                named_step(
                    done + (arg_values(is_word, text + here.0) + later.0),
                    env_vars,
                    state,
                    world.separator,
                ),
                later.1,
            )
        }),
    decreases rest.len(), parts.len() + 1,
{
    let here = value_of(world, parts, state, history);
    if parts.len() == 0 {
        let own = arg_values(is_word, text);
        assert(text + here.0 =~= text);
        lemma_words(world, done + own, rest, env_vars, state, history);
        let later = words_of(world, rest, state, history);
        assert((done + own) + later.0 =~= done + (own + later.0));
    } else {
        match parts.first() {
            StringPart::Command(list) => {
                let asked = substitution_start::<H>(list, state);
                let output = (world.substitute)(history, asked);
                let now = history.push(Event::Substitute { list: asked, text: output });
                lemma_words_in_argument(
                    world,
                    done,
                    is_word,
                    text + output,
                    parts.drop_first(),
                    rest,
                    env_vars,
                    state,
                    now,
                );
                let tail = value_of(world, parts.drop_first(), state, now).0;
                assert((text + output) + tail =~= text + (output + tail));
            },
            part => {
                let own = part_text(part, state);
                lemma_words_in_argument(
                    world,
                    done,
                    is_word,
                    text + own,
                    parts.drop_first(),
                    rest,
                    env_vars,
                    state,
                    history,
                );
                let tail = value_of(world, parts.drop_first(), state, history).0;
                assert((text + own) + tail =~= text + (own + tail));
            },
        }
    }
}

/// A command that has the words `done` already.
proof fn lemma_words<H>(
    world: World<H>,
    done: Seq<Seq<char>>,
    args: Seq<StringOrWord>,
    env_vars: Seq<EnvVar>,
    state: StateView,
    history: Seq<Event<H>>,
)
    ensures
        ({
            let later = words_of(world, args, state, history);
            run_command(
                world,
                command_step(args_step(done, args, state), env_vars, state, world.separator),
                history,
            ) == run_command(
                world,
                named_step(done + later.0, env_vars, state, world.separator),
                later.1,
            )
        }),
    decreases args.len(), 0nat,
{
    if args.len() == 0 {
        assert(done + Seq::<Seq<char>>::empty() =~= done);
    } else {
        let parts = args.first().parts();
        let is_word = args.first() is Word;
        let rest = args.drop_first();
        lemma_words_in_argument(
            world,
            done,
            is_word,
            Seq::empty(),
            parts,
            rest,
            env_vars,
            state,
            history,
        );
        let value = value_of(world, parts, state, history).0;
        assert(Seq::<char>::empty() + value =~= value);
        assert(args_step(done, args, state) == args_step_in_word(
            done,
            is_word,
            parts_step(Seq::empty(), parts, state),
            rest,
            state,
        ));
    }
}

/// A command first evaluates all of its arguments and then does what their words say.
pub proof fn law_command_does_what_its_words_say<H>(
    world: World<H>,
    command: Command,
    state: StateView,
    history: Seq<Event<H>>,
)
    ensures
        ({
            let (words, later) = words_of(world, command.args@, state, history);
            run_sequence(world, Sequence::Command(command), state, history) == run_command(
                world,
                named_step(words, command.env_vars@, state, world.separator),
                later,
            )
        }),
{
    lemma_words(world, Seq::empty(), command.args@, command.env_vars@, state, history);
    let (words, later) = words_of(world, command.args@, state, history);
    assert(Seq::<Seq<char>>::empty() + words =~= words);
}

/// `pwd` prints exactly the working directory, on a line of its own, and succeeds.
pub proof fn law_pwd_prints_the_working_directory<H>(
    world: World<H>,
    args: Seq<Seq<char>>,
    env_vars: Seq<EnvVar>,
    state: StateView,
    separator: char,
    history: Seq<Event<H>>,
)
    ensures
        ({
            let step = named_step::<H>(seq!["pwd"@] + args, env_vars, state, separator);
            &&& step == (CommandStepView::<H>::Print {
                text: state.cwd.push('\n'),
                result: ResultView::<H>::Continue(0, Seq::empty(), Seq::empty()),
            })
            &&& run_command(world, step, history) == (Ended {
                result: ResultView::<H>::Continue(0, Seq::empty(), Seq::empty()),
                history: history.push(Event::Print { text: state.cwd.push('\n') }),
            })
        }),
{
    law_names_of_commands("pwd"@);
    reveal_strlit("\n");
    assert(state.cwd + "\n"@ =~= state.cwd.push('\n'));
}

/// `echo` prints all of its arguments with a space between neighbours, on a line of its own, and
/// succeeds: without arguments an empty line, with one that, and with one more that behind the rest.
pub proof fn law_echo_prints_all_of_its_arguments<H>(
    world: World<H>,
    args: Seq<Seq<char>>,
    arg: Seq<char>,
    env_vars: Seq<EnvVar>,
    state: StateView,
    separator: char,
    history: Seq<Event<H>>,
)
    ensures
        ({
            let step = named_step::<H>(seq!["echo"@] + args, env_vars, state, separator);
            let text = joined_with(args, seq![' ']).push('\n');
            &&& step == (CommandStepView::<H>::Print {
                text,
                result: ResultView::<H>::Continue(0, Seq::empty(), Seq::empty()),
            })
            &&& run_command(world, step, history) == (Ended {
                result: ResultView::<H>::Continue(0, Seq::empty(), Seq::empty()),
                history: history.push(Event::Print { text }),
            })
            &&& args.len() == 0 ==> text == seq!['\n']
            &&& args.len() == 1 ==> text == args[0].push('\n')
            &&& args.len() > 0 ==> joined_with(args.push(arg), seq![' ']) == joined_with(
                args,
                seq![' '],
            ).push(' ') + arg
        }),
{
    law_names_of_commands("echo"@);
    reveal_strlit("\n");
    reveal_strlit(" ");
    let said = joined_with(args, seq![' ']);
    assert(" "@ =~= seq![' ']);
    assert((seq!["echo"@] + args).drop_first() =~= args);
    assert(said + "\n"@ =~= said.push('\n'));
    if args.len() == 0 {
        assert(said.push('\n') =~= seq!['\n']);
    } else {
        assert(args.push(arg).drop_last() =~= args);
        assert(joined_with(args.push(arg), seq![' ']) =~= said.push(' ') + arg);
    }
}

/// `true` succeeds and `false` fails with the exit code one; neither does anything else.
pub proof fn law_true_and_false<H>(
    world: World<H>,
    args: Seq<Seq<char>>,
    env_vars: Seq<EnvVar>,
    state: StateView,
    separator: char,
    history: Seq<Event<H>>,
)
    ensures
        ({
            let yes = ResultView::<H>::Continue(0, Seq::empty(), Seq::empty());
            let no = ResultView::<H>::Continue(1, Seq::empty(), Seq::empty());
            let succeed = named_step::<H>(seq!["true"@] + args, env_vars, state, separator);
            let fail = named_step::<H>(seq!["false"@] + args, env_vars, state, separator);
            &&& succeed == CommandStepView::<H>::Done(yes)
            &&& fail == CommandStepView::<H>::Done(no)
            &&& run_command(world, succeed, history) == (Ended { result: yes, history })
            &&& run_command(world, fail, history) == (Ended { result: no, history })
        }),
{
    law_names_of_commands("true"@);
    law_names_of_commands("false"@);
}

/// A command that the caller has in itself gets all of its arguments and the working directory, and
/// its result is that of the command.
pub proof fn law_builtin_gets_all_of_its_arguments<H>(
    world: World<H>,
    builtin: Builtin,
    name: Seq<char>,
    args: Seq<Seq<char>>,
    env_vars: Seq<EnvVar>,
    state: StateView,
    separator: char,
    history: Seq<Event<H>>,
)
    requires
        kind_of(name) == CommandKind::Builtin(builtin),
    ensures
        ({
            let step = named_step::<H>(seq![name] + args, env_vars, state, separator);
            let result = (world.builtin)(history, builtin, args, state.cwd);
            &&& step == (CommandStepView::<H>::Builtin { builtin, args, cwd: state.cwd })
            &&& run_command(world, step, history) == (Ended {
                result,
                history: history.push(Event::Builtin { builtin, args, cwd: state.cwd, result }),
            })
        }),
{
    assert((seq![name] + args).drop_first() =~= args);
}

/// A program without variables in front of it is launched where it is found, with all of its
/// arguments, all environment variables and no other, and in the working directory. Where it must be
/// searched for, the first path is looked at first; where it cannot be found, the user is told, and
/// the command fails.
pub proof fn law_program_gets_all_that_is_its_own<H>(
    name: Seq<char>,
    args: Seq<Seq<char>>,
    state: StateView,
    separator: char,
)
    requires
        kind_of(name) is Program,
    ensures
        named_step::<H>(seq![name] + args, Seq::empty(), state, separator) == match resolve_step(
            name,
            state,
            separator,
        ) {
            ResolveStepView::Found(path) => CommandStepView::<H>::Launch {
                process: ProcessView { path, args, env_vars: state.env_vars, cwd: state.cwd },
                command_name: name,
            },
            ResolveStepView::Probe { name: wanted, path, rest } => CommandStepView::<H>::Probe {
                command_name: wanted,
                path,
                rest,
                args,
                state,
            },
            ResolveStepView::Failed(ResolveErrorView::EmptyName) => CommandStepView::<H>::Report {
                line: "command name was empty"@,
                result: ResultView::<H>::Continue(1, Seq::empty(), Seq::empty()),
            },
            ResolveStepView::Failed(ResolveErrorView::NotFound(wanted)) => {
                CommandStepView::<H>::Report {
                    line: wanted + ": command not found"@,
                    result: ResultView::<H>::Continue(1, Seq::empty(), Seq::empty()),
                }
            },
        },
{
    assert((seq![name] + args).drop_first() =~= args);
}

/// No words are the empty name.
pub proof fn law_no_words_are_the_empty_name<H>(
    env_vars: Seq<EnvVar>,
    state: StateView,
    separator: char,
)
    ensures
        named_step::<H>(Seq::empty(), env_vars, state, separator) == named_step::<H>(
            seq![Seq::<char>::empty()],
            env_vars,
            state,
            separator,
        ),
{
    assert(seq![Seq::<char>::empty()].drop_first() =~= Seq::<Seq<char>>::empty());
}

/// How a search goes on: where there is a file, that is launched; where there is none, the next path
/// is looked at; and where there is no next path, the user is told, and the command fails.
pub proof fn law_search_goes_on<H>(
    world: World<H>,
    name: Seq<char>,
    path: Seq<char>,
    next: Seq<char>,
    rest: Seq<Seq<char>>,
    args: Seq<Seq<char>>,
    state: StateView,
    history: Seq<Event<H>>,
)
    ensures
        ({
            let is_file = (world.is_file)(history, path);
            let later = history.push(Event::Probe { path, is_file });
            let here = CommandStepView::<H>::Probe {
                command_name: name,
                path,
                rest: seq![next] + rest,
                args,
                state,
            };
            let last = CommandStepView::<H>::Probe {
                command_name: name,
                path,
                rest: Seq::empty(),
                args,
                state,
            };
            let launch = CommandStepView::<H>::Launch {
                process: ProcessView { path, args, env_vars: state.env_vars, cwd: state.cwd },
                command_name: name,
            };
            &&& is_file ==> run_command(world, here, history) == run_command(world, launch, later)
            &&& is_file ==> run_command(world, last, history) == run_command(world, launch, later)
            &&& !is_file ==> run_command(world, here, history) == run_command(
                world,
                CommandStepView::<H>::Probe { command_name: name, path: next, rest, args, state },
                later,
            )
            &&& !is_file ==> run_command(world, last, history) == (Ended {
                result: ResultView::<H>::Continue(1, Seq::empty(), Seq::empty()),
                history: later.push(Event::Report { line: name + ": command not found"@ }),
            })
        }),
{
    assert((seq![next] + rest).drop_first() =~= rest);
    let is_file = (world.is_file)(history, path);
    let later = history.push(Event::Probe { path, is_file });
    let told = CommandStepView::<H>::Report {
        line: name + ": command not found"@,
        result: ResultView::<H>::Continue(1, Seq::empty(), Seq::empty()),
    };
    assert(run_command(world, told, later) == (Ended {
        result: ResultView::<H>::Continue(1, Seq::empty(), Seq::empty()),
        history: later.push(Event::Report { line: name + ": command not found"@ }),
    }));
}

/// How a command ends with its program: with the program's exit code, with one where it was killed,
/// and with one and a line for the user where it could not be launched or waited for.
pub proof fn law_program_ends_its_command<H>(
    world: World<H>,
    process: ProcessView,
    command_name: Seq<char>,
    history: Seq<Event<H>>,
)
    ensures
        ({
            let end = (world.launch)(history, process);
            let later = history.push(Event::Launch { process, end });
            let failed = ResultView::<H>::Continue(1, Seq::empty(), Seq::empty());
            run_command(
                world,
                CommandStepView::<H>::Launch { process, command_name },
                history,
            ) == match end {
                ProcessEnd::Exited(Some(code)) => Ended {
                    result: ResultView::<H>::Continue(code, Seq::empty(), Seq::empty()),
                    history: later,
                },
                ProcessEnd::Exited(None) => Ended { result: failed, history: later },
                ProcessEnd::LaunchFailed(error) => Ended {
                    result: failed,
                    history: later.push(
                        Event::Report {
                            line: "Error launching '"@ + command_name + "': "@ + error@,
                        },
                    ),
                },
                ProcessEnd::WaitFailed(error) => Ended {
                    result: failed,
                    history: later.push(Event::Report { line: error@ }),
                },
            }
        }),
{
    reveal_with_fuel(run_command, 2);
}

/// A program of which the value of a variable in front is being evaluated.
proof fn lemma_variable_in_front<H>(
    world: World<H>,
    command_name: Seq<char>,
    args: Seq<Seq<char>>,
    name: Seq<char>,
    text: Seq<char>,
    parts: Seq<StringPart>,
    later: Seq<EnvVar>,
    state: StateView,
    history: Seq<Event<H>>,
)
    ensures
        ({
            let here = value_of(world, parts, state, history);
            run_command(
                world,
                program_step_in_value::<H>(
                    command_name,
                    args,
                    name,
                    parts_step(text, parts, state),
                    later,
                    state,
                    world.separator,
                ),
                history,
            ) == run_command(
                world,
                program_step::<H>(
                    command_name,
                    args,
                    later,
                    state.with_env_var(name, text + here.0),
                    world.separator,
                ),
                here.1,
            )
        }),
    decreases parts.len(),
{
    if parts.len() == 0 {
        assert(text + Seq::<char>::empty() =~= text);
    } else {
        match parts.first() {
            StringPart::Command(list) => {
                let asked = substitution_start::<H>(list, state);
                let output = (world.substitute)(history, asked);
                let now = history.push(Event::Substitute { list: asked, text: output });
                lemma_variable_in_front(
                    world,
                    command_name,
                    args,
                    name,
                    text + output,
                    parts.drop_first(),
                    later,
                    state,
                    now,
                );
                let tail = value_of(world, parts.drop_first(), state, now).0;
                assert((text + output) + tail =~= text + (output + tail));
            },
            part => {
                let own = part_text(part, state);
                lemma_variable_in_front(
                    world,
                    command_name,
                    args,
                    name,
                    text + own,
                    parts.drop_first(),
                    later,
                    state,
                    history,
                );
                let tail = value_of(world, parts.drop_first(), state, history).0;
                assert((text + own) + tail =~= text + (own + tail));
            },
        }
    }
}

/// `NAME=value program` runs the program as it would run without that, in the state in which NAME is
/// an environment variable with exactly the text that the value stands for. Of several variables the
/// first is set first, and those behind it see it.
pub proof fn law_variable_in_front_is_set_for_the_program<H>(
    world: World<H>,
    name: Seq<char>,
    args: Seq<Seq<char>>,
    var: EnvVar,
    later: Seq<EnvVar>,
    state: StateView,
    history: Seq<Event<H>>,
)
    requires
        kind_of(name) is Program,
    ensures
        ({
            let (value, now) = value_of(world, var.value.parts(), state, history);
            run_command(
                world,
                named_step::<H>(seq![name] + args, seq![var] + later, state, world.separator),
                history,
            ) == run_command(
                world,
                named_step::<H>(
                    seq![name] + args,
                    later,
                    state.apply(EnvChangeView::SetEnvVar(var.name@, value)),
                    world.separator,
                ),
                now,
            )
        }),
{
    let vars = seq![var] + later;
    assert((seq![name] + args).drop_first() =~= args);
    assert(vars.drop_first() =~= later);
    let value = value_of(world, var.value.parts(), state, history).0;
    assert(Seq::<char>::empty() + value =~= value);
    lemma_variable_in_front(
        world,
        name,
        args,
        var.name@,
        Seq::empty(),
        var.value.parts(),
        later,
        state,
        history,
    );
    assert(program_step::<H>(name, args, vars, state, world.separator) == program_step_in_value::<H>(
        name,
        args,
        var.name@,
        parts_step(Seq::empty(), var.value.parts(), state),
        later,
        state,
        world.separator,
    ));
}

/// Variables in front of a command that is no program are not even evaluated.
pub proof fn law_variables_in_front_of_other_commands<H>(
    words: Seq<Seq<char>>,
    env_vars: Seq<EnvVar>,
    state: StateView,
    separator: char,
)
    requires
        words.len() > 0,
        !(kind_of(words[0]) is Program),
    ensures
        named_step::<H>(words, env_vars, state, separator) == named_step::<H>(
            words,
            Seq::empty(),
            state,
            separator,
        ),
{
}

/// Whether every program that a command may still launch gets `args` and `cwd`.
spec fn launches_with<H>(step: CommandStepView<H>, args: Seq<Seq<char>>, cwd: Seq<char>) -> bool {
    match step {
        CommandStepView::Substitute { run, .. } => match run {
            CommandRunView::Env { args: own, state, .. } => own == args && state.cwd == cwd,
            CommandRunView::Args { .. } => false,
        },
        CommandStepView::Probe { args: own, state, .. } => own == args && state.cwd == cwd,
        CommandStepView::Launch { process, .. } => process.args == args && process.cwd == cwd,
        _ => true,
    }
}

proof fn lemma_program_launches_with<H>(
    command_name: Seq<char>,
    args: Seq<Seq<char>>,
    env_vars: Seq<EnvVar>,
    state: StateView,
    separator: char,
)
    ensures
        launches_with(
            program_step::<H>(command_name, args, env_vars, state, separator),
            args,
            state.cwd,
        ),
    decreases env_vars.len(),
{
    if env_vars.len() > 0 {
        match parts_step(Seq::empty(), env_vars.first().value.parts(), state) {
            PartsStepView::Done(value) => {
                lemma_program_launches_with::<H>(
                    command_name,
                    args,
                    env_vars.drop_first(),
                    state.with_env_var(env_vars.first().name@, value),
                    separator,
                );
            },
            PartsStepView::Substitute { .. } => {},
        }
    }
}

/// Whether every program that was launched since `from` got `args` and `cwd`.
spec fn launched_with<H>(
    history: Seq<Event<H>>,
    from: nat,
    args: Seq<Seq<char>>,
    cwd: Seq<char>,
) -> bool {
    forall|i: int|
        from <= i < history.len() ==> (#[trigger] history[i] matches Event::Launch { process, .. }
            ==> process.args == args && process.cwd == cwd)
}

proof fn lemma_launched_with<H>(
    world: World<H>,
    step: CommandStepView<H>,
    history: Seq<Event<H>>,
    from: nat,
    args: Seq<Seq<char>>,
    cwd: Seq<char>,
)
    requires
        launches_with(step, args, cwd),
        launched_with(history, from, args, cwd),
    ensures
        launched_with(run_command(world, step, history).history, from, args, cwd),
    decreases substitutions_due(step), other_work_due(step),
{
    match step {
        CommandStepView::Substitute { list, run } => {
            let text = (world.substitute)(history, list);
            let next = substituted_step::<H>(run, text, world.separator);
            lemma_substituted_due::<H>(run, text, world.separator);
            match run {
                CommandRunView::Env {
                    command_name,
                    args: own,
                    name,
                    text: before,
                    parts,
                    later,
                    state,
                } => {
                    match parts_step(before + text, parts, state) {
                        PartsStepView::Done(value) => {
                            lemma_program_launches_with::<H>(
                                command_name,
                                own,
                                later,
                                state.with_env_var(name, value),
                                world.separator,
                            );
                        },
                        PartsStepView::Substitute { .. } => {},
                    }
                },
                CommandRunView::Args { .. } => {},
            }
            lemma_launched_with(
                world,
                next,
                history.push(Event::Substitute { list, text }),
                from,
                args,
                cwd,
            );
        },
        CommandStepView::Probe { command_name, path, rest, args: own, state } => {
            let is_file = (world.is_file)(history, path);
            let found = if is_file {
                ResolveStepView::Found(path)
            } else {
                search_step(command_name, rest)
            };
            lemma_launched_with(
                world,
                resolved_step(command_name, found, own, state),
                history.push(Event::Probe { path, is_file }),
                from,
                args,
                cwd,
            );
        },
        CommandStepView::Launch { process, command_name } => {
            let end = (world.launch)(history, process);
            law_program_ends_its_command(world, process, command_name, history);
        },
        _ => {},
    }
}

/// Whatever a command launches gets all of the words behind the command's name as its arguments, and
/// runs in the working directory of the shell.
pub proof fn law_launched_program_gets_all_arguments<H>(
    world: World<H>,
    words: Seq<Seq<char>>,
    env_vars: Seq<EnvVar>,
    state: StateView,
    history: Seq<Event<H>>,
    i: int,
)
    requires
        words.len() > 0,
        history.len() <= i < run_command(
            world,
            named_step::<H>(words, env_vars, state, world.separator),
            history,
        ).history.len(),
    ensures
        run_command(
            world,
            named_step::<H>(words, env_vars, state, world.separator),
            history,
        ).history[i] matches Event::Launch { process, .. } ==> process.args == words.drop_first()
            && process.cwd == state.cwd,
{
    let step = named_step::<H>(words, env_vars, state, world.separator);
    let args = words.drop_first();
    lemma_program_launches_with::<H>(words.first(), args, env_vars, state, world.separator);
    lemma_launched_with(world, step, history, history.len(), args, state.cwd);
}

/// What is asked of the outside on the way, and that the answer counts: a command substitution is
/// answered with a text, a text or a line is written once and whole.
pub proof fn law_command_asks_once<H>(
    world: World<H>,
    list: ListView<H>,
    run: CommandRunView,
    text: Seq<char>,
    result: ResultView<H>,
    history: Seq<Event<H>>,
)
    ensures
        run_command(world, CommandStepView::<H>::Print { text, result }, history) == (Ended {
            result,
            history: history.push(Event::Print { text }),
        }),
        run_command(world, CommandStepView::<H>::Report { line: text, result }, history) == (Ended {
            result,
            history: history.push(Event::Report { line: text }),
        }),
        run_command(world, CommandStepView::<H>::Done(result), history) == (Ended {
            result,
            history,
        }),
        run_command(world, CommandStepView::<H>::Substitute { list, run }, history) == ({
            let output = (world.substitute)(history, list);
            run_command(
                world,
                substituted_step::<H>(run, output, world.separator),
                history.push(Event::Substitute { list, text: output }),
            )
        }),
{
    let output = (world.substitute)(history, list);
    lemma_substituted_due::<H>(run, output, world.separator);
}

/// How a boolean list goes on after its first sequence, by its exit code: `&&` runs what
/// follows it after the code zero, `||` after any other; what runs sees what was changed before it,
/// and the results are put together. What does not run is passed over, as if it were not written:
/// `a && b || c` is `a || c` where `a` fails. An exit ends it all.
pub proof fn law_boolean_list_by_exit_code<H>(
    world: World<H>,
    list: Box<BooleanList>,
    state: StateView,
    history: Seq<Event<H>>,
)
    ensures
        ({
            let first = run_sequence(world, list.current, state, history);
            let ended = run_sequence(world, Sequence::BooleanList(list), state, history);
            match first.result {
                ResultView::Exit(_, _) => ended == first,
                ResultView::Continue(code, changes, handles) => {
                    let runs = list.op is And && code == 0 || list.op is Or && code != 0;
                    let next = run_sequence(
                        world,
                        list.next,
                        state.apply_all(changes),
                        first.history,
                    );
                    &&& runs ==> ended == (Ended {
                        result: match next.result {
                            ResultView::Exit(last, more) => ResultView::Exit(last, handles + more),
                            ResultView::Continue(last, other, more) => ResultView::Continue(
                                last,
                                changes + other,
                                handles + more,
                            ),
                        },
                        history: next.history,
                    })
                    &&& !runs && !(list.next is BooleanList) ==> ended == first
                    &&& !runs ==> (list.next matches Sequence::BooleanList(inner) ==> ended
                        == run_sequence(
                        world,
                        Sequence::BooleanList(
                            Box::new(
                                BooleanList {
                                    current: list.current,
                                    op: inner.op,
                                    next: inner.next,
                                },
                            ),
                        ),
                        state,
                        history,
                    ))
                },
            }
        }),
{
}

/// A pipeline asks the outside once, for all of its commands at the same time in its own state. It
/// goes on with the exit code of the last result, whatever the others are, changes nothing, and hands
/// on the tasks of the last and then those of the others.
pub proof fn law_pipeline_asks_once<H>(
    world: World<H>,
    pipeline: Box<Pipeline>,
    before: Seq<ResultView<H>>,
    last: ResultView<H>,
    state: StateView,
    history: Seq<Event<H>>,
)
    requires
        (world.pipeline)(history, pipeline_elements(*pipeline), state) == before.push(last),
    ensures
        run_sequence(world, Sequence::Pipeline(pipeline), state, history) == (Ended {
            result: ResultView::<H>::Continue(
                match last {
                    ResultView::Exit(code, _) => code,
                    ResultView::Continue(code, _, _) => code,
                },
                Seq::empty(),
                match last {
                    ResultView::Exit(_, handles) => handles,
                    ResultView::Continue(_, _, handles) => handles,
                } + all_handles(before),
            ),
            history: history.push(
                Event::Pipeline {
                    sequences: pipeline_elements(*pipeline),
                    state,
                    results: before.push(last),
                },
            ),
        }),
{
    assert(before.push(last).drop_last() =~= before);
}

/// The tasks of several results are those of each, in their order.
pub proof fn law_tasks_of_several_results<H>(
    first: Seq<ResultView<H>>,
    second: Seq<ResultView<H>>,
    code: i32,
    changes: Seq<EnvChangeView>,
    handles: Seq<H>,
)
    ensures
        all_handles(Seq::<ResultView<H>>::empty()) == Seq::<H>::empty(),
        all_handles(seq![ResultView::Exit(code, handles)]) == handles,
        all_handles(seq![ResultView::Continue(code, changes, handles)]) == handles,
        all_handles(first + second) == all_handles(first) + all_handles(second),
    decreases first.len(),
{
    let exit = seq![ResultView::Exit(code, handles)];
    let go_on = seq![ResultView::Continue(code, changes, handles)];
    assert(exit.drop_first() =~= Seq::<ResultView<H>>::empty());
    assert(go_on.drop_first() =~= Seq::<ResultView<H>>::empty());
    assert(all_handles(Seq::<ResultView<H>>::empty()) =~= Seq::<H>::empty());
    assert(handles + Seq::<H>::empty() =~= handles);
    if first.len() == 0 {
        assert(first + second =~= second);
        assert(Seq::<H>::empty() + all_handles(second) =~= all_handles(second));
    } else {
        law_tasks_of_several_results(first.drop_first(), second, code, changes, handles);
        assert((first + second).first() == first.first());
        assert((first + second).drop_first() =~= first.drop_first() + second);
        let own = first.first().handles();
        let middle = all_handles(first.drop_first());
        assert((own + middle) + all_handles(second) =~= own + (middle + all_handles(second)));
    }
}

/// A subshell runs its list in a copy of the state, from the exit code zero and without waiting for
/// its tasks, which it hands on. Where its list exits the subshell goes on with that code and without
/// changes; else its result is that of the list.
pub proof fn law_subshell_runs_its_list<H>(
    world: World<H>,
    list: Box<SequentialList>,
    state: StateView,
    history: Seq<Event<H>>,
)
    ensures
        ({
            let own = run_list(
                world,
                ListView::<H> {
                    items: list.items@,
                    state,
                    exit_code: 0,
                    changes: Seq::empty(),
                    handles: Seq::empty(),
                    behavior: AsyncCommandBehavior::Yield,
                },
                history,
            );
            run_sequence(world, Sequence::Subshell(list), state, history) == (Ended {
                result: match own.result {
                    ResultView::Exit(code, handles) => ResultView::Continue(
                        code,
                        Seq::empty(),
                        handles,
                    ),
                    ResultView::Continue(code, changes, handles) => ResultView::Continue(
                        code,
                        changes,
                        handles,
                    ),
                },
                history: own.history,
            })
        }),
{
}

/// A list begins with all of its items, in the state it is given, with the exit code zero, no changes
/// and no tasks; that of a command substitution waits for its tasks.
pub proof fn law_lists_begin<H>(
    list: SequentialList,
    state: StateView,
    behavior: AsyncCommandBehavior,
    env_vars: Seq<(String, String)>,
    cwd: Seq<char>,
)
    ensures
        list_start::<H>(list.items@, state, behavior) == (ListView::<H> {
            items: list.items@,
            state,
            exit_code: 0,
            changes: Seq::empty(),
            handles: Seq::empty(),
            behavior,
        }),
        substitution_start::<H>(list, state) == (ListView::<H> {
            items: list.items@,
            state,
            exit_code: 0,
            changes: Seq::empty(),
            handles: Seq::empty(),
            behavior: AsyncCommandBehavior::Wait,
        }),
        initial_state(env_vars, cwd) == (StateView {
            env_vars: pairs_map(env_vars),
            shell_vars: Map::empty(),
            cwd,
        }),
{
}

/// A list runs its first item first, in its own state. One in the background is started, and its task
/// remembered; of another the exit code counts, its changes are made for the items behind it, and its
/// tasks are remembered; an exit ends the list with that result. Then come all items behind it.
pub proof fn law_list_runs_item_by_item<H>(
    world: World<H>,
    run: ListView<H>,
    item: SequentialListItem,
    rest: Seq<SequentialListItem>,
    history: Seq<Event<H>>,
)
    requires
        run.items == seq![item] + rest,
    ensures
        ({
            let handle = (world.spawn)(history, item.sequence, run.state);
            let own = run_sequence(world, item.sequence, run.state, history);
            let ended = run_list(world, run, history);
            if item.is_async {
                ended == run_list(
                    world,
                    ListView::<H> {
                        items: rest,
                        state: run.state,
                        exit_code: run.exit_code,
                        changes: run.changes,
                        handles: run.handles.push(handle),
                        behavior: run.behavior,
                    },
                    history.push(
                        Event::Spawn { sequence: item.sequence, state: run.state, handle },
                    ),
                )
            } else {
                match own.result {
                    ResultView::Exit(_, _) => ended == own,
                    ResultView::Continue(code, changes, handles) => ended == run_list(
                        world,
                        ListView::<H> {
                            items: rest,
                            state: run.state.apply_all(changes),
                            exit_code: code,
                            changes: run.changes + changes,
                            handles: run.handles + handles,
                            behavior: run.behavior,
                        },
                        own.history,
                    ),
                }
            }
        }),
{
    assert(run.items.first() == item);
    assert(run.items.drop_first() =~= rest);
}

/// A list without items left has ended: one that waits does so for all of its tasks, and leaves none;
/// one that does not hands them on.
pub proof fn law_list_ends<H>(world: World<H>, run: ListView<H>, history: Seq<Event<H>>)
    requires
        run.items.len() == 0,
    ensures
        run.behavior is Wait ==> run_list(world, run, history) == (Ended {
            result: ResultView::<H>::Continue(run.exit_code, run.changes, Seq::empty()),
            history: history.push(Event::Join { handles: run.handles }),
        }),
        run.behavior is Yield ==> run_list(world, run, history) == (Ended {
            result: ResultView::<H>::Continue(run.exit_code, run.changes, run.handles),
            history,
        }),
{
}

/// A task in the background ends with the exit code of its sequence, once all tasks that the sequence
/// left are waited for.
pub proof fn law_background_task_waits<H>(world: World<H>, ended: Ended<H>)
    ensures
        through(world, FrameView::Background, ended) == (Ended {
            result: ResultView::<H>::Continue(
                match ended.result {
                    ResultView::Exit(code, _) => code,
                    ResultView::Continue(code, _, _) => code,
                },
                Seq::empty(),
                Seq::empty(),
            ),
            history: ended.history.push(
                Event::Join {
                    handles: match ended.result {
                        ResultView::Exit(_, handles) => handles,
                        ResultView::Continue(_, _, handles) => handles,
                    },
                },
            ),
        }),
{
}

/// A program to be launched is that with its path, all of its arguments in their order, its variables
/// and its directory.
pub proof fn law_process_as_values(process: Process)
    ensures
        process@.path == process.path@,
        process@.args.len() == process.args@.len(),
        forall|i: int|
            0 <= i < process.args@.len() ==> #[trigger] process@.args[i] == process.args@[i]@,
        process@.env_vars == process.env_vars@,
        process@.cwd == process.cwd@,
{
}

/// A run goes on from an answer as if it had known it: what it still comes to is what the waiting
/// part comes to with the answer that the world gives, once the request has happened.
pub proof fn law_answers_go_on<H>(
    progress: Progress<H>,
    world: World<H>,
    history: Seq<Event<H>>,
)
    ensures
        progress.meaning(world, history) == match progress {
            Progress::Done(result) => Ended { result: result@, history },
            Progress::Spawn { sequence, state, then } => {
                let handle = (world.spawn)(history, sequence, state@);
                let now = history.push(Event::Spawn { sequence, state: state@, handle });
                unwind(
                    world,
                    frames_of(then.stack@),
                    run_list(
                        world,
                        ListView { handles: then.run@.handles.push(handle), ..then.run@ },
                        now,
                    ),
                )
            },
            Progress::Join { handles, then } => {
                let now = history.push(Event::Join { handles: handles@ });
                unwind(
                    world,
                    frames_of(then.stack@),
                    Ended { result: then.result@, history: now },
                )
            },
            Progress::Pipeline { sequences, state, then } => {
                let results = (world.pipeline)(history, sequences@, state@);
                let now = history.push(
                    Event::Pipeline { sequences: sequences@, state: state@, results },
                );
                unwind(
                    world,
                    frames_of(then.stack@),
                    Ended {
                        result: ResultView::<H>::Continue(
                            results.last().exit_code(),
                            Seq::empty(),
                            results.last().handles() + all_handles(results.drop_last()),
                        ),
                        history: now,
                    },
                )
            },
            Progress::Substitute { list, then } => {
                let text = (world.substitute)(history, list@);
                let now = history.push(Event::Substitute { list: list@, text });
                unwind(world, frames_of(then.stack@), substituted(world, then.run@, text, now))
            },
            Progress::Builtin { builtin, args, cwd, then } => {
                let result = (world.builtin)(history, builtin, texts(args@), cwd@);
                let now = history.push(
                    Event::Builtin { builtin, args: texts(args@), cwd: cwd@, result },
                );
                unwind(world, frames_of(then.stack@), Ended { result, history: now })
            },
            Progress::Print { text, then } => {
                let now = history.push(Event::Print { text: text@ });
                unwind(
                    world,
                    frames_of(then.stack@),
                    Ended { result: then.result@, history: now },
                )
            },
            Progress::Report { line, then } => {
                let now = history.push(Event::Report { line: line@ });
                unwind(
                    world,
                    frames_of(then.stack@),
                    Ended { result: then.result@, history: now },
                )
            },
            Progress::Probe { then } => {
                let path = then.run.search.path@;
                let is_file = (world.is_file)(history, path);
                let now = history.push(Event::Probe { path, is_file });
                unwind(world, frames_of(then.stack@), probed(world, then.run, is_file, now))
            },
            Progress::Launch { process, then } => {
                let end = (world.launch)(history, process@);
                let now = history.push(Event::Launch { process: process@, end });
                unwind(
                    world,
                    frames_of(then.stack@),
                    match end {
                        ProcessEnd::Exited(Some(code)) => Ended {
                            result: ResultView::<H>::Continue(code, Seq::empty(), Seq::empty()),
                            history: now,
                        },
                        ProcessEnd::Exited(None) => Ended {
                            result: ResultView::<H>::Continue(1, Seq::empty(), Seq::empty()),
                            history: now,
                        },
                        ProcessEnd::LaunchFailed(error) => Ended {
                            result: ResultView::<H>::Continue(1, Seq::empty(), Seq::empty()),
                            history: now.push(
                                Event::Report {
                                    line: "Error launching '"@ + then.run.command_name@ + "': "@
                                        + error@,
                                },
                            ),
                        },
                        ProcessEnd::WaitFailed(error) => Ended {
                            result: ResultView::<H>::Continue(1, Seq::empty(), Seq::empty()),
                            history: now.push(Event::Report { line: error@ }),
                        },
                    },
                )
            },
        },
{
    match progress {
        Progress::Launch { process, then } => {
            law_program_ends_its_command(world, process@, then.run.command_name@, history);
        },
        _ => {},
    }
}

/// What waits for the output of a command substitution puts the text where the substitution stood: an
/// assignment goes on with its value, a command with the argument or the variable it was at.
pub proof fn law_output_goes_where_it_belongs<H>(
    world: World<H>,
    run: SubstitutingView,
    text: Seq<char>,
    history: Seq<Event<H>>,
)
    ensures
        match run {
            SubstitutingView::Assign(run) => {
                let (rest, later) = value_of(world, run.parts, run.state, history);
                let value = run.text + text + rest;
                substituted(world, SubstitutingView::Assign(run), text, history) == (Ended {
                    result: ResultView::<H>::Continue(
                        0,
                        seq![
                            if run.exported {
                                EnvChangeView::SetEnvVar(run.name, value)
                            } else {
                                EnvChangeView::SetShellVar(run.name, value)
                            },
                        ],
                        Seq::empty(),
                    ),
                    history: later,
                })
            },
            SubstitutingView::Command(
                CommandRunView::Args {
                    done,
                    is_word,
                    text: before,
                    parts,
                    rest,
                    env_vars,
                    state,
                },
            ) => {
                let (here, now) = value_of(world, parts, state, history);
                let (others, later) = words_of(world, rest, state, now);
                let own = if is_word {
                    words(before + text + here)
                } else {
                    seq![before + text + here]
                };
                substituted(world, run, text, history) == run_command(
                    world,
                    named_step::<H>(done + (own + others), env_vars, state, world.separator),
                    later,
                )
            },
            SubstitutingView::Command(
                CommandRunView::Env { command_name, args, name, text: before, parts, later, state },
            ) => {
                let (here, now) = value_of(world, parts, state, history);
                substituted(world, run, text, history) == run_command(
                    world,
                    program_step::<H>(
                        command_name,
                        args,
                        later,
                        state.with_env_var(name, before + text + here),
                        world.separator,
                    ),
                    now,
                )
            },
        },
{
    match run {
        SubstitutingView::Assign(run) => {
            lemma_assignment(
                world,
                run.exported,
                run.name,
                run.text + text,
                run.parts,
                run.state,
                history,
            );
        },
        SubstitutingView::Command(
            CommandRunView::Args { done, is_word, text: before, parts, rest, env_vars, state },
        ) => {
            lemma_words_in_argument(
                world,
                done,
                is_word,
                before + text,
                parts,
                rest,
                env_vars,
                state,
                history,
            );
        },
        SubstitutingView::Command(
            CommandRunView::Env { command_name, args, name, text: before, parts, later, state },
        ) => {
            lemma_variable_in_front(
                world,
                command_name,
                args,
                name,
                before + text,
                parts,
                later,
                state,
                history,
            );
        },
    }
}

/// Results as mathematical values are as many, each in its place.
pub proof fn law_results_in_their_places<H>(results: Seq<ExecuteResult<H>>)
    ensures
        results_of(results).len() == results.len(),
        forall|i: int| 0 <= i < results.len() ==> #[trigger] results_of(results)[i] == results[i]@,
{
}

/// How a running list goes on: a started task is remembered behind those before it; an item that goes
/// on leaves its exit code, its changes and its tasks, behind those before it.
pub proof fn law_running_list_goes_on<H>(
    run: ListView<H>,
    handle: H,
    code: i32,
    changes: Seq<EnvChangeView>,
    handles: Seq<H>,
)
    ensures
        run.spawned(handle) == (ListView::<H> {
            items: run.items,
            state: run.state,
            exit_code: run.exit_code,
            changes: run.changes,
            handles: run.handles.push(handle),
            behavior: run.behavior,
        }),
        run.continued(code, changes, handles) == (ListView::<H> {
            items: run.items,
            state: run.state.apply_all(changes),
            exit_code: code,
            changes: run.changes + changes,
            handles: run.handles + handles,
            behavior: run.behavior,
        }),
{
}

/// How a sequence begins: an assignment and a command by evaluating, a boolean list with its first
/// sequence, a pipeline with all of its commands at once, and a subshell with its list, all in the
/// state that is given.
pub proof fn law_sequences_begin<H>(sequence: Sequence, state: StateView, separator: char)
    ensures
        sequence_step::<H>(sequence, state, separator) == match sequence {
            Sequence::EnvVar(var) => SequenceStepView::<H>::Assign(
                match parts_step(Seq::empty(), var.value.parts(), state) {
                    PartsStepView::Done(text) => AssignStepView::<H>::Done(
                        ResultView::Continue(
                            0,
                            seq![EnvChangeView::SetEnvVar(var.name@, text)],
                            Seq::empty(),
                        ),
                    ),
                    PartsStepView::Substitute { list, text, rest } => AssignStepView::<
                        H,
                    >::Substitute {
                        list: list_start(list.items@, state, AsyncCommandBehavior::Wait),
                        run: AssignRunView {
                            exported: true,
                            name: var.name@,
                            text,
                            parts: rest,
                            state,
                        },
                    },
                },
            ),
            Sequence::ShellVar(var) => SequenceStepView::<H>::Assign(
                match parts_step(Seq::empty(), var.value.parts(), state) {
                    PartsStepView::Done(text) => AssignStepView::<H>::Done(
                        ResultView::Continue(
                            0,
                            seq![EnvChangeView::SetShellVar(var.name@, text)],
                            Seq::empty(),
                        ),
                    ),
                    PartsStepView::Substitute { list, text, rest } => AssignStepView::<
                        H,
                    >::Substitute {
                        list: list_start(list.items@, state, AsyncCommandBehavior::Wait),
                        run: AssignRunView {
                            exported: false,
                            name: var.name@,
                            text,
                            parts: rest,
                            state,
                        },
                    },
                },
            ),
            Sequence::Command(command) => SequenceStepView::<H>::Command(
                match args_step(Seq::empty(), command.args@, state) {
                    ArgsStepView::Done(words) => named_step::<H>(
                        words,
                        command.env_vars@,
                        state,
                        separator,
                    ),
                    ArgsStepView::Substitute { list, done, is_word, text, parts, rest } => {
                        CommandStepView::<H>::Substitute {
                            list: list_start(list.items@, state, AsyncCommandBehavior::Wait),
                            run: CommandRunView::Args {
                                done,
                                is_word,
                                text,
                                parts,
                                rest,
                                env_vars: command.env_vars@,
                                state,
                            },
                        }
                    },
                },
            ),
            Sequence::BooleanList(list) => SequenceStepView::<H>::BooleanList {
                first: list.current,
                state,
                run: AfterFirstView { op: list.op, next: list.next, state },
            },
            Sequence::Pipeline(pipeline) => SequenceStepView::<H>::Pipeline {
                sequences: pipeline_elements(*pipeline),
                state,
            },
            Sequence::Subshell(list) => SequenceStepView::<H>::Subshell {
                list: list_start(list.items@, state, AsyncCommandBehavior::Yield),
            },
        },
{
}

} // verus!
