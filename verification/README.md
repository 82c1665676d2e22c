# task_shell

The decisions of a small cross-platform shell, verified with Verus.

A parsed command line runs as a machine. `shell::execute` begins it; from then on each
`execution::Progress` says what is to be done outside (start a task, wait for tasks, run a pipeline,
catch the output of a list, run a command of the embedding program, write a text, look for a file,
launch a program), and takes back what came of it, until the run has ended with a result.

## Layout

- `src/syntax.rs`: the parsed form of a command line.
- `src/text.rs`, `src/state.rs`, `src/outcome.rs`, `src/platform.rs`: texts, variables and the working
  directory, results, and the rules of the platform.
- `src/evaluate.rs`: variables, command substitution and the splitting of bare words.
- `src/resolve.rs`: where the program of a command is found.
- `src/command.rs`, `src/sequence.rs`, `src/list.rs`: one step of a command, a sequence and a list.
- `src/semantics.rs`: what a complete run comes to, for whatever the outside answers.
- `src/execution.rs`: the machine, proved to come to exactly that.
- `src/shell.rs`: the way in.
- `src/laws.rs`: what holds of every run.
- `app/`: the machine driven on tokio, with pipes, processes and the file system.

The commands that only the embedding program can run (`cd`, `exit`, `cp`, `mkdir`, `mv`, `rm` and
`sleep`) are supplied to `app/` through its `BuiltinCommands` trait.

## What is taken on trust

`String::push`, `String::from_utf8_lossy`, `str::to_uppercase`, `Path::is_absolute`, `Path::join` and
`std::path::MAIN_SEPARATOR`. Each is declared once, with what is claimed of it.
