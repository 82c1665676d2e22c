use task_shell::evaluate::{
    evaluate_args, evaluate_command_substitution, evaluate_string_or_word, evaluate_string_parts,
    substitute_output, ArgsStep, PartsStep,
};
use task_shell::state::ShellState;
use task_shell::syntax::{SequentialList, StringOrWord, StringPart};

fn state() -> ShellState {
    let env = vec![("NAME".to_string(), "a  b".to_string())];
    ShellState::new(env, "/".to_string())
}

fn text(text: &str) -> StringPart {
    StringPart::Text(text.to_string())
}

fn var(name: &str) -> StringPart {
    StringPart::Variable(name.to_string())
}

fn command() -> StringPart {
    StringPart::Command(SequentialList { items: Vec::new() })
}

#[test]
fn parts_are_put_together() {
    let parts = vec![text("<"), var("NAME"), var("UNSET"), text(">")];
    match evaluate_string_parts(parts, &state()) {
        PartsStep::Done(value) => assert_eq!(value, "<a  b>"),
        PartsStep::Substitute { .. } => panic!("no substitution"),
    }
    match evaluate_string_or_word(StringOrWord::Word(vec![var("NAME")]), &state()) {
        PartsStep::Done(value) => assert_eq!(value, "a  b"),
        PartsStep::Substitute { .. } => panic!("no substitution"),
    }
}

#[test]
fn substitutions_take_their_outputs_in_order() {
    let state = state();
    let parts = vec![text("x"), command(), var("NAME"), command(), text("y")];
    let step = evaluate_string_parts(parts, &state);
    let run = match step {
        PartsStep::Substitute { run, .. } => run,
        PartsStep::Done(_) => panic!("a substitution"),
    };
    assert_eq!(run.text, "x");
    let run = match run.substituted("1", &state) {
        PartsStep::Substitute { run, .. } => run,
        PartsStep::Done(_) => panic!("a substitution"),
    };
    assert_eq!(run.text, "x1a  b");
    match run.substituted("2", &state) {
        PartsStep::Done(value) => assert_eq!(value, "x1a  b2y"),
        PartsStep::Substitute { .. } => panic!("no substitution"),
    }
}

#[test]
fn bare_words_are_split_and_quoted_ones_are_not() {
    let args = vec![
        StringOrWord::Word(vec![text("echo")]),
        StringOrWord::Word(vec![var("NAME"), text("c")]),
        StringOrWord::String(vec![var("NAME"), text("c")]),
        StringOrWord::Word(vec![var("UNSET")]),
        StringOrWord::String(vec![var("UNSET")]),
    ];
    match evaluate_args(args, &state()) {
        ArgsStep::Done(args) => assert_eq!(args, vec!["echo", "a", "bc", "a  bc", ""]),
        ArgsStep::Substitute { .. } => panic!("no substitution"),
    }
    match evaluate_args(Vec::new(), &state()) {
        ArgsStep::Done(args) => assert!(args.is_empty()),
        ArgsStep::Substitute { .. } => panic!("no substitution"),
    }
}

#[test]
fn arguments_wait_for_substitutions() {
    let state = state();
    let args = vec![
        StringOrWord::Word(vec![text("echo")]),
        StringOrWord::Word(vec![text("<"), command(), text(">")]),
        StringOrWord::String(vec![command(), command()]),
    ];
    let run = match evaluate_args(args, &state) {
        ArgsStep::Substitute { run, .. } => run,
        ArgsStep::Done(_) => panic!("a substitution"),
    };
    assert_eq!(run.done, vec!["echo"]);
    assert!(run.is_word);
    let run = match run.substituted("1 2", &state) {
        ArgsStep::Substitute { run, .. } => run,
        ArgsStep::Done(_) => panic!("a substitution"),
    };
    assert_eq!(run.done, vec!["echo", "<1", "2>"]);
    assert!(!run.is_word);
    let run = match run.substituted("3 4", &state) {
        ArgsStep::Substitute { run, .. } => run,
        ArgsStep::Done(_) => panic!("a substitution"),
    };
    match run.substituted("5", &state) {
        ArgsStep::Done(args) => assert_eq!(args, vec!["echo", "<1", "2>", "3 45"]),
        ArgsStep::Substitute { .. } => panic!("no substitution"),
    }
}

#[test]
fn output_is_put_on_one_line() {
    let cases = [
        ("", ""),
        ("\n", ""),
        ("\r\n", ""),
        ("1\n", "1"),
        ("1\r\n", "1"),
        ("1\n\n2\n\n", "1  2 "),
        ("1\r\n2\r3\n4", "1 2\r3 4"),
        ("a\r\r\nb", "a\r b"),
        ("a\r", "a\r"),
        ("\n\r\n", " "),
    ];
    for (output, expected) in cases {
        assert_eq!(evaluate_command_substitution(output), expected, "{:?}", output);
        let end = output
            .strip_suffix("\r\n")
            .or_else(|| output.strip_suffix('\n'))
            .unwrap_or(output);
        let usual = end.replace("\r\n", " ").replace('\n', " ");
        assert_eq!(evaluate_command_substitution(output), usual, "{:?}", output);
        assert!(!evaluate_command_substitution(output).contains('\n'));
    }
}

#[test]
fn output_is_decoded() {
    assert_eq!(substitute_output(&"h\u{e4}us\n".as_bytes().to_vec()), "h\u{e4}us");
    assert_eq!(substitute_output(&vec![0xff, b'a', b'\n']), "\u{fffd}a");
    assert_eq!(substitute_output(&Vec::new()), "");
}
