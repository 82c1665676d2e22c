//! Evaluation of words: variables, command substitution and the splitting of bare words.
//!
//! A command substitution runs commands, which the caller does: an evaluation that meets one
//! stops, says which list is to run, and goes on once it is told the text that came out.
use crate::state::{ShellState, StateView};
use crate::syntax::{SequentialList, StringOrWord, StringPart};
use crate::text::{split_words, texts, to_chars, words};
use vstd::prelude::*;
use vstd::string::StringExecFns;

verus! {

/// The text that `String::from_utf8_lossy` makes of some bytes.
pub uninterp spec fn lossy_text(bytes: Seq<u8>) -> Seq<char>;

/// `String::from_utf8_lossy` decodes UTF-8 and puts U+FFFD in the place of what is not. Its
/// result is named `lossy_text`; of valid UTF-8 it is the text that the bytes encode.
#[verifier::external_body]
fn utf8_lossy(bytes: &Vec<u8>) -> (text: String)
    ensures
        text@ == lossy_text(bytes@),
        vstd::utf8::valid_utf8(bytes@) ==> text@ == vstd::utf8::decode_utf8(bytes@),
{
    String::from_utf8_lossy(bytes).to_string()
}

/// The text without one line end at its end.
pub open spec fn without_line_end(text: Seq<char>) -> Seq<char> {
    let n = text.len() as int;
    if n >= 2 && text[n - 2] == '\r' && text[n - 1] == '\n' {
        text.take(n - 2)
    } else if n >= 1 && text[n - 1] == '\n' {
        text.take(n - 1)
    } else {
        text
    }
}

/// The text with a space for each line end, `\r\n` or `\n`.
pub open spec fn line_ends_to_spaces(text: Seq<char>) -> Seq<char>
    decreases text.len(),
{
    if text.len() == 0 {
        Seq::empty()
    } else if text.len() >= 2 && text[0] == '\r' && text[1] == '\n' {
        seq![' '] + line_ends_to_spaces(text.skip(2))
    } else if text[0] == '\n' {
        seq![' '] + line_ends_to_spaces(text.skip(1))
    } else {
        seq![text[0]] + line_ends_to_spaces(text.skip(1))
    }
}

/// What a command substitution stands for when the commands printed `output`: the output on one
/// line.
pub open spec fn substitution_text(output: Seq<char>) -> Seq<char> {
    line_ends_to_spaces(without_line_end(output))
}

/// What a command substitution stands for when the commands printed `output`.
pub fn evaluate_command_substitution(output: &str) -> (text: String)
    ensures
        text@ == substitution_text(output@),
{
    let chars = to_chars(output);
    let len: usize = chars.len();
    let end: usize = if len >= 2 && chars[len - 2] == '\r' && chars[len - 1] == '\n' {
        len - 2
    } else if len >= 1 && chars[len - 1] == '\n' {
        len - 1
    } else {
        len
    };
    let ghost kept = chars@.take(end as int);
    proof {
        assert(chars@.take(len as int) =~= chars@);
        assert(kept.skip(0) =~= kept);
    }
    let mut text = String::new();
    let mut i: usize = 0;
    while i < end
        invariant
            i <= end <= chars@.len(),
            kept == chars@.take(end as int),
            text@ + line_ends_to_spaces(kept.skip(i as int)) == line_ends_to_spaces(kept),
        decreases end - i,
    {
        let c: char = chars[i];
        let ghost rest = kept.skip(i as int);
        let ghost before = text@;
        proof {
            assert(rest[0] == c);
            assert(rest.skip(1) =~= kept.skip(i + 1));
        }
        if c == '\r' && end - i >= 2 && chars[i + 1] == '\n' {
            proof {
                assert(rest[1] == '\n');
                assert(rest.skip(2) =~= kept.skip(i + 2));
                assert(before.push(' ') + line_ends_to_spaces(kept.skip(i + 2)) =~= before + (
                seq![' '] + line_ends_to_spaces(kept.skip(i + 2))));
            }
            text.push(' ');
            i += 2;
        } else {
            let put: char = if c == '\n' {
                ' '
            } else {
                c
            };
            proof {
                assert(before.push(put) + line_ends_to_spaces(kept.skip(i + 1)) =~= before + (
                seq![put] + line_ends_to_spaces(kept.skip(i + 1))));
            }
            text.push(put);
            i += 1;
        }
    }
    proof {
        assert(kept.skip(i as int).len() == 0);
        assert(text@ + line_ends_to_spaces(kept.skip(i as int)) =~= text@);
    }
    text
}

/// What a command substitution stands for when the commands wrote these bytes.
pub fn substitute_output(output: &Vec<u8>) -> (text: String)
    ensures
        text@ == substitution_text(lossy_text(output@)),
        vstd::utf8::valid_utf8(output@) ==> lossy_text(output@) == vstd::utf8::decode_utf8(
            output@,
        ),
{
    evaluate_command_substitution(utf8_lossy(output).as_str())
}

/// The text of a part that is no command substitution: the literal text, or the variable's value,
/// nothing where it is not set.
pub open spec fn part_text(part: StringPart, state: StateView) -> Seq<char> {
    match part {
        StringPart::Text(text) => text@,
        StringPart::Variable(name) => match state.get_var(name@) {
            Some(value) => value,
            None => Seq::empty(),
        },
        StringPart::Command(_) => Seq::empty(),
    }
}

/// Where the evaluation of parts has got to.
pub enum PartsStep {
    /// The parts stand for this text.
    Done(String),
    /// The output of `list`, run in a copy of the state, goes to `run`.
    Substitute { list: SequentialList, run: PartsRun },
}

/// An evaluation of parts that waits for the text of a command substitution.
pub struct PartsRun {
    /// The text of the parts before it.
    pub text: String,
    /// The parts behind it.
    pub rest: Vec<StringPart>,
}

/// Where the evaluation of parts has got to, as mathematical values.
pub enum PartsStepView {
    Done(Seq<char>),
    Substitute { list: SequentialList, text: Seq<char>, rest: Seq<StringPart> },
}

impl View for PartsStep {
    type V = PartsStepView;

    open spec fn view(&self) -> PartsStepView {
        match self {
            PartsStep::Done(text) => PartsStepView::Done(text@),
            PartsStep::Substitute { list, run } => PartsStepView::Substitute {
                list: *list,
                text: run.text@,
                rest: run.rest@,
            },
        }
    }
}

/// The evaluation of `parts` behind `text`, up to the next command substitution.
pub open spec fn parts_step(text: Seq<char>, parts: Seq<StringPart>, state: StateView) -> PartsStepView
    decreases parts.len(),
{
    if parts.len() == 0 {
        PartsStepView::Done(text)
    } else {
        match parts.first() {
            StringPart::Command(list) => PartsStepView::Substitute {
                list,
                text,
                rest: parts.drop_first(),
            },
            part => parts_step(text + part_text(part, state), parts.drop_first(), state),
        }
    }
}

impl PartsRun {
    /// Goes on up to the next command substitution.
    fn advance(self, state: &ShellState) -> (step: PartsStep)
        ensures
            step@ == parts_step(self.text@, self.rest@, state@),
    {
        let PartsRun { text, rest } = self;
        let mut text = text;
        let mut rest = rest;
        while rest.len() > 0
            invariant
                parts_step(text@, rest@, state@) == parts_step(self.text@, self.rest@, state@),
            decreases rest@.len(),
        {
            let ghost before = rest@;
            let part = rest.remove(0);
            proof {
                assert(rest@ =~= before.drop_first());
            }
            match part {
                StringPart::Text(literal) => {
                    text.append(literal.as_str());
                },
                StringPart::Variable(name) => {
                    match state.get_var(name.as_str()) {
                        Some(value) => {
                            text.append(value.as_str());
                        },
                        None => {
                            proof {
                                assert(text@ + Seq::<char>::empty() =~= text@);
                            }
                        },
                    }
                },
                StringPart::Command(list) => {
                    return PartsStep::Substitute { list, run: PartsRun { text, rest } };
                },
            }
        }
        PartsStep::Done(text)
    }

    /// Goes on with the text that the awaited command substitution stands for.
    pub fn substituted(self, output: &str, state: &ShellState) -> (step: PartsStep)
        ensures
            step@ == parts_step(self.text@ + output@, self.rest@, state@),
    {
        let PartsRun { text, rest } = self;
        let mut text = text;
        text.append(output);
        PartsRun { text, rest }.advance(state)
    }
}

/// Evaluates parts to one text.
pub fn evaluate_string_parts(parts: Vec<StringPart>, state: &ShellState) -> (step: PartsStep)
    ensures
        step@ == parts_step(Seq::empty(), parts@, state@),
{
    PartsRun { text: String::new(), rest: parts }.advance(state)
}

/// Evaluates a word to one text, whether it is quoted or not.
pub fn evaluate_string_or_word(value: StringOrWord, state: &ShellState) -> (step: PartsStep)
    ensures
        step@ == parts_step(Seq::empty(), value.parts(), state@),
{
    evaluate_string_parts(value.into_parts(), state)
}

/// The arguments that an evaluated word becomes: a quoted word is one argument, a bare one as many
/// as it has words.
pub open spec fn arg_values(is_word: bool, text: Seq<char>) -> Seq<Seq<char>> {
    if is_word {
        words(text)
    } else {
        seq![text]
    }
}

/// Where the evaluation of arguments has got to.
pub enum ArgsStep {
    /// The arguments.
    Done(Vec<String>),
    /// The output of `list`, run in a copy of the state, goes to `run`.
    Substitute { list: SequentialList, run: ArgsRun },
}

/// An evaluation of arguments that waits for the text of a command substitution.
pub struct ArgsRun {
    /// The arguments that are evaluated.
    pub done: Vec<String>,
    /// Whether the word in hand is a bare one.
    pub is_word: bool,
    /// The word in hand.
    pub parts: PartsRun,
    /// The words behind it.
    pub rest: Vec<StringOrWord>,
}

/// Where the evaluation of arguments has got to, as mathematical values.
pub enum ArgsStepView {
    Done(Seq<Seq<char>>),
    Substitute {
        list: SequentialList,
        done: Seq<Seq<char>>,
        is_word: bool,
        text: Seq<char>,
        parts: Seq<StringPart>,
        rest: Seq<StringOrWord>,
    },
}

impl View for ArgsStep {
    type V = ArgsStepView;

    open spec fn view(&self) -> ArgsStepView {
        match self {
            ArgsStep::Done(args) => ArgsStepView::Done(texts(args@)),
            ArgsStep::Substitute { list, run } => ArgsStepView::Substitute {
                list: *list,
                done: texts(run.done@),
                is_word: run.is_word,
                text: run.parts.text@,
                parts: run.parts.rest@,
                rest: run.rest@,
            },
        }
    }
}

/// The evaluation of `args` behind the arguments `done`, up to the next command substitution.
pub open spec fn args_step(
    done: Seq<Seq<char>>,
    args: Seq<StringOrWord>,
    state: StateView,
) -> ArgsStepView
    decreases args.len(),
{
    if args.len() == 0 {
        ArgsStepView::Done(done)
    } else {
        let is_word = args.first() is Word;
        match parts_step(Seq::empty(), args.first().parts(), state) {
            PartsStepView::Done(text) => args_step(
                done + arg_values(is_word, text),
                args.drop_first(),
                state,
            ),
            PartsStepView::Substitute { list, text, rest } => ArgsStepView::Substitute {
                list,
                done,
                is_word,
                text,
                parts: rest,
                rest: args.drop_first(),
            },
        }
    }
}

/// The same with a word in hand whose evaluation has got to `word`.
pub open spec fn args_step_in_word(
    done: Seq<Seq<char>>,
    is_word: bool,
    word: PartsStepView,
    rest: Seq<StringOrWord>,
    state: StateView,
) -> ArgsStepView {
    match word {
        PartsStepView::Done(text) => args_step(done + arg_values(is_word, text), rest, state),
        PartsStepView::Substitute { list, text, rest: parts } => ArgsStepView::Substitute {
            list,
            done,
            is_word,
            text,
            parts,
            rest,
        },
    }
}

/// Adds the arguments that an evaluated word becomes.
fn push_arg(done: &mut Vec<String>, is_word: bool, text: String)
    ensures
        texts(final(done)@) == texts(old(done)@) + arg_values(is_word, text@),
{
    let ghost before = done@;
    if is_word {
        let mut found = split_words(text.as_str());
        let ghost added = found@;
        done.append(&mut found);
        proof {
            assert(texts(done@) =~= texts(before) + texts(added));
        }
    } else {
        done.push(text);
        proof {
            assert(texts(done@) =~= texts(before) + seq![text@]);
        }
    }
}

/// Goes on from a word in hand up to the next command substitution.
fn advance_args(
    done: Vec<String>,
    is_word: bool,
    word: PartsStep,
    rest: Vec<StringOrWord>,
    state: &ShellState,
) -> (step: ArgsStep)
    ensures
        step@ == args_step_in_word(texts(done@), is_word, word@, rest@, state@),
{
    let mut made = done;
    let mut bare = is_word;
    let mut current = word;
    let mut left = rest;
    loop
        invariant
            args_step_in_word(texts(made@), bare, current@, left@, state@) == args_step_in_word(
                texts(done@),
                is_word,
                word@,
                rest@,
                state@,
            ),
        decreases left@.len(),
    {
        match current {
            PartsStep::Substitute { list, run } => {
                return ArgsStep::Substitute {
                    list,
                    run: ArgsRun { done: made, is_word: bare, parts: run, rest: left },
                };
            },
            PartsStep::Done(text) => {
                push_arg(&mut made, bare, text);
                if left.len() == 0 {
                    return ArgsStep::Done(made);
                }
                let ghost before = left@;
                let arg = left.remove(0);
                proof {
                    assert(left@ =~= before.drop_first());
                }
                bare = match &arg {
                    StringOrWord::Word(_) => true,
                    StringOrWord::String(_) => false,
                };
                current = evaluate_string_or_word(arg, state);
            },
        }
    }
}

impl ArgsRun {
    /// Goes on with the text that the awaited command substitution stands for.
    pub fn substituted(self, output: &str, state: &ShellState) -> (step: ArgsStep)
        ensures
            step@ == args_step_in_word(
                texts(self.done@),
                self.is_word,
                parts_step(self.parts.text@ + output@, self.parts.rest@, state@),
                self.rest@,
                state@,
            ),
    {
        let ArgsRun { done, is_word, parts, rest } = self;
        let word = parts.substituted(output, state);
        advance_args(done, is_word, word, rest, state)
    }
}

/// Evaluates the words of a command to its arguments.
pub fn evaluate_args(args: Vec<StringOrWord>, state: &ShellState) -> (step: ArgsStep)
    ensures
        step@ == args_step(Seq::empty(), args@, state@),
{
    let mut rest = args;
    let done: Vec<String> = Vec::new();
    proof {
        assert(texts(done@) =~= Seq::<Seq<char>>::empty());
    }
    if rest.len() == 0 {
        return ArgsStep::Done(done);
    }
    let arg = rest.remove(0);
    proof {
        assert(rest@ =~= args@.drop_first());
    }
    let is_word: bool = match &arg {
        StringOrWord::Word(_) => true,
        StringOrWord::String(_) => false,
    };
    let word = evaluate_string_or_word(arg, state);
    advance_args(done, is_word, word, rest, state)
}

/// How many command substitutions the parts hold.
pub open spec fn substitutions_in(parts: Seq<StringPart>) -> nat
    decreases parts.len(),
{
    if parts.len() == 0 {
        0
    } else {
        (if parts.first() is Command {
            1nat
        } else {
            0
        }) + substitutions_in(parts.drop_first())
    }
}

/// How many command substitutions the words hold.
pub open spec fn substitutions_in_args(args: Seq<StringOrWord>) -> nat
    decreases args.len(),
{
    if args.len() == 0 {
        0
    } else {
        substitutions_in(args.first().parts()) + substitutions_in_args(args.drop_first())
    }
}

/// The text of parts whose command substitutions stand for `outputs`, one after the other.
pub open spec fn parts_value(parts: Seq<StringPart>, state: StateView, outputs: Seq<Seq<char>>) -> Seq<
    char,
>
    decreases parts.len(),
{
    if parts.len() == 0 {
        Seq::empty()
    } else if parts.first() is Command {
        outputs.first() + parts_value(parts.drop_first(), state, outputs.drop_first())
    } else {
        part_text(parts.first(), state) + parts_value(parts.drop_first(), state, outputs)
    }
}

/// The text that an evaluation comes to when it is given `outputs`, one after the other.
pub open spec fn finished_parts(step: PartsStepView, state: StateView, outputs: Seq<Seq<char>>) -> Seq<
    char,
>
    decreases outputs.len(),
{
    match step {
        PartsStepView::Done(text) => text,
        PartsStepView::Substitute { text, rest, .. } => if outputs.len() == 0 {
            text
        } else {
            finished_parts(
                parts_step(text + outputs.first(), rest, state),
                state,
                outputs.drop_first(),
            )
        },
    }
}

/// A word stands for the texts of its parts in their order, each command substitution for its own
/// output, however often the evaluation stops on the way.
pub proof fn law_parts_are_evaluated_in_order(
    text: Seq<char>,
    parts: Seq<StringPart>,
    state: StateView,
    outputs: Seq<Seq<char>>,
)
    requires
        outputs.len() == substitutions_in(parts),
    ensures
        finished_parts(parts_step(text, parts, state), state, outputs) == text + parts_value(
            parts,
            state,
            outputs,
        ),
    decreases parts.len(),
{
    if parts.len() == 0 {
        assert(text + parts_value(parts, state, outputs) =~= text);
    } else if parts.first() is Command {
        law_parts_are_evaluated_in_order(
            text + outputs.first(),
            parts.drop_first(),
            state,
            outputs.drop_first(),
        );
        let rest = parts_value(parts.drop_first(), state, outputs.drop_first());
        assert((text + outputs.first()) + rest =~= text + (outputs.first() + rest));
    } else {
        let here = part_text(parts.first(), state);
        law_parts_are_evaluated_in_order(text + here, parts.drop_first(), state, outputs);
        let rest = parts_value(parts.drop_first(), state, outputs);
        assert((text + here) + rest =~= text + (here + rest));
    }
}

/// The arguments of words whose command substitutions stand for `outputs`, one after the other.
pub open spec fn args_value(args: Seq<StringOrWord>, state: StateView, outputs: Seq<Seq<char>>) -> Seq<
    Seq<char>,
>
    decreases args.len(),
{
    if args.len() == 0 {
        Seq::empty()
    } else {
        let own = substitutions_in(args.first().parts()) as int;
        arg_values(
            args.first() is Word,
            parts_value(args.first().parts(), state, outputs.take(own)),
        ) + args_value(args.drop_first(), state, outputs.skip(own))
    }
}

/// The arguments that an evaluation comes to when it is given `outputs`, one after the other.
pub open spec fn finished_args(step: ArgsStepView, state: StateView, outputs: Seq<Seq<char>>) -> Seq<
    Seq<char>,
>
    decreases outputs.len(),
{
    match step {
        ArgsStepView::Done(args) => args,
        ArgsStepView::Substitute { done, is_word, text, parts, rest, .. } => if outputs.len() == 0 {
            done
        } else {
            finished_args(
                args_step_in_word(
                    done,
                    is_word,
                    parts_step(text + outputs.first(), parts, state),
                    rest,
                    state,
                ),
                state,
                outputs.drop_first(),
            )
        },
    }
}

/// The same from the middle of a word.
proof fn lemma_args_in_word(
    done: Seq<Seq<char>>,
    is_word: bool,
    text: Seq<char>,
    parts: Seq<StringPart>,
    rest: Seq<StringOrWord>,
    state: StateView,
    outputs: Seq<Seq<char>>,
)
    requires
        outputs.len() == substitutions_in(parts) + substitutions_in_args(rest),
    ensures
        finished_args(
            args_step_in_word(done, is_word, parts_step(text, parts, state), rest, state),
            state,
            outputs,
        ) == done + (arg_values(
            is_word,
            text + parts_value(parts, state, outputs.take(substitutions_in(parts) as int)),
        ) + args_value(rest, state, outputs.skip(substitutions_in(parts) as int))),
    decreases rest.len(), parts.len() + 1,
{
    let own = substitutions_in(parts) as int;
    if parts.len() == 0 {
        let made = done + arg_values(is_word, text);
        assert(text + parts_value(parts, state, outputs.take(own)) =~= text);
        assert(outputs.skip(own) =~= outputs);
        law_args_are_evaluated_in_order(made, rest, state, outputs);
        let later = args_value(rest, state, outputs);
        assert(made + later =~= done + (arg_values(is_word, text) + later));
    } else if parts.first() is Command {
        let output = outputs.first();
        let others = outputs.drop_first();
        lemma_args_in_word(
            done,
            is_word,
            text + output,
            parts.drop_first(),
            rest,
            state,
            others,
        );
        assert(outputs.take(own).first() == output);
        assert(outputs.take(own).drop_first() =~= others.take(own - 1));
        assert(outputs.skip(own) =~= others.skip(own - 1));
        let tail = parts_value(parts.drop_first(), state, others.take(own - 1));
        assert((text + output) + tail =~= text + (output + tail));
    } else {
        let here = part_text(parts.first(), state);
        lemma_args_in_word(
            done,
            is_word,
            text + here,
            parts.drop_first(),
            rest,
            state,
            outputs,
        );
        let tail = parts_value(parts.drop_first(), state, outputs.take(own));
        assert((text + here) + tail =~= text + (here + tail));
    }
}

/// The arguments of a command are those of its words in their order, a quoted word one argument and
/// a bare word its words, each command substitution its own output, however often the evaluation
/// stops on the way.
pub proof fn law_args_are_evaluated_in_order(
    done: Seq<Seq<char>>,
    args: Seq<StringOrWord>,
    state: StateView,
    outputs: Seq<Seq<char>>,
)
    requires
        outputs.len() == substitutions_in_args(args),
    ensures
        finished_args(args_step(done, args, state), state, outputs) == done + args_value(
            args,
            state,
            outputs,
        ),
    decreases args.len(), 0nat,
{
    if args.len() == 0 {
        assert(done + args_value(args, state, outputs) =~= done);
    } else {
        let parts = args.first().parts();
        let is_word = args.first() is Word;
        let rest = args.drop_first();
        lemma_args_in_word(done, is_word, Seq::empty(), parts, rest, state, outputs);
        let value = parts_value(parts, state, outputs.take(substitutions_in(parts) as int));
        assert(Seq::<char>::empty() + value =~= value);
        assert(args_step(done, args, state) == args_step_in_word(
            done,
            is_word,
            parts_step(Seq::empty(), parts, state),
            rest,
            state,
        ));
    }
}

/// What a command substitution stands for is on one line.
pub proof fn law_substitution_is_one_line(output: Seq<char>)
    ensures
        !substitution_text(output).contains('\n'),
{
    lemma_no_line_end(without_line_end(output));
}

proof fn lemma_no_line_end(text: Seq<char>)
    ensures
        !line_ends_to_spaces(text).contains('\n'),
    decreases text.len(),
{
    if text.len() > 0 {
        let (head, rest) = if text.len() >= 2 && text[0] == '\r' && text[1] == '\n' {
            (' ', text.skip(2))
        } else if text[0] == '\n' {
            (' ', text.skip(1))
        } else {
            (text[0], text.skip(1))
        };
        lemma_no_line_end(rest);
        let whole = line_ends_to_spaces(text);
        assert(whole == seq![head] + line_ends_to_spaces(rest));
        if whole.contains('\n') {
            let k = choose|k: int| 0 <= k < whole.len() && whole[k] == '\n';
            assert(line_ends_to_spaces(rest)[k - 1] == '\n');
        }
    }
}

/// Output without line ends stands for itself, and so does output with one line end at its end, but
/// for that.
pub proof fn law_plain_output_is_kept(output: Seq<char>)
    requires
        !output.contains('\n'),
    ensures
        substitution_text(output) == output,
        output.len() == 0 || output.last() != '\r' ==> substitution_text(output.push('\n'))
            == output,
        substitution_text(output.push('\r').push('\n')) == output,
{
    lemma_kept(output);
    assert(without_line_end(output) == output);
    assert(output.push('\n').take(output.len() as int) =~= output);
    assert(output.push('\r').push('\n').take(output.len() as int) =~= output);
}

proof fn lemma_kept(text: Seq<char>)
    requires
        !text.contains('\n'),
    ensures
        line_ends_to_spaces(text) == text,
    decreases text.len(),
{
    if text.len() > 0 {
        assert(text.contains(text[0]));
        if text.len() >= 2 {
            assert(text.contains(text[1]));
        }
        assert(!text.skip(1).contains('\n')) by {
            if text.skip(1).contains('\n') {
                let k = choose|k: int| 0 <= k < text.skip(1).len() && text.skip(1)[k] == '\n';
                assert(text[k + 1] == '\n');
            }
        }
        lemma_kept(text.skip(1));
        assert(seq![text[0]] + text.skip(1) =~= text);
    } else {
        assert(line_ends_to_spaces(text) =~= text);
    }
}

/// A line end with more output behind it becomes one space, and nothing else of the output changes:
/// the line before it stays whole, and what is behind stands for what it would alone.
pub proof fn law_line_end_becomes_a_space(line: Seq<char>, rest: Seq<char>)
    requires
        !line.contains('\n'),
        rest.len() > 0,
    ensures
        line.len() == 0 || line.last() != '\r' ==> substitution_text(line.push('\n') + rest)
            == line.push(' ') + substitution_text(rest),
        substitution_text(line.push('\r').push('\n') + rest) == line.push(' ') + substitution_text(
            rest,
        ),
{
    let kept = without_line_end(rest);
    if line.len() == 0 || line.last() != '\r' {
        let whole = line.push('\n') + rest;
        assert(without_line_end(whole) =~= line.push('\n') + kept);
        lemma_line_then(line, seq!['\n'], kept);
        assert(line + seq!['\n'] + kept =~= line.push('\n') + kept);
    }
    let whole = line.push('\r').push('\n') + rest;
    assert(without_line_end(whole) =~= line.push('\r').push('\n') + kept);
    lemma_line_then(line, seq!['\r', '\n'], kept);
    assert(line + seq!['\r', '\n'] + kept =~= line.push('\r').push('\n') + kept);
}

proof fn lemma_line_then(line: Seq<char>, end: Seq<char>, rest: Seq<char>)
    requires
        !line.contains('\n'),
        end == seq!['\n'] && (line.len() == 0 || line.last() != '\r') || end == seq!['\r', '\n'],
    ensures
        line_ends_to_spaces(line + end + rest) == line.push(' ') + line_ends_to_spaces(rest),
    decreases line.len(),
{
    let whole = line + end + rest;
    if line.len() == 0 {
        assert(whole =~= end + rest);
        assert(whole.skip(end.len() as int) =~= rest);
        assert(whole[0] == end[0]);
        assert(line.push(' ') + line_ends_to_spaces(rest) =~= seq![' '] + line_ends_to_spaces(rest));
        if end.len() == 2 {
            assert(whole[1] == end[1]);
        }
    } else {
        let less = line.skip(1);
        assert(whole[0] == line[0]);
        assert(line.contains(line[0]));
        assert(!less.contains('\n')) by {
            if less.contains('\n') {
                let k = choose|k: int| 0 <= k < less.len() && less[k] == '\n';
                assert(line[k + 1] == '\n');
            }
        }
        assert(less.len() > 0 ==> less.last() == line.last());
        if line.len() > 1 {
            assert(whole[1] == line[1]);
            assert(line.contains(line[1]));
        } else {
            assert(whole[1] == end[0]);
        }
        assert(whole.skip(1) =~= less + end + rest);
        lemma_line_then(less, end, rest);
        assert(line.push(' ') + line_ends_to_spaces(rest) =~= seq![line[0]] + (less.push(' ')
            + line_ends_to_spaces(rest)));
    }
}

/// What one part of a word adds: a literal its text, a variable its value or nothing, and a command
/// substitution stops the evaluation with its list.
pub proof fn law_one_part(text: Seq<char>, part: StringPart, state: StateView)
    ensures
        parts_step(text, Seq::empty(), state) == PartsStepView::Done(text),
        parts_step(text, seq![part], state) == match part {
            StringPart::Text(literal) => PartsStepView::Done(text + literal@),
            StringPart::Variable(name) => match state.get_var(name@) {
                Some(value) => PartsStepView::Done(text + value),
                None => PartsStepView::Done(text),
            },
            StringPart::Command(list) => PartsStepView::Substitute {
                list,
                text,
                rest: Seq::empty(),
            },
        },
{
    let rest = seq![part].drop_first();
    assert(rest =~= Seq::<StringPart>::empty());
    assert(text + Seq::<char>::empty() =~= text);
    assert(parts_step(text + part_text(part, state), rest, state) == PartsStepView::Done(
        text + part_text(part, state),
    ));
}

/// Parts are evaluated one after the other: those behind go on from what those before come to, or
/// wait behind the command substitution at which those before stop.
pub proof fn law_parts_one_after_the_other(
    text: Seq<char>,
    first: Seq<StringPart>,
    second: Seq<StringPart>,
    state: StateView,
)
    ensures
        parts_step(text, first + second, state) == match parts_step(text, first, state) {
            PartsStepView::Done(so_far) => parts_step(so_far, second, state),
            PartsStepView::Substitute { list, text: so_far, rest } => PartsStepView::Substitute {
                list,
                text: so_far,
                rest: rest + second,
            },
        },
    decreases first.len(),
{
    let all = first + second;
    if first.len() == 0 {
        assert(all =~= second);
    } else {
        assert(all.first() == first.first());
        assert(all.drop_first() =~= first.drop_first() + second);
        if !(first.first() is Command) {
            law_parts_one_after_the_other(
                text + part_text(first.first(), state),
                first.drop_first(),
                second,
                state,
            );
        }
    }
}

/// What one word of a command adds: a quoted one is one argument, whole; a bare one is as many as it
/// has words; and a command substitution in it stops the evaluation.
pub proof fn law_one_argument(done: Seq<Seq<char>>, arg: StringOrWord, state: StateView)
    ensures
        args_step(done, Seq::empty(), state) == ArgsStepView::Done(done),
        args_step(done, seq![arg], state) == match arg {
            StringOrWord::String(parts) => match parts_step(Seq::empty(), parts@, state) {
                PartsStepView::Done(text) => ArgsStepView::Done(done.push(text)),
                PartsStepView::Substitute { list, text, rest } => ArgsStepView::Substitute {
                    list,
                    done,
                    is_word: false,
                    text,
                    parts: rest,
                    rest: Seq::empty(),
                },
            },
            StringOrWord::Word(parts) => match parts_step(Seq::empty(), parts@, state) {
                PartsStepView::Done(text) => ArgsStepView::Done(done + words(text)),
                PartsStepView::Substitute { list, text, rest } => ArgsStepView::Substitute {
                    list,
                    done,
                    is_word: true,
                    text,
                    parts: rest,
                    rest: Seq::empty(),
                },
            },
        },
{
    let rest = seq![arg].drop_first();
    assert(rest =~= Seq::<StringOrWord>::empty());
    match parts_step(Seq::empty(), arg.parts(), state) {
        PartsStepView::Done(text) => {
            let made = done + arg_values(arg is Word, text);
            assert(args_step(made, rest, state) == ArgsStepView::Done(made));
            assert(done + seq![text] =~= done.push(text));
        },
        PartsStepView::Substitute { .. } => {},
    }
}

/// The words of a command are evaluated one after the other: those behind add to the arguments of
/// those before, or wait behind the command substitution at which those before stop.
pub proof fn law_arguments_one_after_the_other(
    done: Seq<Seq<char>>,
    first: Seq<StringOrWord>,
    second: Seq<StringOrWord>,
    state: StateView,
)
    ensures
        args_step(done, first + second, state) == match args_step(done, first, state) {
            ArgsStepView::Done(so_far) => args_step(so_far, second, state),
            ArgsStepView::Substitute { list, done: so_far, is_word, text, parts, rest } => {
                ArgsStepView::Substitute {
                    list,
                    done: so_far,
                    is_word,
                    text,
                    parts,
                    rest: rest + second,
                }
            },
        },
    decreases first.len(),
{
    let all = first + second;
    if first.len() == 0 {
        assert(all =~= second);
    } else {
        assert(all.first() == first.first());
        assert(all.drop_first() =~= first.drop_first() + second);
        match parts_step(Seq::empty(), first.first().parts(), state) {
            PartsStepView::Done(text) => {
                law_arguments_one_after_the_other(
                    done + arg_values(first.first() is Word, text),
                    first.drop_first(),
                    second,
                    state,
                );
            },
            PartsStepView::Substitute { .. } => {},
        }
    }
}

/// How the evaluation of a command's words goes on from the middle of one: once that word is whole it
/// adds what it would in one go, and then come the words behind it.
pub proof fn law_rest_of_a_word(
    done: Seq<Seq<char>>,
    is_word: bool,
    word: PartsStepView,
    rest: Seq<StringOrWord>,
    state: StateView,
)
    ensures
        args_step_in_word(done, is_word, word, rest, state) == match word {
            PartsStepView::Done(text) => if is_word {
                args_step(done + words(text), rest, state)
            } else {
                args_step(done.push(text), rest, state)
            },
            PartsStepView::Substitute { list, text, rest: parts } => ArgsStepView::Substitute {
                list,
                done,
                is_word,
                text,
                parts,
                rest,
            },
        },
{
    match word {
        PartsStepView::Done(text) => {
            assert(done + seq![text] =~= done.push(text));
        },
        PartsStepView::Substitute { .. } => {},
    }
}

} // verus!
