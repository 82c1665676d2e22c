//! The parsed form of a command line.
use vstd::prelude::*;

verus! {

/// Items separated by `;` or `&`, in the order they are written.
#[derive(Debug, PartialEq, Eq)]
pub struct SequentialList {
    pub items: Vec<SequentialListItem>,
}

/// One item of a list; `is_async` when it is followed by `&`.
#[derive(Debug, PartialEq, Eq)]
pub struct SequentialListItem {
    pub is_async: bool,
    pub sequence: Sequence,
}

/// What one item of a list runs.
#[derive(Debug, PartialEq, Eq)]
pub enum Sequence {
    /// `export NAME=value`
    EnvVar(EnvVar),
    /// `NAME=value`
    ShellVar(EnvVar),
    /// `name arg arg`
    Command(Command),
    /// `a && b`, `a || b`
    BooleanList(Box<BooleanList>),
    /// `a | b`
    Pipeline(Box<Pipeline>),
    /// `(a; b)`
    Subshell(Box<SequentialList>),
}

/// A command with the variables set for it alone and its words, the command's name among them.
#[derive(Debug, PartialEq, Eq)]
pub struct Command {
    pub env_vars: Vec<EnvVar>,
    pub args: Vec<StringOrWord>,
}

/// A variable's name and the value it is to get.
#[derive(Debug, PartialEq, Eq)]
pub struct EnvVar {
    pub name: String,
    pub value: StringOrWord,
}

/// A word as it is written: quoted, or bare and so split at spaces once it is evaluated.
#[derive(Debug, PartialEq, Eq)]
pub enum StringOrWord {
    Word(Vec<StringPart>),
    String(Vec<StringPart>),
}

/// A part of a word: literal text, `$NAME` or `$(list)`.
#[derive(Debug, PartialEq, Eq)]
pub enum StringPart {
    Text(String),
    Variable(String),
    Command(SequentialList),
}

/// `current op next`, where `next` may be a boolean list again.
#[derive(Debug, PartialEq, Eq)]
pub struct BooleanList {
    pub current: Sequence,
    pub op: BooleanListOperator,
    pub next: Sequence,
}

/// `&&` or `||`
#[derive(Debug, Clone, Copy, PartialEq, Eq, Structural)]
pub enum BooleanListOperator {
    And,
    Or,
}

/// `current | next`, where `next` may be a pipeline again.
#[derive(Debug, PartialEq, Eq)]
pub struct Pipeline {
    pub current: Sequence,
    pub next: Sequence,
}

impl BooleanListOperator {
    /// `&&` goes on after success, `||` after failure.
    pub open spec fn moves_next(self, exit_code: i32) -> bool {
        match self {
            BooleanListOperator::And => exit_code == 0,
            BooleanListOperator::Or => exit_code != 0,
        }
    }

    /// Whether what follows the operator runs when what precedes it ended with `exit_code`.
    pub fn moves_next_for_exit_code(&self, exit_code: i32) -> (res: bool)
        ensures
            res == self.moves_next(exit_code),
    {
        match self {
            BooleanListOperator::And => exit_code == 0,
            BooleanListOperator::Or => exit_code != 0,
        }
    }
}

/// The commands of a pipeline, from the first to the last.
pub open spec fn pipeline_elements(pipeline: Pipeline) -> Seq<Sequence>
    decreases pipeline,
{
    seq![pipeline.current] + match pipeline.next {
        Sequence::Pipeline(rest) => pipeline_elements(*rest),
        last => seq![last],
    }
}

impl Pipeline {
    /// The commands of the pipeline, from the first to the last.
    pub fn into_vec(self) -> (sequences: Vec<Sequence>)
        ensures
            sequences@ == pipeline_elements(self),
            sequences@.len() >= 2,
        decreases self,
    {
        let Pipeline { current, next } = self;
        let mut sequences: Vec<Sequence> = Vec::new();
        sequences.push(current);
        match next {
            Sequence::Pipeline(rest) => {
                let mut others = rest.into_vec();
                sequences.append(&mut others);
            },
            last => {
                sequences.push(last);
            },
        }
        sequences
    }
}

impl StringOrWord {
    /// The parts the word is made of.
    pub open spec fn parts(self) -> Seq<StringPart> {
        match self {
            StringOrWord::Word(parts) => parts@,
            StringOrWord::String(parts) => parts@,
        }
    }

    /// The parts the word is made of, quoted or not.
    pub fn into_parts(self) -> (parts: Vec<StringPart>)
        ensures
            parts@ == self.parts(),
    {
        match self {
            StringOrWord::Word(parts) => parts,
            StringOrWord::String(parts) => parts,
        }
    }
}

/// The commands of `first | rest` are `first` and then all of the commands of `rest`, and those of
/// `first | last` are the two.
pub proof fn law_pipeline_has_all_of_its_commands(
    first: Sequence,
    last: Sequence,
    rest: Box<Pipeline>,
)
    ensures
        pipeline_elements(Pipeline { current: first, next: Sequence::Pipeline(rest) }) == seq![first]
            + pipeline_elements(*rest),
        !(last is Pipeline) ==> pipeline_elements(Pipeline { current: first, next: last }) == seq![
            first,
            last,
        ],
{
    if !(last is Pipeline) {
        assert(pipeline_elements(Pipeline { current: first, next: last }) =~= seq![first, last]);
    }
}

/// The pipeline that is written as `commands`, one after the other.
pub open spec fn is_pipeline_of(pipeline: Pipeline, commands: Seq<Sequence>) -> bool
    decreases commands.len(),
{
    &&& commands.len() >= 2
    &&& pipeline.current == commands[0]
    &&& if commands.len() == 2 {
        pipeline.next == commands[1] && !(commands[1] is Pipeline)
    } else {
        pipeline.next matches Sequence::Pipeline(rest) && is_pipeline_of(*rest, commands.skip(1))
    }
}

/// A pipeline that is written as so many commands has exactly these, in that order.
pub proof fn law_pipeline_has_the_commands_written(pipeline: Pipeline, commands: Seq<Sequence>)
    requires
        is_pipeline_of(pipeline, commands),
    ensures
        pipeline_elements(pipeline) == commands,
    decreases commands.len(),
{
    if commands.len() == 2 {
        assert(pipeline_elements(pipeline) =~= commands);
    } else {
        match pipeline.next {
            Sequence::Pipeline(rest) => {
                law_pipeline_has_the_commands_written(*rest, commands.skip(1));
                assert(pipeline_elements(pipeline) =~= commands);
            },
            _ => {},
        }
    }
}

/// `&&` goes on after the exit code zero and no other; `||` after every other and not after zero.
pub proof fn law_operators_go_on(exit_code: i32)
    ensures
        BooleanListOperator::And.moves_next(exit_code) <==> exit_code == 0,
        BooleanListOperator::Or.moves_next(exit_code) <==> exit_code != 0,
{
}

/// A word has all of the parts it is written with, quoted or not.
pub proof fn law_word_has_all_of_its_parts(parts: Vec<StringPart>)
    ensures
        StringOrWord::Word(parts).parts() == parts@,
        StringOrWord::String(parts).parts() == parts@,
{
}

} // verus!
