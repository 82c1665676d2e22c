//! Where the program of a command is found.
//!
//! Whether a path is a file only the caller can tell: a search stops at each path, names it, and
//! goes on once it is told.
use crate::platform::{absolute_path, is_absolute_in, joined_path, Platform};
use crate::state::{ShellState, StateView};
use crate::text::{
    contains_char, ends_with, has_suffix, law_split_of_joined, lemma_split_whole, split_on,
    split_text, texts,
};
use vstd::prelude::*;
use vstd::string::StringExecFns;

verus! {

/// The text that `str::to_uppercase` makes of a text.
pub uninterp spec fn upper_text(text: Seq<char>) -> Seq<char>;

/// Whether the text is made of ASCII characters alone.
pub open spec fn is_ascii_text(text: Seq<char>) -> bool {
    forall|i: int| 0 <= i < text.len() ==> (#[trigger] text[i]) as u32 <= 0x7f
}

/// The capital of an ASCII letter; any other character itself.
pub open spec fn ascii_capital(c: char) -> char {
    if 0x61 <= c as u32 <= 0x7a {
        (c as u32 - 0x20) as char
    } else {
        c
    }
}

/// The text in capitals: of ASCII text, each of `a` to `z` as its capital and the rest as it is.
pub open spec fn in_capitals(text: Seq<char>) -> Seq<char> {
    if is_ascii_text(text) {
        text.map_values(|c: char| ascii_capital(c))
    } else {
        upper_text(text)
    }
}

/// `str::to_uppercase` follows Unicode's case mappings; its result is named `upper_text`. In ASCII
/// text they raise `a` to `z` and keep the rest.
pub assume_specification[ str::to_uppercase ](text: &str) -> (res: std::string::String)
    ensures
        res@ == upper_text(text@),
        is_ascii_text(text@) ==> res@ == text@.map_values(|c: char| ascii_capital(c)),
;

/// How a command's name says where its program is.
#[derive(Debug, Clone, Copy, PartialEq, Eq, Structural)]
pub enum CommandLocation {
    /// It says nothing: it is empty.
    Nowhere,
    /// It is an absolute path.
    AsGiven,
    /// It is a path relative to the working directory.
    InWorkingDirectory,
    /// It is a bare name, to be searched for.
    InSearchPath,
}

/// How a command's name says where its program is, where `is_absolute` tells whether it is an
/// absolute path.
pub open spec fn location_of(name: Seq<char>, is_absolute: bool, windows: bool) -> CommandLocation {
    if name.len() == 0 {
        CommandLocation::Nowhere
    } else if is_absolute {
        CommandLocation::AsGiven
    } else if name.contains('/') || (windows && name.contains('\\')) {
        CommandLocation::InWorkingDirectory
    } else {
        CommandLocation::InSearchPath
    }
}

/// How a command's name says where its program is.
pub fn locate_command(name: &str, is_absolute: bool, windows: bool) -> (res: CommandLocation)
    ensures
        res == location_of(name@, is_absolute, windows),
{
    if name.is_empty() {
        CommandLocation::Nowhere
    } else if is_absolute {
        CommandLocation::AsGiven
    } else if contains_char(name, '/') || (windows && contains_char(name, '\\')) {
        CommandLocation::InWorkingDirectory
    } else {
        CommandLocation::InSearchPath
    }
}

/// The directories that are searched: the working directory, then those of `PATH`.
pub open spec fn search_dirs_of(state: StateView, windows: bool) -> Seq<Seq<char>> {
    seq![state.cwd] + match state.get_var("PATH"@) {
        Some(path) => split_on(
            path,
            if windows {
                ';'
            } else {
                ':'
            },
        ),
        None => Seq::empty(),
    }
}

/// The directories that are searched, in their order.
pub fn search_dirs(state: &ShellState, windows: bool) -> (dirs: Vec<String>)
    ensures
        texts(dirs@) == search_dirs_of(state@, windows),
{
    let mut dirs: Vec<String> = Vec::new();
    dirs.push(state.cwd().clone());
    proof {
        assert(texts(dirs@) =~= seq![state@.cwd]);
        assert(seq![state@.cwd] + Seq::<Seq<char>>::empty() =~= seq![state@.cwd]);
    }
    match state.get_var("PATH") {
        Some(path) => {
            let separator: char = if windows {
                ';'
            } else {
                ':'
            };
            let ghost first = dirs@;
            let mut folders = split_text(path.as_str(), separator);
            let ghost found = folders@;
            dirs.append(&mut folders);
            proof {
                assert(texts(dirs@) =~= texts(first) + texts(found));
            }
        },
        None => {},
    }
    dirs
}

/// The extensions that Windows tries, in capitals: those of `PATHEXT`, or the usual ones.
pub open spec fn known_extensions(state: StateView) -> Seq<Seq<char>> {
    let listed = match state.get_var("PATHEXT"@) {
        Some(text) => text,
        None => ".EXE;.CMD;.BAT;.COM"@,
    };
    split_on(listed, ';').map_values(|extension: Seq<char>| in_capitals(extension))
}

/// The extensions to try for a name: none where the name ends in one of them.
pub open spec fn extensions_for(name: Seq<char>, known: Seq<Seq<char>>) -> Option<Seq<Seq<char>>> {
    if exists|i: int| 0 <= i < known.len() && ends_with(name, #[trigger] known[i]) {
        None
    } else {
        Some(known)
    }
}

/// The extensions that Windows tries, in capitals.
pub fn path_extensions(state: &ShellState) -> (extensions: Vec<String>)
    ensures
        texts(extensions@) == known_extensions(state@),
{
    let listed: String = match state.get_var("PATHEXT") {
        Some(text) => text.clone(),
        None => ".EXE;.CMD;.BAT;.COM".to_string(),
    };
    let pieces = split_text(listed.as_str(), ';');
    let mut extensions: Vec<String> = Vec::new();
    let ghost all = known_extensions(state@);
    let mut i: usize = 0;
    while i < pieces.len()
        invariant
            i <= pieces@.len(),
            pieces@.len() == all.len(),
            forall|j: int| 0 <= j < pieces@.len() ==> all[j] == in_capitals(#[trigger] pieces@[j]@),
            texts(extensions@) == all.take(i as int),
        decreases pieces@.len() - i,
    {
        let ghost before = texts(extensions@);
        extensions.push(pieces[i].as_str().to_uppercase());
        i += 1;
        proof {
            assert(texts(extensions@) =~= before.push(all[i - 1]));
            assert(all.take(i as int) =~= all.take(i - 1).push(all[i - 1]));
        }
    }
    proof {
        assert(all.take(i as int) =~= all);
    }
    extensions
}

/// The extensions to try for a name: `None`, the name as it is, where it ends in one of them.
pub fn choose_extensions(name: &str, known: Vec<String>) -> (res: Option<Vec<String>>)
    ensures
        match res {
            Some(extensions) => extensions_for(name@, texts(known@)) == Some(texts(extensions@)),
            None => extensions_for(name@, texts(known@)) is None,
        },
{
    let mut i: usize = 0;
    while i < known.len()
        invariant
            i <= known@.len(),
            forall|j: int| 0 <= j < i ==> !ends_with(name@, #[trigger] texts(known@)[j]),
        decreases known@.len() - i,
    {
        if has_suffix(name, known[i].as_str()) {
            proof {
                assert(ends_with(name@, texts(known@)[i as int]));
            }
            return None;
        }
        i += 1;
    }
    Some(known)
}

/// The file names that are looked for.
pub open spec fn file_names_for(name: Seq<char>, extensions: Option<Seq<Seq<char>>>) -> Seq<
    Seq<char>,
> {
    match extensions {
        Some(extensions) => extensions.map_values(|extension: Seq<char>| name + extension),
        None => seq![name],
    }
}

/// The file names that are looked for: the name with each extension, or as it is.
pub fn file_names(name: &str, extensions: Option<Vec<String>>) -> (names: Vec<String>)
    ensures
        texts(names@) == file_names_for(
            name@,
            match extensions {
                Some(extensions) => Some(texts(extensions@)),
                None => None,
            },
        ),
{
    let mut names: Vec<String> = Vec::new();
    match extensions {
        Some(extensions) => {
            let ghost all = file_names_for(name@, Some(texts(extensions@)));
            let mut i: usize = 0;
            while i < extensions.len()
                invariant
                    i <= extensions@.len(),
                    all == file_names_for(name@, Some(texts(extensions@))),
                    texts(names@) == all.take(i as int),
                decreases extensions@.len() - i,
            {
                let ghost before = texts(names@);
                names.push(name.to_string().concat(extensions[i].as_str()));
                i += 1;
                proof {
                    assert(texts(names@) =~= before.push(all[i - 1]));
                    assert(all.take(i as int) =~= all.take(i - 1).push(all[i - 1]));
                }
            }
            proof {
                assert(all.take(i as int) =~= all);
            }
        },
        None => {
            names.push(name.to_string());
            proof {
                assert(texts(names@) =~= seq![name@]);
            }
        },
    }
    names
}

/// The paths of all files in all directories: directory by directory, each file in its turn.
pub open spec fn paths_in(separator: char, dirs: Seq<Seq<char>>, files: Seq<Seq<char>>) -> Seq<
    Seq<char>,
>
    decreases dirs.len(),
{
    if dirs.len() == 0 {
        Seq::empty()
    } else {
        paths_in(separator, dirs.drop_last(), files) + files.map_values(
            |file: Seq<char>| joined_path(separator, dirs.last(), file),
        )
    }
}

/// The paths of all files in one directory.
fn join_all(platform: &Platform, dir: &str, files: &Vec<String>) -> (paths: Vec<String>)
    ensures
        texts(paths@) == texts(files@).map_values(
            |file: Seq<char>| joined_path(platform@, dir@, file),
        ),
{
    let ghost all = texts(files@).map_values(|file: Seq<char>| joined_path(platform@, dir@, file));
    let mut paths: Vec<String> = Vec::new();
    let mut i: usize = 0;
    while i < files.len()
        invariant
            i <= files@.len(),
            all == texts(files@).map_values(
                |file: Seq<char>| joined_path(platform@, dir@, file),
            ),
            texts(paths@) == all.take(i as int),
        decreases files@.len() - i,
    {
        let ghost before = texts(paths@);
        paths.push(platform.join(dir, files[i].as_str()));
        i += 1;
        proof {
            assert(texts(paths@) =~= before.push(all[i - 1]));
            assert(all.take(i as int) =~= all.take(i - 1).push(all[i - 1]));
        }
    }
    proof {
        assert(all.take(i as int) =~= all);
    }
    paths
}

/// The paths that are tried: directory by directory, each file name in its turn.
pub fn candidate_paths(platform: &Platform, dirs: &Vec<String>, files: &Vec<String>) -> (paths: Vec<
    String,
>)
    ensures
        texts(paths@) == paths_in(platform@, texts(dirs@), texts(files@)),
{
    let ghost all = texts(dirs@);
    let mut paths: Vec<String> = Vec::new();
    let mut i: usize = 0;
    proof {
        assert(texts(paths@) =~= paths_in(platform@, all.take(0), texts(files@)));
    }
    while i < dirs.len()
        invariant
            i <= dirs@.len(),
            all == texts(dirs@),
            texts(paths@) == paths_in(platform@, all.take(i as int), texts(files@)),
        decreases dirs@.len() - i,
    {
        let ghost before = paths@;
        let mut more = join_all(platform, dirs[i].as_str(), files);
        let ghost added = more@;
        paths.append(&mut more);
        i += 1;
        proof {
            assert(texts(paths@) =~= texts(before) + texts(added));
            assert(all.take(i as int).drop_last() =~= all.take(i - 1));
            assert(all.take(i as int).last() == dirs@[i - 1]@);
        }
    }
    proof {
        assert(all.take(i as int) =~= all);
    }
    paths
}

/// Why no program was found.
#[derive(Debug, PartialEq, Eq)]
pub enum ResolveError {
    /// The command's name is empty.
    EmptyName,
    /// No program of this name was found.
    NotFound(String),
}

/// Why no program was found, as mathematical values.
#[verifier::ext_equal]
pub enum ResolveErrorView {
    EmptyName,
    NotFound(Seq<char>),
}

impl View for ResolveError {
    type V = ResolveErrorView;

    open spec fn view(&self) -> ResolveErrorView {
        match self {
            ResolveError::EmptyName => ResolveErrorView::EmptyName,
            ResolveError::NotFound(name) => ResolveErrorView::NotFound(name@),
        }
    }
}

impl ResolveErrorView {
    /// The line that tells the user.
    pub open spec fn message(self) -> Seq<char> {
        match self {
            ResolveErrorView::EmptyName => "command name was empty"@,
            ResolveErrorView::NotFound(name) => name + ": command not found"@,
        }
    }
}

impl ResolveError {
    /// The line that tells the user.
    pub fn message(&self) -> (text: String)
        ensures
            text@ == self@.message(),
    {
        match self {
            ResolveError::EmptyName => "command name was empty".to_string(),
            ResolveError::NotFound(name) => name.clone().concat(": command not found"),
        }
    }
}

/// Where the search for a program has got to.
pub enum ResolveStep {
    /// There is none.
    Failed(ResolveError),
    /// It is at this path.
    Found(String),
    /// Whether there is a file at the path that `search` is at, goes to `search`.
    Probe(SearchRun),
}

/// A search that waits to be told whether there is a file at `path`.
pub struct SearchRun {
    /// The name that is searched for.
    pub name: String,
    /// The path it is at.
    pub path: String,
    /// The paths behind it.
    pub rest: Vec<String>,
}

/// Where the search for a program has got to, as mathematical values.
#[verifier::ext_equal]
pub enum ResolveStepView {
    Failed(ResolveErrorView),
    Found(Seq<char>),
    Probe { name: Seq<char>, path: Seq<char>, rest: Seq<Seq<char>> },
}

impl View for ResolveStep {
    type V = ResolveStepView;

    open spec fn view(&self) -> ResolveStepView {
        match self {
            ResolveStep::Failed(error) => ResolveStepView::Failed(error@),
            ResolveStep::Found(path) => ResolveStepView::Found(path@),
            ResolveStep::Probe(search) => ResolveStepView::Probe {
                name: search.name@,
                path: search.path@,
                rest: texts(search.rest@),
            },
        }
    }
}

/// The search for `name` through `paths`.
pub open spec fn search_step(name: Seq<char>, paths: Seq<Seq<char>>) -> ResolveStepView {
    if paths.len() == 0 {
        ResolveStepView::Failed(ResolveErrorView::NotFound(name))
    } else {
        ResolveStepView::Probe { name, path: paths.first(), rest: paths.drop_first() }
    }
}

/// Begins to search for `name` through `paths`.
pub fn search_paths(name: String, paths: Vec<String>) -> (step: ResolveStep)
    ensures
        step@ == search_step(name@, texts(paths@)),
{
    if paths.len() == 0 {
        return ResolveStep::Failed(ResolveError::NotFound(name));
    }
    let mut rest = paths;
    let path = rest.remove(0);
    proof {
        assert(texts(rest@) =~= texts(paths@).drop_first());
    }
    ResolveStep::Probe(SearchRun { name, path, rest })
}

impl SearchRun {
    /// Goes on once it is known whether there is a file at `path`.
    pub fn probed(self, is_file: bool) -> (step: ResolveStep)
        ensures
            step@ == (if is_file {
                ResolveStepView::Found(self.path@)
            } else {
                search_step(self.name@, texts(self.rest@))
            }),
    {
        if is_file {
            ResolveStep::Found(self.path)
        } else {
            search_paths(self.name, self.rest)
        }
    }
}

/// The paths that are tried for a bare name.
pub open spec fn candidates_for(name: Seq<char>, state: StateView, separator: char) -> Seq<
    Seq<char>,
> {
    let windows = separator == '\\';
    let extensions = if windows {
        extensions_for(name, known_extensions(state))
    } else {
        None
    };
    paths_in(separator, search_dirs_of(state, windows), file_names_for(name, extensions))
}

/// The beginning of the search for the program of a command.
pub open spec fn resolve_step(name: Seq<char>, state: StateView, separator: char) -> ResolveStepView {
    match location_of(name, is_absolute_in(separator, name), separator == '\\') {
        CommandLocation::Nowhere => ResolveStepView::Failed(ResolveErrorView::EmptyName),
        CommandLocation::AsGiven => ResolveStepView::Found(name),
        CommandLocation::InWorkingDirectory => ResolveStepView::Found(
            joined_path(separator, state.cwd, name),
        ),
        CommandLocation::InSearchPath => search_step(name, candidates_for(name, state, separator)),
    }
}

/// Begins to look for the program of a command.
pub fn resolve_command_path(name: &str, state: &ShellState, platform: &Platform) -> (step:
    ResolveStep)
    ensures
        step@ == resolve_step(name@, state@, platform@),
{
    let windows: bool = platform.is_windows();
    match locate_command(name, platform.is_absolute(name), windows) {
        CommandLocation::Nowhere => ResolveStep::Failed(ResolveError::EmptyName),
        CommandLocation::AsGiven => ResolveStep::Found(name.to_string()),
        CommandLocation::InWorkingDirectory => ResolveStep::Found(
            platform.join(state.cwd().as_str(), name),
        ),
        CommandLocation::InSearchPath => {
            let dirs = search_dirs(state, windows);
            let extensions = if windows {
                choose_extensions(name, path_extensions(state))
            } else {
                None
            };
            let files = file_names(name, extensions);
            let paths = candidate_paths(platform, &dirs, &files);
            search_paths(name.to_string(), paths)
        },
    }
}

/// What a search comes to when `is_file` tells of each path whether there is a file.
pub open spec fn finished_search(step: ResolveStepView, is_file: spec_fn(Seq<char>) -> bool)
    -> ResolveStepView
    decreases
            (match step {
                ResolveStepView::Probe { rest, .. } => 1 + rest.len(),
                _ => 0,
            }),
{
    match step {
        ResolveStepView::Probe { name, path, rest } => if is_file(path) {
            ResolveStepView::Found(path)
        } else {
            finished_search(search_step(name, rest), is_file)
        },
        _ => step,
    }
}

/// A search finds the first of the paths at which there is a file, and fails only where there is
/// none at any.
pub proof fn law_search_finds_the_first_file(
    name: Seq<char>,
    paths: Seq<Seq<char>>,
    is_file: spec_fn(Seq<char>) -> bool,
)
    ensures
        match finished_search(search_step(name, paths), is_file) {
            ResolveStepView::Found(path) => exists|i: int|
                0 <= i < paths.len() && #[trigger] paths[i] == path && is_file(path) && forall|j: int|
                    0 <= j < i ==> !is_file(#[trigger] paths[j]),
            ResolveStepView::Failed(error) => error == ResolveErrorView::NotFound(name)
                && forall|i: int| 0 <= i < paths.len() ==> !is_file(#[trigger] paths[i]),
            ResolveStepView::Probe { .. } => false,
        },
    decreases paths.len(),
{
    if paths.len() > 0 {
        if is_file(paths[0]) {
            assert(paths[0] == paths.first());
        } else {
            let rest = paths.drop_first();
            law_search_finds_the_first_file(name, rest, is_file);
            match finished_search(search_step(name, rest), is_file) {
                ResolveStepView::Found(path) => {
                    let i = choose|i: int|
                        0 <= i < rest.len() && #[trigger] rest[i] == path && is_file(path)
                            && forall|j: int| 0 <= j < i ==> !is_file(#[trigger] rest[j]);
                    assert(paths[i + 1] == path);
                    assert forall|j: int| 0 <= j < i + 1 implies !is_file(#[trigger] paths[j]) by {
                        if j > 0 {
                            assert(rest[j - 1] == paths[j]);
                        }
                    }
                },
                ResolveStepView::Failed(_) => {
                    assert forall|i: int| 0 <= i < paths.len() implies !is_file(
                        #[trigger] paths[i],
                    ) by {
                        if i > 0 {
                            assert(rest[i - 1] == paths[i]);
                        }
                    }
                },
                ResolveStepView::Probe { .. } => {},
            }
        }
    }
}

/// Without `PATHEXT` Windows tries the usual extensions.
pub proof fn law_usual_extensions(state: StateView)
    requires
        state.get_var("PATHEXT"@) is None,
    ensures
        known_extensions(state) == seq![".EXE"@, ".CMD"@, ".BAT"@, ".COM"@],
{
    reveal_strlit(".EXE;.CMD;.BAT;.COM");
    reveal_strlit(".EXE");
    reveal_strlit(".CMD");
    reveal_strlit(".BAT");
    reveal_strlit(".COM");
    let last = ".COM"@;
    let two = ".BAT"@.push(';') + last;
    let three = ".CMD"@.push(';') + two;
    assert(".EXE;.CMD;.BAT;.COM"@ =~= ".EXE"@.push(';') + three);
    law_split_of_joined(".EXE"@, three, ';');
    law_split_of_joined(".CMD"@, two, ';');
    law_split_of_joined(".BAT"@, last, ';');
    lemma_split_whole(".EXE"@, ';');
    lemma_split_whole(".CMD"@, ';');
    lemma_split_whole(".BAT"@, ';');
    lemma_split_whole(".COM"@, ';');
    let pieces = seq![".EXE"@, ".CMD"@, ".BAT"@, ".COM"@];
    assert(split_on(".EXE;.CMD;.BAT;.COM"@, ';') =~= pieces);
    assert(in_capitals(".EXE"@) =~= ".EXE"@);
    assert(in_capitals(".CMD"@) =~= ".CMD"@);
    assert(in_capitals(".BAT"@) =~= ".BAT"@);
    assert(in_capitals(".COM"@) =~= ".COM"@);
    assert(known_extensions(state) =~= pieces);
}

/// A search that finds a file finds the same one when there are more paths behind.
proof fn lemma_more_paths_behind(
    name: Seq<char>,
    paths: Seq<Seq<char>>,
    more: Seq<Seq<char>>,
    is_file: spec_fn(Seq<char>) -> bool,
)
    requires
        finished_search(search_step(name, paths), is_file) is Found,
    ensures
        finished_search(search_step(name, paths + more), is_file) == finished_search(
            search_step(name, paths),
            is_file,
        ),
    decreases paths.len(),
{
    if paths.len() > 0 {
        assert((paths + more).first() == paths.first());
        assert((paths + more).drop_first() =~= paths.drop_first() + more);
        if !is_file(paths.first()) {
            lemma_more_paths_behind(name, paths.drop_first(), more, is_file);
        }
    }
}

/// The paths in more directories are those in the first ones, and then those in the others.
proof fn lemma_paths_in_more_dirs(
    separator: char,
    dirs: Seq<Seq<char>>,
    more: Seq<Seq<char>>,
    files: Seq<Seq<char>>,
)
    ensures
        paths_in(separator, dirs + more, files) == paths_in(separator, dirs, files) + paths_in(
            separator,
            more,
            files,
        ),
    decreases more.len(),
{
    let first = paths_in(separator, dirs, files);
    if more.len() == 0 {
        assert(dirs + more =~= dirs);
        assert(first + paths_in(separator, more, files) =~= first);
    } else {
        lemma_paths_in_more_dirs(separator, dirs, more.drop_last(), files);
        assert((dirs + more).drop_last() =~= dirs + more.drop_last());
        assert((dirs + more).last() == more.last());
        let here = files.map_values(|file: Seq<char>| joined_path(separator, more.last(), file));
        let middle = paths_in(separator, more.drop_last(), files);
        assert((first + middle) + here =~= first + (middle + here));
    }
}

/// Directories that are put behind those of `PATH` do not change where a program is found.
pub proof fn law_longer_path_keeps_what_is_found(
    name: Seq<char>,
    state: StateView,
    longer: StateView,
    more: Seq<char>,
    separator: char,
    is_file: spec_fn(Seq<char>) -> bool,
)
    requires
        state.get_var("PATH"@) is Some,
        longer.get_var("PATH"@) == Some(
            state.get_var("PATH"@)->0.push(
                if separator == '\\' {
                    ';'
                } else {
                    ':'
                },
            ) + more,
        ),
        longer.get_var("PATHEXT"@) == state.get_var("PATHEXT"@),
        longer.cwd == state.cwd,
        finished_search(resolve_step(name, state, separator), is_file) is Found,
    ensures
        finished_search(resolve_step(name, longer, separator), is_file) == finished_search(
            resolve_step(name, state, separator),
            is_file,
        ),
{
    let windows = separator == '\\';
    let between = if windows {
        ';'
    } else {
        ':'
    };
    let path = state.get_var("PATH"@)->0;
    law_split_of_joined(path, more, between);
    let dirs = search_dirs_of(state, windows);
    let others = split_on(more, between);
    assert(search_dirs_of(longer, windows) =~= dirs + others);
    let files = file_names_for(
        name,
        if windows {
            extensions_for(name, known_extensions(state))
        } else {
            None
        },
    );
    lemma_paths_in_more_dirs(separator, dirs, others, files);
    if location_of(name, is_absolute_in(separator, name), windows) is InSearchPath {
        lemma_more_paths_behind(
            name,
            paths_in(separator, dirs, files),
            paths_in(separator, others, files),
            is_file,
        );
    }
}

/// The paths go through the directories in their order, and in each through all of the files: file
/// `f` of directory `d` is tried in its place.
pub proof fn law_paths_go_directory_by_directory(
    separator: char,
    dirs: Seq<Seq<char>>,
    files: Seq<Seq<char>>,
    d: int,
    f: int,
)
    requires
        0 <= d < dirs.len(),
        0 <= f < files.len(),
    ensures
        paths_in(separator, dirs, files).len() == dirs.len() * files.len(),
        0 <= d * files.len() + f < dirs.len() * files.len(),
        paths_in(separator, dirs, files)[d * files.len() + f] == joined_path(
            separator,
            dirs[d],
            files[f],
        ),
    decreases dirs.len(),
{
    let n = files.len() as int;
    let m = dirs.len() - 1;
    lemma_path_count(separator, dirs, files);
    lemma_path_count(separator, dirs.drop_last(), files);
    assert((m + 1) * n == m * n + n) by (nonlinear_arith);
    if d < m {
        law_paths_go_directory_by_directory(separator, dirs.drop_last(), files, d, f);
        assert(dirs.drop_last()[d] == dirs[d]);
    } else {
        assert(0 <= m * n) by (nonlinear_arith)
            requires
                0 <= m,
                0 <= n,
        ;
    }
}

proof fn lemma_path_count(separator: char, dirs: Seq<Seq<char>>, files: Seq<Seq<char>>)
    ensures
        paths_in(separator, dirs, files).len() == dirs.len() * files.len(),
    decreases dirs.len(),
{
    let n = files.len() as int;
    let m = dirs.len() as int;
    if m == 0 {
        assert(m * n == 0) by (nonlinear_arith)
            requires
                m == 0,
        ;
    } else {
        lemma_path_count(separator, dirs.drop_last(), files);
        assert(m * n == (m - 1) * n + n) by (nonlinear_arith);
    }
}

/// Where a program is looked for, by the name of its command: nowhere without a name, at an absolute
/// path itself, in the working directory where the name holds a path separator, and else in one
/// directory after the other.
pub proof fn law_name_says_where_to_look(name: Seq<char>, state: StateView, separator: char)
    ensures
        name.len() == 0 ==> resolve_step(name, state, separator) == ResolveStepView::Failed(
            ResolveErrorView::EmptyName,
        ),
        name.len() > 0 && is_absolute_in(separator, name) ==> resolve_step(name, state, separator)
            == ResolveStepView::Found(name),
        name.len() > 0 && !is_absolute_in(separator, name) && (name.contains('/') || separator
            == '\\' && name.contains('\\')) ==> resolve_step(name, state, separator)
            == ResolveStepView::Found(joined_path(separator, state.cwd, name)),
        name.len() > 0 && !is_absolute_in(separator, name) && !name.contains('/') && !(separator
            == '\\' && name.contains('\\')) ==> resolve_step(name, state, separator) == search_step(
            name,
            candidates_for(name, state, separator),
        ),
        separator == '/' ==> is_absolute_in(separator, name) == (name.len() > 0 && name[0] == '/'),
        separator != '/' ==> is_absolute_in(separator, name) == absolute_path(separator, name),
{
}

/// A search looks at its paths one after the other, and at each before it gives up.
pub proof fn law_search_looks_at_each_path(
    name: Seq<char>,
    path: Seq<char>,
    rest: Seq<Seq<char>>,
)
    ensures
        search_step(name, seq![path] + rest) == (ResolveStepView::Probe { name, path, rest }),
        search_step(name, Seq::empty()) == ResolveStepView::Failed(
            ResolveErrorView::NotFound(name),
        ),
{
    assert((seq![path] + rest).drop_first() =~= rest);
}

/// On Unix a bare name is looked for in the working directory, then in each directory of `PATH` in
/// its order, under the name itself.
pub proof fn law_candidates_on_unix(name: Seq<char>, state: StateView, i: int)
    ensures
        ({
            let tried = candidates_for(name, state, '/');
            match state.get_var("PATH"@) {
                None => tried == seq![joined_path('/', state.cwd, name)],
                Some(path) => {
                    &&& tried.len() == 1 + split_on(path, ':').len()
                    &&& tried[0] == joined_path('/', state.cwd, name)
                    &&& 0 <= i < split_on(path, ':').len() ==> tried[1 + i] == joined_path(
                        '/',
                        split_on(path, ':')[i],
                        name,
                    )
                },
            }
        }),
{
    let dirs = search_dirs_of(state, false);
    let files = seq![name];
    assert(dirs[0] == state.cwd);
    law_paths_go_directory_by_directory('/', dirs, files, 0, 0);
    assert(dirs.len() * files.len() == dirs.len()) by (nonlinear_arith)
        requires
            files.len() == 1,
    ;
    match state.get_var("PATH"@) {
        None => {
            assert(dirs.len() == 1);
            assert(candidates_for(name, state, '/') =~= seq![joined_path('/', state.cwd, name)]);
        },
        Some(path) => {
            if 0 <= i < split_on(path, ':').len() {
                law_paths_go_directory_by_directory('/', dirs, files, 1 + i, 0);
                assert((1 + i) * files.len() == 1 + i) by (nonlinear_arith)
                    requires
                        files.len() == 1,
                ;
                assert(dirs[1 + i] == split_on(path, ':')[i]);
            }
        },
    }
}

/// On Windows a bare name is looked for in the working directory, then in each directory of `PATH`
/// in its order, in each under the name with one extension of `PATHEXT` after the other; under the
/// name itself where it ends in one of these.
pub proof fn law_candidates_on_windows(
    name: Seq<char>,
    state: StateView,
    listed: Seq<Seq<char>>,
    extensions: Seq<char>,
    d: int,
    f: int,
)
    requires
        listed == match state.get_var("PATH"@) {
            Some(path) => split_on(path, ';'),
            None => Seq::empty(),
        },
        state.get_var("PATHEXT"@) == Some(extensions) || state.get_var("PATHEXT"@) is None
            && extensions == ".EXE;.CMD;.BAT;.COM"@,
        0 <= d < 1 + listed.len(),
        0 <= f < split_on(extensions, ';').len(),
    ensures
        ({
            let tried = candidates_for(name, state, '\\');
            let pieces = split_on(extensions, ';');
            let n = pieces.len() as int;
            let dir = if d == 0 {
                state.cwd
            } else {
                listed[d - 1]
            };
            if exists|k: int| 0 <= k < n && ends_with(name, in_capitals(#[trigger] pieces[k])) {
                &&& tried.len() == 1 + listed.len()
                &&& tried[d] == joined_path('\\', dir, name)
            } else {
                &&& tried.len() == (1 + listed.len()) * n
                &&& 0 <= d * n + f < tried.len()
                &&& tried[d * n + f] == joined_path('\\', dir, name + in_capitals(pieces[f]))
            }
        }),
{
    let pieces = split_on(extensions, ';');
    let known = known_extensions(state);
    let dirs = search_dirs_of(state, true);
    assert(known.len() == pieces.len());
    assert forall|k: int| 0 <= k < pieces.len() implies #[trigger] known[k] == in_capitals(
        pieces[k],
    ) by {}
    let named = exists|k: int|
        0 <= k < pieces.len() && ends_with(name, in_capitals(#[trigger] pieces[k]));
    if named {
        let k = choose|k: int|
            0 <= k < pieces.len() && ends_with(name, in_capitals(#[trigger] pieces[k]));
        assert(ends_with(name, known[k]));
        let files = seq![name];
        law_paths_go_directory_by_directory('\\', dirs, files, d, 0);
        assert(dirs.len() * files.len() == dirs.len()) by (nonlinear_arith)
            requires
                files.len() == 1,
        ;
        assert(d * files.len() == d) by (nonlinear_arith)
            requires
                files.len() == 1,
        ;
    } else {
        assert forall|k: int| 0 <= k < known.len() implies !ends_with(name, #[trigger] known[k]) by {
            assert(known[k] == in_capitals(pieces[k]));
        }
        let files = file_names_for(name, Some(known));
        assert(files[f] == name + in_capitals(pieces[f]));
        law_paths_go_directory_by_directory('\\', dirs, files, d, f);
    }
}

/// Capitals of ASCII text: as many characters, each of `a` to `z` as the letter that is 32 before it,
/// and every other as it is. Of other text they are what Unicode says.
pub proof fn law_capitals(text: Seq<char>)
    ensures
        (forall|i: int| 0 <= i < text.len() ==> (#[trigger] text[i]) as u32 <= 0x7f) ==> {
            &&& in_capitals(text).len() == text.len()
            &&& forall|i: int|
                0 <= i < text.len() ==> (#[trigger] in_capitals(text)[i]) as u32 == if 'a' as u32
                    <= text[i] as u32 <= 'z' as u32 {
                    text[i] as u32 - 32
                } else {
                    text[i] as int
                }
        },
        !(forall|i: int| 0 <= i < text.len() ==> (#[trigger] text[i]) as u32 <= 0x7f)
            ==> in_capitals(text) == upper_text(text),
{
}

/// What the user is told when no program is found.
pub proof fn law_messages(name: Seq<char>)
    ensures
        ResolveErrorView::EmptyName.message() == "command name was empty"@,
        ResolveErrorView::NotFound(name).message() == name + ": command not found"@,
{
}

/// The directories that are searched: first the working directory, then every directory of `PATH` in
/// its order, which `;` separates on Windows and `:` elsewhere.
pub proof fn law_directories_in_their_order(state: StateView, windows: bool)
    ensures
        ({
            let dirs = search_dirs_of(state, windows);
            &&& dirs.len() > 0
            &&& dirs[0] == state.cwd
            &&& state.get_var("PATH"@) is None ==> dirs.len() == 1
            &&& state.get_var("PATH"@) matches Some(path) ==> dirs.skip(1) == split_on(
                path,
                if windows {
                    ';'
                } else {
                    ':'
                },
            )
        }),
{
    match state.get_var("PATH"@) {
        Some(path) => {
            let separator = if windows {
                ';'
            } else {
                ':'
            };
            assert(search_dirs_of(state, windows).skip(1) =~= split_on(path, separator));
        },
        None => {},
    }
}

/// The file names that are looked for: the name with every extension in its turn, or as it is where
/// there are none to try, which is so where it ends in one of them.
pub proof fn law_every_extension_is_tried(name: Seq<char>, known: Seq<Seq<char>>, k: int)
    ensures
        file_names_for(name, None) == seq![name],
        file_names_for(name, Some(known)).len() == known.len(),
        0 <= k < known.len() ==> file_names_for(name, Some(known))[k] == name + known[k],
        0 <= k < known.len() && ends_with(name, known[k]) ==> extensions_for(name, known) is None,
        (forall|i: int| 0 <= i < known.len() ==> !ends_with(name, #[trigger] known[i]))
            ==> extensions_for(name, known) == Some(known),
{
}

/// How a command's name says where its program is.
pub proof fn law_location_of_a_name(name: Seq<char>, is_absolute: bool, windows: bool)
    ensures
        location_of(name, is_absolute, windows) is Nowhere <==> name.len() == 0,
        location_of(name, is_absolute, windows) is AsGiven <==> name.len() > 0 && is_absolute,
        location_of(name, is_absolute, windows) is InWorkingDirectory <==> name.len() > 0
            && !is_absolute && (name.contains('/') || windows && name.contains('\\')),
{
}

} // verus!
