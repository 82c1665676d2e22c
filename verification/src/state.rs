//! The state a shell carries along: its variables and its working directory.
use crate::text::same_text;
use vstd::prelude::*;

verus! {

/// Whether entry `i` is for `name`.
pub open spec fn entry_is(entries: Seq<(String, String)>, i: int, name: Seq<char>) -> bool {
    0 <= i < entries.len() && entries[i].0@ == name
}

/// Whether every name has at most one entry.
pub open spec fn names_differ(entries: Seq<(String, String)>) -> bool {
    forall|i: int, j: int|
        0 <= i < j < entries.len() ==> #[trigger] entries[i].0@ != #[trigger] entries[j].0@
}

/// The mapping from names to values that a list of entries stands for.
pub open spec fn entry_map(entries: Seq<(String, String)>) -> Map<Seq<char>, Seq<char>> {
    Map::new(
        |name: Seq<char>| exists|i: int| entry_is(entries, i, name),
        |name: Seq<char>| entries[choose|i: int| entry_is(entries, i, name)].1@,
    )
}

/// Variables by name. No name occurs twice.
pub struct Variables {
    entries: Vec<(String, String)>,
}

impl View for Variables {
    type V = Map<Seq<char>, Seq<char>>;

    closed spec fn view(&self) -> Map<Seq<char>, Seq<char>> {
        entry_map(self.entries@)
    }
}

proof fn lemma_entry(entries: Seq<(String, String)>, i: int)
    requires
        names_differ(entries),
        0 <= i < entries.len(),
    ensures
        entry_map(entries).contains_key(entries[i].0@),
        entry_map(entries)[entries[i].0@] == entries[i].1@,
{
    let name = entries[i].0@;
    assert(entry_is(entries, i, name));
    let k = choose|k: int| entry_is(entries, k, name);
    assert(entry_is(entries, k, name));
    assert(k == i);
}

/// Replacing the value of an entry sets that name.
proof fn lemma_replace(entries: Seq<(String, String)>, i: int, value: String)
    requires
        names_differ(entries),
        0 <= i < entries.len(),
    ensures
        names_differ(entries.update(i, (entries[i].0, value))),
        entry_map(entries.update(i, (entries[i].0, value))) == entry_map(entries).insert(
            entries[i].0@,
            value@,
        ),
{
    let after = entries.update(i, (entries[i].0, value));
    let name = entries[i].0@;
    lemma_entry(entries, i);
    lemma_entry(after, i);
    assert forall|n: Seq<char>| entry_map(after).contains_key(n) == entry_map(entries).insert(
        name,
        value@,
    ).contains_key(n) by {
        if entry_map(after).contains_key(n) {
            let k = choose|k: int| entry_is(after, k, n);
            assert(entry_is(entries, k, n));
        }
        if entry_map(entries).contains_key(n) {
            let k = choose|k: int| entry_is(entries, k, n);
            assert(entry_is(after, k, n));
        }
    }
    assert forall|n: Seq<char>| entry_map(after).contains_key(n) && n != name implies entry_map(
        after,
    )[n] == entry_map(entries)[n] by {
        let k = choose|k: int| entry_is(after, k, n);
        lemma_entry(after, k);
        lemma_entry(entries, k);
    }
    assert(entry_map(after) =~= entry_map(entries).insert(name, value@));
}

/// An entry under a new name at the end sets that name.
proof fn lemma_extend(entries: Seq<(String, String)>, name: String, value: String)
    requires
        names_differ(entries),
        forall|i: int| 0 <= i < entries.len() ==> (#[trigger] entries[i]).0@ != name@,
    ensures
        names_differ(entries.push((name, value))),
        entry_map(entries.push((name, value))) == entry_map(entries).insert(name@, value@),
{
    let after = entries.push((name, value));
    lemma_entry(after, entries.len() as int);
    assert forall|n: Seq<char>| entry_map(after).contains_key(n) == entry_map(entries).insert(
        name@,
        value@,
    ).contains_key(n) by {
        if entry_map(after).contains_key(n) {
            let k = choose|k: int| entry_is(after, k, n);
            if k < entries.len() {
                assert(entry_is(entries, k, n));
            }
        }
        if entry_map(entries).contains_key(n) {
            let k = choose|k: int| entry_is(entries, k, n);
            assert(entry_is(after, k, n));
        }
    }
    assert forall|n: Seq<char>| entry_map(after).contains_key(n) && n != name@ implies entry_map(
        after,
    )[n] == entry_map(entries)[n] by {
        let k = choose|k: int| entry_is(after, k, n);
        lemma_entry(after, k);
        lemma_entry(entries, k);
    }
    assert(entry_map(after) =~= entry_map(entries).insert(name@, value@));
}

/// Taking an entry out unsets its name.
proof fn lemma_take_out(entries: Seq<(String, String)>, i: int)
    requires
        names_differ(entries),
        0 <= i < entries.len(),
    ensures
        names_differ(entries.remove(i)),
        entry_map(entries.remove(i)) == entry_map(entries).remove(entries[i].0@),
{
    let after = entries.remove(i);
    let name = entries[i].0@;
    assert forall|n: Seq<char>| entry_map(after).contains_key(n) == entry_map(entries).remove(
        name,
    ).contains_key(n) by {
        if entry_map(after).contains_key(n) {
            let k = choose|k: int| entry_is(after, k, n);
            let old_k = if k < i {
                k
            } else {
                k + 1
            };
            assert(entry_is(entries, old_k, n));
        }
        if entry_map(entries).contains_key(n) && n != name {
            let k = choose|k: int| entry_is(entries, k, n);
            let new_k = if k < i {
                k
            } else {
                k - 1
            };
            assert(entry_is(after, new_k, n));
        }
    }
    assert forall|n: Seq<char>| entry_map(after).contains_key(n) implies entry_map(after)[n]
        == entry_map(entries)[n] by {
        let k = choose|k: int| entry_is(after, k, n);
        let old_k = if k < i {
            k
        } else {
            k + 1
        };
        lemma_entry(after, k);
        lemma_entry(entries, old_k);
    }
    assert(entry_map(after) =~= entry_map(entries).remove(name));
}

impl Variables {
    #[verifier::type_invariant]
    spec fn well_formed(self) -> bool {
        names_differ(self.entries@)
    }

    /// No variables.
    pub fn new() -> (res: Self)
        ensures
            res@ == Map::<Seq<char>, Seq<char>>::empty(),
    {
        let res = Variables { entries: Vec::new() };
        proof {
            assert(res@ =~= Map::<Seq<char>, Seq<char>>::empty());
        }
        res
    }

    /// Where the entry for `name` is.
    fn position(&self, name: &str) -> (res: Option<usize>)
        ensures
            match res {
                Some(i) => entry_is(self.entries@, i as int, name@),
                None => forall|i: int|
                    0 <= i < self.entries@.len() ==> (#[trigger] self.entries@[i]).0@ != name@,
            },
    {
        let mut i: usize = 0;
        while i < self.entries.len()
            invariant
                i <= self.entries@.len(),
                forall|j: int| 0 <= j < i ==> (#[trigger] self.entries@[j]).0@ != name@,
            decreases self.entries@.len() - i,
        {
            if same_text(self.entries[i].0.as_str(), name) {
                return Some(i);
            }
            i += 1;
        }
        None
    }

    /// The value of `name`, if it is set.
    pub fn get(&self, name: &str) -> (res: Option<&String>)
        ensures
            match res {
                Some(value) => self@.contains_key(name@) && value@ == self@[name@],
                None => !self@.contains_key(name@),
            },
    {
        proof {
            use_type_invariant(self);
        }
        match self.position(name) {
            Some(i) => {
                proof {
                    lemma_entry(self.entries@, i as int);
                }
                Some(&self.entries[i].1)
            },
            None => None,
        }
    }

    /// Sets `name` to `value`.
    pub fn insert(&mut self, name: String, value: String)
        ensures
            final(self)@ == old(self)@.insert(name@, value@),
    {
        proof {
            use_type_invariant(&*self);
        }
        let at = self.position(name.as_str());
        let mut entries: Vec<(String, String)> = Vec::new();
        std::mem::swap(&mut entries, &mut self.entries);
        match at {
            Some(i) => {
                proof {
                    lemma_replace(entries@, i as int, value);
                }
                let same = entries[i].0.clone();
                entries.set(i, (same, value));
            },
            None => {
                proof {
                    lemma_extend(entries@, name, value);
                }
                entries.push((name, value));
            },
        }
        self.entries = entries;
    }

    /// Unsets `name`.
    pub fn remove(&mut self, name: &str)
        ensures
            final(self)@ == old(self)@.remove(name@),
    {
        proof {
            use_type_invariant(&*self);
        }
        let at = self.position(name);
        let mut entries: Vec<(String, String)> = Vec::new();
        std::mem::swap(&mut entries, &mut self.entries);
        match at {
            Some(i) => {
                proof {
                    lemma_take_out(entries@, i as int);
                }
                entries.remove(i);
            },
            None => {
                proof {
                    assert(!entry_map(entries@).contains_key(name@));
                    assert(entry_map(entries@).remove(name@) =~= entry_map(entries@));
                }
            },
        }
        self.entries = entries;
    }

    /// The names with their values, each name once, in no particular order.
    pub fn pairs(&self) -> (res: Vec<(String, String)>)
        ensures
            names_differ(res@),
            entry_map(res@) == self@,
            forall|i: int, j: int|
                0 <= i < j < res@.len() ==> #[trigger] res@[i].0@ != #[trigger] res@[j].0@,
            forall|i: int|
                0 <= i < res@.len() ==> self@.contains_key(#[trigger] res@[i].0@)
                    && self@[res@[i].0@] == res@[i].1@,
            forall|name: Seq<char>| #[trigger]
                self@.contains_key(name) ==> exists|i: int|
                    0 <= i < res@.len() && #[trigger] res@[i].0@ == name,
    {
        proof {
            use_type_invariant(self);
        }
        let mut res: Vec<(String, String)> = Vec::new();
        let mut i: usize = 0;
        while i < self.entries.len()
            invariant
                i <= self.entries@.len(),
                res@ == self.entries@.take(i as int),
            decreases self.entries@.len() - i,
        {
            res.push((self.entries[i].0.clone(), self.entries[i].1.clone()));
            i += 1;
        }
        proof {
            assert(self.entries@.take(i as int) =~= self.entries@);
            assert forall|k: int| 0 <= k < res@.len() implies self@.contains_key(
                #[trigger] res@[k].0@,
            ) && self@[res@[k].0@] == res@[k].1@ by {
                lemma_entry(res@, k);
            }
            assert forall|name: Seq<char>| #[trigger] self@.contains_key(name) implies exists|k: int|
                0 <= k < res@.len() && #[trigger] res@[k].0@ == name by {
                let k = choose|k: int| entry_is(res@, k, name);
                assert(res@[k].0@ == name);
            }
        }
        res
    }
}

impl Clone for Variables {
    fn clone(&self) -> (res: Self)
        ensures
            res@ == self@,
    {
        Variables { entries: self.pairs() }
    }
}

/// A change that a command makes to the state of the shell that runs it.
#[derive(Debug, PartialEq, Eq)]
pub enum EnvChange {
    /// Set a variable that commands get to see.
    SetEnvVar(String, String),
    /// Set a variable of the shell alone.
    SetShellVar(String, String),
    /// Change the working directory.
    Cd(String),
}

/// What an `EnvChange` says, as mathematical values.
#[verifier::ext_equal]
pub enum EnvChangeView {
    SetEnvVar(Seq<char>, Seq<char>),
    SetShellVar(Seq<char>, Seq<char>),
    Cd(Seq<char>),
}

impl View for EnvChange {
    type V = EnvChangeView;

    open spec fn view(&self) -> EnvChangeView {
        match self {
            EnvChange::SetEnvVar(name, value) => EnvChangeView::SetEnvVar(name@, value@),
            EnvChange::SetShellVar(name, value) => EnvChangeView::SetShellVar(name@, value@),
            EnvChange::Cd(dir) => EnvChangeView::Cd(dir@),
        }
    }
}

/// What each change of a list says.
pub open spec fn changes_of(changes: Seq<EnvChange>) -> Seq<EnvChangeView> {
    changes.map_values(|change: EnvChange| change@)
}

/// The state of a shell.
pub struct ShellState {
    /// The variables that are passed on to commands.
    env_vars: Variables,
    /// The variables that only the shell itself evaluates.
    shell_vars: Variables,
    cwd: String,
}

/// The state of a shell, as mathematical values.
#[verifier::ext_equal]
pub struct StateView {
    pub env_vars: Map<Seq<char>, Seq<char>>,
    pub shell_vars: Map<Seq<char>, Seq<char>>,
    pub cwd: Seq<char>,
}

impl View for ShellState {
    type V = StateView;

    closed spec fn view(&self) -> StateView {
        StateView { env_vars: self.env_vars@, shell_vars: self.shell_vars@, cwd: self.cwd@ }
    }
}

impl StateView {
    /// The value of `name`: that of the environment variable before that of the shell variable.
    pub open spec fn get_var(self, name: Seq<char>) -> Option<Seq<char>> {
        if self.env_vars.contains_key(name) {
            Some(self.env_vars[name])
        } else if self.shell_vars.contains_key(name) {
            Some(self.shell_vars[name])
        } else {
            None
        }
    }

    /// The state once `name` is an environment variable with that value.
    pub open spec fn with_env_var(self, name: Seq<char>, value: Seq<char>) -> StateView {
        StateView {
            env_vars: self.env_vars.insert(name, value),
            shell_vars: self.shell_vars.remove(name),
            ..self
        }
    }

    /// The state after one change. Setting a shell variable that is in the environment sets the
    /// environment variable.
    pub open spec fn apply(self, change: EnvChangeView) -> StateView {
        match change {
            EnvChangeView::SetEnvVar(name, value) => self.with_env_var(name, value),
            EnvChangeView::SetShellVar(name, value) => if self.env_vars.contains_key(name) {
                self.with_env_var(name, value)
            } else {
                StateView { shell_vars: self.shell_vars.insert(name, value), ..self }
            },
            EnvChangeView::Cd(dir) => StateView { cwd: dir, ..self },
        }
    }

    /// The state after the changes, made in their order.
    pub open spec fn apply_all(self, changes: Seq<EnvChangeView>) -> StateView
        decreases changes.len(),
    {
        if changes.len() == 0 {
            self
        } else {
            self.apply_all(changes.drop_last()).apply(changes.last())
        }
    }
}

/// The environment variables of a list of pairs; of two with one name the later counts.
pub open spec fn pairs_map(pairs: Seq<(String, String)>) -> Map<Seq<char>, Seq<char>>
    decreases pairs.len(),
{
    if pairs.len() == 0 {
        Map::empty()
    } else {
        pairs_map(pairs.drop_last()).insert(pairs.last().0@, pairs.last().1@)
    }
}

impl ShellState {
    /// The state with these environment variables, no shell variables and this working directory.
    pub fn new(env_vars: Vec<(String, String)>, cwd: String) -> (res: Self)
        ensures
            res@ == (StateView {
                env_vars: pairs_map(env_vars@),
                shell_vars: Map::empty(),
                cwd: cwd@,
            }),
    {
        let mut vars = Variables::new();
        let mut i: usize = 0;
        while i < env_vars.len()
            invariant
                i <= env_vars@.len(),
                vars@ == pairs_map(env_vars@.take(i as int)),
            decreases env_vars@.len() - i,
        {
            vars.insert(env_vars[i].0.clone(), env_vars[i].1.clone());
            i += 1;
            proof {
                assert(env_vars@.take(i as int).drop_last() =~= env_vars@.take(i - 1));
            }
        }
        proof {
            assert(env_vars@.take(i as int) =~= env_vars@);
        }
        ShellState { env_vars: vars, shell_vars: Variables::new(), cwd }
    }

    /// The working directory.
    pub fn cwd(&self) -> (res: &String)
        ensures
            res@ == self@.cwd,
    {
        &self.cwd
    }

    /// The variables that are passed on to commands.
    pub fn env_vars(&self) -> (res: &Variables)
        ensures
            res@ == self@.env_vars,
    {
        &self.env_vars
    }

    /// The value of a variable, if it is set.
    pub fn get_var(&self, name: &str) -> (res: Option<&String>)
        ensures
            match res {
                Some(value) => self@.get_var(name@) == Some(value@),
                None => self@.get_var(name@) is None,
            },
    {
        match self.env_vars.get(name) {
            Some(value) => Some(value),
            None => self.shell_vars.get(name),
        }
    }

    /// Makes `name` an environment variable with that value.
    pub fn apply_env_var(&mut self, name: &str, value: &str)
        ensures
            final(self)@ == old(self)@.with_env_var(name@, value@),
    {
        self.shell_vars.remove(name);
        self.env_vars.insert(name.to_string(), value.to_string());
    }

    /// Makes one change.
    pub fn apply_change(&mut self, change: &EnvChange)
        ensures
            final(self)@ == old(self)@.apply(change@),
    {
        match change {
            EnvChange::SetEnvVar(name, value) => {
                self.apply_env_var(name.as_str(), value.as_str());
            },
            EnvChange::SetShellVar(name, value) => {
                if self.env_vars.get(name.as_str()).is_some() {
                    self.apply_env_var(name.as_str(), value.as_str());
                } else {
                    self.shell_vars.insert(name.clone(), value.clone());
                }
            },
            EnvChange::Cd(dir) => {
                self.cwd = dir.clone();
            },
        }
    }

    /// Makes the changes in their order.
    pub fn apply_changes(&mut self, changes: &Vec<EnvChange>)
        ensures
            final(self)@ == old(self)@.apply_all(changes_of(changes@)),
    {
        let ghost all = changes_of(changes@);
        let mut i: usize = 0;
        while i < changes.len()
            invariant
                i <= changes@.len(),
                all == changes_of(changes@),
                self@ == old(self)@.apply_all(all.take(i as int)),
            decreases changes@.len() - i,
        {
            self.apply_change(&changes[i]);
            i += 1;
            proof {
                assert(all.take(i as int).drop_last() =~= all.take(i - 1));
            }
        }
        proof {
            assert(all.take(i as int) =~= all);
        }
    }
}

impl Clone for ShellState {
    fn clone(&self) -> (res: Self)
        ensures
            res@ == self@,
    {
        ShellState {
            env_vars: self.env_vars.clone(),
            shell_vars: self.shell_vars.clone(),
            cwd: self.cwd.clone(),
        }
    }
}

/// Changes made one after the other are all of them made in their order.
pub proof fn law_changes_add_up(
    state: StateView,
    first: Seq<EnvChangeView>,
    later: Seq<EnvChangeView>,
)
    ensures
        state.apply_all(first + later) == state.apply_all(first).apply_all(later),
    decreases later.len(),
{
    if later.len() == 0 {
        assert(first + later =~= first);
    } else {
        law_changes_add_up(state, first, later.drop_last());
        assert((first + later).drop_last() =~= first + later.drop_last());
        assert((first + later).last() == later.last());
    }
}

/// A variable has the value it was set to last, whichever way it was set, and setting it leaves all
/// others and the working directory as they were.
pub proof fn law_set_variable_is_read_back(state: StateView, name: Seq<char>, value: Seq<char>)
    ensures
        state.apply(EnvChangeView::SetEnvVar(name, value)).get_var(name) == Some(value),
        state.apply(EnvChangeView::SetShellVar(name, value)).get_var(name) == Some(value),
        forall|other: Seq<char>|
            other != name ==> #[trigger] state.apply(
                EnvChangeView::SetEnvVar(name, value),
            ).get_var(other) == state.get_var(other),
        forall|other: Seq<char>|
            other != name ==> #[trigger] state.apply(
                EnvChangeView::SetShellVar(name, value),
            ).get_var(other) == state.get_var(other),
        state.apply(EnvChangeView::SetEnvVar(name, value)).cwd == state.cwd,
        state.apply(EnvChangeView::SetShellVar(name, value)).cwd == state.cwd,
{
}

/// A variable of the shell alone does not reach commands, and one that they see stays one when the
/// shell sets it anew.
pub proof fn law_shell_variable_is_not_passed_on(state: StateView, name: Seq<char>, value: Seq<char>)
    ensures
        state.apply(EnvChangeView::SetShellVar(name, value)).env_vars.contains_key(name)
            == state.env_vars.contains_key(name),
        !state.env_vars.contains_key(name) ==> state.apply(
            EnvChangeView::SetShellVar(name, value),
        ).env_vars == state.env_vars,
        state.apply(EnvChangeView::SetEnvVar(name, value)).env_vars.contains_key(name),
{
}

/// Changing the directory leaves all variables as they were.
pub proof fn law_cd_keeps_variables(state: StateView, dir: Seq<char>)
    ensures
        state.apply(EnvChangeView::Cd(dir)).cwd == dir,
        forall|name: Seq<char>| #[trigger]
            state.apply(EnvChangeView::Cd(dir)).get_var(name) == state.get_var(name),
{
}

/// Where the value of a variable is looked up: in the environment, then among the variables of the
/// shell alone, and nowhere else.
pub proof fn law_environment_is_looked_up_first(state: StateView, name: Seq<char>)
    ensures
        state.env_vars.contains_key(name) ==> state.get_var(name) == Some(state.env_vars[name]),
        !state.env_vars.contains_key(name) && state.shell_vars.contains_key(name)
            ==> state.get_var(name) == Some(state.shell_vars[name]),
        !state.env_vars.contains_key(name) && !state.shell_vars.contains_key(name)
            ==> state.get_var(name) is None,
{
}

/// What an environment variable that is set leaves as it was: all but the entry for its name.
pub proof fn law_setting_an_environment_variable(
    state: StateView,
    name: Seq<char>,
    value: Seq<char>,
)
    ensures
        state.with_env_var(name, value) == state.apply(EnvChangeView::SetEnvVar(name, value)),
        state.with_env_var(name, value).env_vars == state.env_vars.insert(name, value),
        state.with_env_var(name, value).shell_vars == state.shell_vars.remove(name),
        state.with_env_var(name, value).cwd == state.cwd,
{
}

/// Setting a variable of the shell is setting the environment variable where there is one of that
/// name; else it leaves the environment as it was.
pub proof fn law_setting_a_shell_variable(state: StateView, name: Seq<char>, value: Seq<char>)
    ensures
        state.env_vars.contains_key(name) ==> state.apply(EnvChangeView::SetShellVar(name, value))
            == state.apply(EnvChangeView::SetEnvVar(name, value)),
        !state.env_vars.contains_key(name) ==> {
            let after = state.apply(EnvChangeView::SetShellVar(name, value));
            &&& after.env_vars == state.env_vars
            &&& after.shell_vars == state.shell_vars.insert(name, value)
            &&& after.cwd == state.cwd
        },
{
}

/// No change leaves the state as it was, one change is that change, and a change of directory is
/// nothing but that.
pub proof fn law_few_changes(state: StateView, change: EnvChangeView, dir: Seq<char>)
    ensures
        state.apply_all(Seq::empty()) == state,
        state.apply_all(seq![change]) == state.apply(change),
        state.apply(EnvChangeView::Cd(dir)).env_vars == state.env_vars,
        state.apply(EnvChangeView::Cd(dir)).shell_vars == state.shell_vars,
{
    assert(seq![change].drop_last() =~= Seq::<EnvChangeView>::empty());
    assert(state.apply_all(seq![change].drop_last()) == state);
}

/// A list of pairs gives each name its last value: none gives nothing, one gives its name its value,
/// and of two lists the second counts where both have a name.
pub proof fn law_later_pairs_count(
    first: Seq<(String, String)>,
    second: Seq<(String, String)>,
    pair: (String, String),
)
    ensures
        pairs_map(Seq::empty()) == Map::<Seq<char>, Seq<char>>::empty(),
        pairs_map(seq![pair]) == Map::<Seq<char>, Seq<char>>::empty().insert(pair.0@, pair.1@),
        pairs_map(first + second) == pairs_map(first).union_prefer_right(pairs_map(second)),
    decreases second.len(),
{
    assert(seq![pair].drop_last() =~= Seq::<(String, String)>::empty());
    assert(pairs_map(seq![pair].drop_last()) =~= Map::<Seq<char>, Seq<char>>::empty());
    if second.len() == 0 {
        assert(first + second =~= first);
        assert(pairs_map(first).union_prefer_right(pairs_map(second)) =~= pairs_map(first));
    } else {
        law_later_pairs_count(first, second.drop_last(), pair);
        assert((first + second).drop_last() =~= first + second.drop_last());
        assert((first + second).last() == second.last());
        assert(pairs_map(first + second) =~= pairs_map(first).union_prefer_right(
            pairs_map(second),
        ));
    }
}

/// A list of changes says what each of them says, in its place: the variable and its whole value, or
/// the whole directory.
pub proof fn law_changes_in_their_places(changes: Seq<EnvChange>)
    ensures
        changes_of(changes).len() == changes.len(),
        forall|i: int|
            0 <= i < changes.len() ==> #[trigger] changes_of(changes)[i] == match changes[i] {
                EnvChange::SetEnvVar(name, value) => EnvChangeView::SetEnvVar(name@, value@),
                EnvChange::SetShellVar(name, value) => EnvChangeView::SetShellVar(name@, value@),
                EnvChange::Cd(dir) => EnvChangeView::Cd(dir@),
            },
{
}

} // verus!
