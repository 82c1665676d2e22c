use task_shell::state::{EnvChange, ShellState, Variables};

fn pair(name: &str, value: &str) -> (String, String) {
    (name.to_string(), value.to_string())
}

fn state() -> ShellState {
    ShellState::new(vec![pair("A", "1"), pair("B", "2"), pair("A", "3")], "/home".to_string())
}

fn sorted(vars: &Variables) -> Vec<(String, String)> {
    let mut pairs = vars.pairs();
    pairs.sort();
    pairs
}

#[test]
fn later_pairs_override_earlier_ones() {
    let state = state();
    assert_eq!(sorted(state.env_vars()), vec![pair("A", "3"), pair("B", "2")]);
    assert_eq!(state.cwd(), "/home");
    assert_eq!(state.get_var("A"), Some(&"3".to_string()));
    assert_eq!(state.get_var("C"), None);
}

#[test]
fn set_variables_are_read_back() {
    let mut state = state();
    state.apply_change(&EnvChange::SetShellVar("C".to_string(), "4".to_string()));
    assert_eq!(state.get_var("C"), Some(&"4".to_string()));
    assert_eq!(sorted(state.env_vars()), vec![pair("A", "3"), pair("B", "2")]);
    state.apply_change(&EnvChange::SetEnvVar("C".to_string(), "5".to_string()));
    assert_eq!(state.get_var("C"), Some(&"5".to_string()));
    assert_eq!(
        sorted(state.env_vars()),
        vec![pair("A", "3"), pair("B", "2"), pair("C", "5")]
    );
    state.apply_change(&EnvChange::SetShellVar("A".to_string(), "6".to_string()));
    assert_eq!(state.get_var("A"), Some(&"6".to_string()));
    assert_eq!(
        sorted(state.env_vars()),
        vec![pair("A", "6"), pair("B", "2"), pair("C", "5")]
    );
    assert_eq!(state.cwd(), "/home");
}

#[test]
fn changes_are_made_in_their_order() {
    let first = || EnvChange::SetShellVar("X".to_string(), "1".to_string());
    let second = || EnvChange::SetShellVar("X".to_string(), "2".to_string());
    let cd = || EnvChange::Cd("/tmp".to_string());
    let mut all = state();
    all.apply_changes(&vec![first(), second(), cd()]);
    let mut in_turn = state();
    in_turn.apply_changes(&vec![first()]);
    in_turn.apply_changes(&vec![second(), cd()]);
    for state in [&all, &in_turn] {
        assert_eq!(state.get_var("X"), Some(&"2".to_string()));
        assert_eq!(state.cwd(), "/tmp");
        assert_eq!(sorted(state.env_vars()), vec![pair("A", "3"), pair("B", "2")]);
    }
}

#[test]
fn a_copy_is_independent() {
    let first = state();
    let mut second = first.clone();
    second.apply_env_var("A", "9");
    second.apply_change(&EnvChange::Cd("/".to_string()));
    assert_eq!(first.get_var("A"), Some(&"3".to_string()));
    assert_eq!(first.cwd(), "/home");
    assert_eq!(second.get_var("A"), Some(&"9".to_string()));
    assert_eq!(second.cwd(), "/");
}

#[test]
fn variables_can_be_unset() {
    let mut vars = Variables::new();
    assert_eq!(vars.get("A"), None);
    vars.insert("A".to_string(), "1".to_string());
    vars.insert("B".to_string(), "2".to_string());
    vars.insert("A".to_string(), "3".to_string());
    assert_eq!(sorted(&vars), vec![pair("A", "3"), pair("B", "2")]);
    vars.remove("A");
    vars.remove("Z");
    assert_eq!(sorted(&vars), vec![pair("B", "2")]);
    assert_eq!(vars.get("A"), None);
    assert_eq!(vars.clone().get("B"), Some(&"2".to_string()));
}
