use task_shell::platform::Platform;
use task_shell::resolve::{
    candidate_paths, choose_extensions, file_names, locate_command, path_extensions,
    resolve_command_path, search_dirs, search_paths, CommandLocation, ResolveError, ResolveStep,
};
use task_shell::state::ShellState;

fn strings(texts: &[&str]) -> Vec<String> {
    texts.iter().map(|text| text.to_string()).collect()
}

fn state(env: &[(&str, &str)]) -> ShellState {
    let env = env.iter().map(|(name, value)| (name.to_string(), value.to_string())).collect();
    ShellState::new(env, "/work".to_string())
}

fn paths_tried(step: ResolveStep) -> (Vec<String>, ResolveError) {
    let mut tried = Vec::new();
    let mut step = step;
    loop {
        step = match step {
            ResolveStep::Probe(search) => {
                tried.push(search.path.clone());
                search.probed(false)
            }
            ResolveStep::Failed(error) => return (tried, error),
            ResolveStep::Found(_) => panic!("nothing is there"),
        };
    }
}

#[test]
fn platform_is_the_one_built_for() {
    assert_eq!(Platform::current().is_windows(), std::path::MAIN_SEPARATOR == '\\');
}

#[test]
fn names_say_where_to_look() {
    assert_eq!(locate_command("", false, false), CommandLocation::Nowhere);
    assert_eq!(locate_command("", true, true), CommandLocation::Nowhere);
    assert_eq!(locate_command("/bin/ls", true, false), CommandLocation::AsGiven);
    assert_eq!(locate_command("./ls", false, false), CommandLocation::InWorkingDirectory);
    assert_eq!(locate_command("b\\ls", false, true), CommandLocation::InWorkingDirectory);
    assert_eq!(locate_command("b\\ls", false, false), CommandLocation::InSearchPath);
    assert_eq!(locate_command("ls", false, true), CommandLocation::InSearchPath);
}

#[test]
fn working_directory_is_searched_first() {
    let with_path = state(&[("PATH", "/bin:;/usr/bin:")]);
    assert_eq!(search_dirs(&with_path, false), strings(&["/work", "/bin", ";/usr/bin", ""]));
    assert_eq!(search_dirs(&with_path, true), strings(&["/work", "/bin:", "/usr/bin:"]));
    assert_eq!(search_dirs(&state(&[]), false), strings(&["/work"]));
}

#[test]
fn extensions_are_in_capitals() {
    assert_eq!(
        path_extensions(&state(&[])),
        strings(&[".EXE", ".CMD", ".BAT", ".COM"])
    );
    assert_eq!(
        path_extensions(&state(&[("PATHEXT", ".exe;.stra\u{df}e")])),
        strings(&[".EXE", ".STRASSE"])
    );
    assert_eq!(
        path_extensions(&state(&[("PATHEXT", ".`az{;.@AZ[;.7_z;")])),
        strings(&[".`AZ{", ".@AZ[", ".7_Z", ""])
    );
}

#[test]
fn names_with_an_extension_are_taken_as_they_are() {
    let known = || strings(&[".EXE", ".CMD"]);
    assert_eq!(choose_extensions("run.CMD", known()), None);
    assert_eq!(choose_extensions("run.cmd", known()), Some(known()));
    assert_eq!(choose_extensions("run", known()), Some(known()));
    assert_eq!(choose_extensions("run", strings(&[".EXE", ""])), None);
    assert_eq!(file_names("run", Some(known())), strings(&["run.EXE", "run.CMD"]));
    assert_eq!(file_names("run", None), strings(&["run"]));
}

#[test]
fn candidates_go_directory_by_directory() {
    let platform = Platform::current();
    let dirs = strings(&["/a", "/b/"]);
    let files = strings(&["x", "y"]);
    let paths = candidate_paths(&platform, &dirs, &files);
    let expected: Vec<String> = dirs
        .iter()
        .flat_map(|dir| {
            files
                .iter()
                .map(move |file| std::path::Path::new(dir).join(file).to_str().unwrap().to_string())
        })
        .collect();
    assert_eq!(paths, expected);
    if !platform.is_windows() {
        assert_eq!(paths, strings(&["/a/x", "/a/y", "/b/x", "/b/y"]));
    }
}

#[test]
fn search_finds_the_first_file() {
    let step = search_paths("x".to_string(), strings(&["/a/x", "/b/x", "/c/x"]));
    let step = match step {
        ResolveStep::Probe(search) => {
            assert_eq!(search.path, "/a/x");
            search.probed(false)
        }
        _ => panic!("a path to look at"),
    };
    match step {
        ResolveStep::Probe(search) => match search.probed(true) {
            ResolveStep::Found(path) => assert_eq!(path, "/b/x"),
            _ => panic!("found"),
        },
        _ => panic!("a path to look at"),
    }
    let (tried, error) = paths_tried(search_paths("x".to_string(), Vec::new()));
    assert!(tried.is_empty());
    assert_eq!(error, ResolveError::NotFound("x".to_string()));
}

#[test]
fn commands_are_resolved() {
    let platform = Platform::current();
    let state = state(&[("PATH", "/bin:/usr/bin")]);
    match resolve_command_path("", &state, &platform) {
        ResolveStep::Failed(error) => {
            assert_eq!(error, ResolveError::EmptyName);
            assert_eq!(error.message(), "command name was empty");
        }
        _ => panic!("no name"),
    }
    if platform.is_windows() {
        return;
    }
    match resolve_command_path("/opt/run", &state, &platform) {
        ResolveStep::Found(path) => assert_eq!(path, "/opt/run"),
        _ => panic!("an absolute path"),
    }
    match resolve_command_path("bin/run", &state, &platform) {
        ResolveStep::Found(path) => assert_eq!(path, "/work/bin/run"),
        _ => panic!("a relative path"),
    }
    let (tried, error) = paths_tried(resolve_command_path("run", &state, &platform));
    assert_eq!(tried, strings(&["/work/run", "/bin/run", "/usr/bin/run"]));
    assert_eq!(error.message(), "run: command not found");
}

#[test]
fn a_longer_path_keeps_what_is_found() {
    let platform = Platform::current();
    let separator = if platform.is_windows() { ";" } else { ":" };
    let found_in = |path: &str| {
        let name = if platform.is_windows() { "run.EXE" } else { "run" };
        let mut step = resolve_command_path(name, &state(&[("PATH", path)]), &platform);
        loop {
            step = match step {
                ResolveStep::Probe(search) => {
                    let is_file = search.path.contains("b") || search.path.contains("c");
                    search.probed(is_file)
                }
                ResolveStep::Found(path) => return path,
                ResolveStep::Failed(_) => panic!("found"),
            };
        }
    };
    let short = ["/a", "/b"].join(separator);
    let long = ["/a", "/b", "/c", "/b"].join(separator);
    assert_eq!(found_in(&short), found_in(&long));
    assert_ne!(found_in(&short), found_in(&["/c", "/b"].join(separator)));
}
