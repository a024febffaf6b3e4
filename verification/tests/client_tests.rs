use rrr::client::{
    build_prompt, classify_input, fallback_prompt, loop_control, next_prompt, parse_command, ClientCommand,
    InputAction, LoopControl,
};

fn args(v: &[&str]) -> Vec<String> {
    v.iter().map(|s| s.to_string()).collect()
}

#[test]
fn command_ls() {
    assert!(matches!(parse_command(&args(&["ls"])), Ok(ClientCommand::List)));
}

#[test]
fn command_create() {
    match parse_command(&args(&["+jl-shell", "jl"])).unwrap() {
        ClientCommand::Create { replid, launcher, workdir } => {
            assert_eq!((replid.as_str(), launcher.as_str(), workdir.as_str()), ("jl-shell", "jl", "."));
        }
        other => panic!("unexpected {other:?}"),
    }
    match parse_command(&args(&["+jl-shell", "jl", "~/projects/julia-project"])).unwrap() {
        ClientCommand::Create { workdir, .. } => assert_eq!(workdir, "~/projects/julia-project"),
        other => panic!("unexpected {other:?}"),
    }
    match parse_command(&args(&["+a", "b", "c", "d"])).unwrap() {
        ClientCommand::Create { workdir, .. } => assert_eq!(workdir, "."),
        other => panic!("unexpected {other:?}"),
    }
}

#[test]
fn command_create_without_launcher() {
    assert_eq!(
        parse_command(&args(&["+jl"])).unwrap_err(),
        "Invalid number of arguments, use: +<name> <launcher>"
    );
}

#[test]
fn command_kill_and_interactive() {
    match parse_command(&args(&["-jl-shell"])).unwrap() {
        ClientCommand::Kill { replid } => assert_eq!(replid, "jl-shell"),
        other => panic!("unexpected {other:?}"),
    }
    match parse_command(&args(&["%jl"])).unwrap() {
        ClientCommand::Interactive { replid } => assert_eq!(replid, "jl"),
        other => panic!("unexpected {other:?}"),
    }
}

#[test]
fn command_query() {
    match parse_command(&args(&["jl-shell"])).unwrap() {
        ClientCommand::Query { replid, runtype, code } => {
            assert_eq!((replid.as_str(), runtype.as_str()), ("jl-shell", "r"));
            assert_eq!(code, None);
        }
        other => panic!("unexpected {other:?}"),
    }
    match parse_command(&args(&["jl-shell", "t", "-", "c = 7"])).unwrap() {
        ClientCommand::Query { replid, runtype, code } => {
            assert_eq!((replid.as_str(), runtype.as_str()), ("jl-shell", "t"));
            assert_eq!(code, Some(String::from("c = 7")));
        }
        other => panic!("unexpected {other:?}"),
    }
}

#[test]
fn interactive_inputs() {
    assert!(matches!(classify_input("/k"), InputAction::KillRepl));
    assert!(matches!(classify_input("/quit"), InputAction::Quit));
    assert!(matches!(classify_input("/x"), InputAction::BadSlash));
    assert!(matches!(classify_input("/"), InputAction::BadSlash));
    match classify_input("/s other") {
        InputAction::Switch { replid } => assert_eq!(replid, "other"),
        other => panic!("unexpected {other:?}"),
    }
    match classify_input("!ls -l") {
        InputAction::Shell { command } => assert_eq!(command, "ls -l"),
        other => panic!("unexpected {other:?}"),
    }
    match classify_input("c = 5") {
        InputAction::Send { code } => assert_eq!(code, "c = 5"),
        other => panic!("unexpected {other:?}"),
    }
}

#[test]
fn prompt_from_lines() {
    let lines = vec![b"julia".to_vec(), b"> ".to_vec()];
    assert_eq!(build_prompt(&lines), b"julia\n> ".to_vec());
    let lines = vec![b"  ".to_vec(), b"x".to_vec()];
    assert_eq!(build_prompt(&lines), b"  x".to_vec());
    assert_eq!(build_prompt(&vec![]), Vec::<u8>::new());
}

#[test]
fn prompt_of_an_error() {
    let lines = vec![b"ERRROR: Repl does not exist".to_vec()];
    assert_eq!(build_prompt(&lines), b"ERRROR: Repl does not exist\n> ".to_vec());
}

#[test]
fn fallback_prompt_names_the_repl() {
    assert_eq!(fallback_prompt("jl"), b".jl% ".to_vec());
}

#[test]
fn prompt_for_the_next_line() {
    assert_eq!(next_prompt("jl", None), b".jl% ".to_vec());
    assert_eq!(next_prompt("jl", Some(vec![b"julia".to_vec(), b"> ".to_vec()])), b"julia\n> ".to_vec());
    assert_eq!(next_prompt("jl", Some(vec![])), Vec::<u8>::new());
}

#[test]
fn loop_goes_on_or_ends() {
    assert_eq!(loop_control(&InputAction::Quit, false), LoopControl::Leave);
    assert_eq!(loop_control(&InputAction::KillRepl, true), LoopControl::Stop);
    assert_eq!(loop_control(&InputAction::KillRepl, false), LoopControl::Continue);
    assert_eq!(loop_control(&InputAction::BadSlash, false), LoopControl::Continue);
    assert_eq!(loop_control(&InputAction::Send { code: String::from("x") }, true), LoopControl::Continue);
    assert_eq!(loop_control(&InputAction::Switch { replid: String::from("py") }, false), LoopControl::Continue);
}
