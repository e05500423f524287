use shims::cmds::Commands;
use shims::launcher::{Action, Launcher, Outcome};
use std::path::PathBuf;

fn decoder(bytes: &[u8]) -> Commands {
    Commands::from(bytes.iter().map(|b| Ok(*b)).collect())
}

fn own_args() -> Vec<String> {
    vec![String::from("-x"), String::from("file name")]
}

fn expect_run(action: Action, exe: &str, args: &[&str]) {
    match action {
        Action::Run(command) => {
            assert_eq!(command.exe(), Some(&PathBuf::from(exe)));
            let expected: Vec<String> = args.iter().map(|a| String::from(*a)).collect();
            assert_eq!(command.args(), &expected);
        }
        other => panic!("expected a command to run, got {:?}", other),
    }
}

fn expect_exit(action: Action, code: i32) {
    match action {
        Action::Exit(found) => assert_eq!(found, code),
        other => panic!("expected exit code {}, got {:?}", code, other),
    }
}

fn expect_abort(action: Action) {
    assert!(matches!(action, Action::Abort));
}

#[test]
fn second_command_fails_with_five() {
    let (mut launcher, action) = Launcher::start(decoder(b"A\0a1\nB\0b1\n"), &own_args());
    expect_run(action, "A", &["a1", "-x", "file name"]);
    expect_run(launcher.step(Outcome::Exited(0)), "B", &["b1"]);
    expect_exit(launcher.step(Outcome::Exited(5)), 5);
}

#[test]
fn first_command_fails_with_three() {
    let (mut launcher, action) = Launcher::start(decoder(b"A\nB\n"), &own_args());
    expect_run(action, "A", &["-x", "file name"]);
    expect_exit(launcher.step(Outcome::Exited(3)), 3);
    expect_exit(launcher.step(Outcome::Exited(0)), 3);
    expect_exit(launcher.step(Outcome::Failed), 3);
}

#[test]
fn all_commands_succeed() {
    let (mut launcher, action) = Launcher::start(decoder(b"A\nB\nC\0c1\0c2\n"), &Vec::new());
    expect_run(action, "A", &[]);
    expect_run(launcher.step(Outcome::Exited(0)), "B", &[]);
    expect_run(launcher.step(Outcome::Exited(0)), "C", &["c1", "c2"]);
    expect_exit(launcher.step(Outcome::Exited(0)), 0);
    expect_exit(launcher.step(Outcome::Exited(0)), 0);
}

#[test]
fn negative_exit_code_ends_the_run() {
    let (mut launcher, action) = Launcher::start(decoder(b"A\nB\n"), &Vec::new());
    expect_run(action, "A", &[]);
    expect_exit(launcher.step(Outcome::Exited(-1)), -1);
}

#[test]
fn no_first_command_aborts() {
    let (mut launcher, action) = Launcher::start(decoder(b""), &own_args());
    expect_abort(action);
    expect_abort(launcher.step(Outcome::Exited(0)));

    let (_, action) = Launcher::start(decoder(b"\nA\n"), &own_args());
    expect_abort(action);

    let (_, action) = Launcher::start(decoder(b"A"), &own_args());
    expect_abort(action);
}

#[test]
fn spawn_failure_aborts() {
    let (mut launcher, action) = Launcher::start(decoder(b"A\nB\n"), &own_args());
    expect_run(action, "A", &["-x", "file name"]);
    expect_abort(launcher.step(Outcome::Failed));
    expect_abort(launcher.step(Outcome::Exited(0)));
    expect_abort(launcher.step(Outcome::Exited(7)));
}

#[test]
fn spawn_failure_of_a_later_command_aborts() {
    let (mut launcher, action) = Launcher::start(decoder(b"A\nB\nC\n"), &Vec::new());
    expect_run(action, "A", &[]);
    expect_run(launcher.step(Outcome::Exited(0)), "B", &[]);
    expect_abort(launcher.step(Outcome::Failed));
    expect_abort(launcher.step(Outcome::Exited(0)));
}

#[test]
fn malformed_line_ends_the_chain_with_zero() {
    let (mut launcher, action) = Launcher::start(decoder(b"A\n\nB\n"), &Vec::new());
    expect_run(action, "A", &[]);
    expect_exit(launcher.step(Outcome::Exited(0)), 0);
}

#[test]
fn own_arguments_follow_decoded_ones_in_order() {
    let own = vec![String::from("1"), String::new(), String::from("3")];
    let (_, action) = Launcher::start(decoder(b"A\0x\0\0y\n"), &own);
    expect_run(action, "A", &["x", "", "y", "1", "", "3"]);
}
