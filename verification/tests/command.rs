use shims::cmds::Command;
use std::path::PathBuf;

#[test]
fn new() {
    let command = Command::new();
    assert_eq!(command.exe(), None);
    assert_eq!(command.args(), &Vec::<String>::new());
}

#[test]
fn push_exe() {
    let mut command = Command::new();
    command.arg(String::from("C:\\python.exe"));
    assert_eq!(command.exe(), Some(&PathBuf::from("C:\\python.exe")));
    assert_eq!(command.args(), &Vec::<String>::new());
}

#[test]
fn push_exe_arg() {
    let mut command = Command::new();
    command.arg(String::from("C:\\python.exe"));
    command.arg(String::from("-OO"));
    command.arg(String::from("-c"));
    command.arg(String::from("import sys; print(sys.executable)"));
    assert_eq!(command.exe(), Some(&PathBuf::from("C:\\python.exe")));
    assert_eq!(command.args(), &vec![
        String::from("-OO"),
        String::from("-c"),
        String::from("import sys; print(sys.executable)"),
    ]);
}

#[test]
fn empty_first_token_is_the_executable() {
    let mut command = Command::new();
    command.arg(String::new());
    assert_eq!(command.exe(), Some(&PathBuf::from("")));
    assert_eq!(command.args(), &Vec::<String>::new());
    command.arg(String::new());
    assert_eq!(command.exe(), Some(&PathBuf::from("")));
    assert_eq!(command.args(), &vec![String::new()]);
}

#[test]
fn executable_is_never_replaced() {
    let mut command = Command::new();
    command.arg(String::from("first"));
    command.arg(String::from("second"));
    assert_eq!(command.exe(), Some(&PathBuf::from("first")));
    assert_eq!(command.args(), &vec![String::from("second")]);
}

#[test]
fn command_can_be_printed() {
    let mut command = Command::new();
    command.arg(String::from("tool"));
    command.arg(String::from("-v"));
    let shown = format!("{:?}", command);
    assert!(shown.contains("tool"));
    assert!(shown.contains("-v"));
}
