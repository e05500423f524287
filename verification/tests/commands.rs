use shims::cmds::Commands;
use shims::wire::Halt;
use std::io;
use std::path::PathBuf;

fn intact(bytes: &[u8]) -> Vec<Result<u8, io::Error>> {
    bytes.iter().map(|b| Ok(*b)).collect()
}

fn broken() -> Result<u8, io::Error> {
    Err(io::Error::new(io::ErrorKind::Other, "read failed"))
}

#[test]
fn consume_all() {
    let mut commands = Commands::from("\
        C:\\python.exe\n\
        C:\\python.exe\0--version\n\
        C:\\python.exe\0-OO\0-c\0import sys; print(sys.executable)\n\
    ".bytes().map(|b| Ok(b)).collect());

    let command = commands.next().unwrap();
    assert_eq!(command.exe(), Some(&PathBuf::from("C:\\python.exe")));
    assert_eq!(command.args(), &Vec::<String>::new());

    let command = commands.next().unwrap();
    assert_eq!(command.exe(), Some(&PathBuf::from("C:\\python.exe")));
    assert_eq!(command.args(), &vec![String::from("--version")]);

    let command = commands.next().unwrap();
    assert_eq!(command.exe(), Some(&PathBuf::from("C:\\python.exe")));
    assert_eq!(command.args(), &vec![
        String::from("-OO"),
        String::from("-c"),
        String::from("import sys; print(sys.executable)"),
    ]);

    assert_eq!(commands.next().is_none(), true);
}

#[test]
fn avoid_garbage() {
    let mut commands = Commands::from(
        "C:\\python.exe\n\n12345".bytes().map(|b| Ok(b)).collect(),
    );

    let command = commands.next().unwrap();
    assert_eq!(command.exe(), Some(&PathBuf::from("C:\\python.exe")));
    assert_eq!(command.args(), &Vec::<String>::new());

    assert_eq!(commands.next().is_none(), true);
    assert_eq!(commands.next().is_none(), true);
    assert_eq!(commands.next().is_none(), true);
}

#[test]
fn two_lines_then_nothing() {
    let mut commands = Commands::from(intact(b"E1\nE1\0A1\0A2\n"));
    assert_eq!(commands.halt(), None);

    let command = commands.next().unwrap();
    assert_eq!(command.exe(), Some(&PathBuf::from("E1")));
    assert_eq!(command.args(), &Vec::<String>::new());
    assert_eq!(commands.halt(), None);

    let command = commands.next().unwrap();
    assert_eq!(command.exe(), Some(&PathBuf::from("E1")));
    assert_eq!(command.args(), &vec![String::from("A1"), String::from("A2")]);
    assert_eq!(commands.halt(), None);

    assert!(commands.next().is_none());
    assert_eq!(commands.halt(), Some(Halt::Exhausted));
}

#[test]
fn executable_with_one_argument() {
    let mut commands = Commands::from(intact(b"C:\\python.exe\0--version\n"));
    let command = commands.next().unwrap();
    assert_eq!(command.exe(), Some(&PathBuf::from("C:\\python.exe")));
    assert_eq!(command.args(), &vec![String::from("--version")]);
    assert!(commands.next().is_none());
}

#[test]
fn empty_input_is_exhausted() {
    let mut commands = Commands::from(Vec::new());
    assert!(commands.next().is_none());
    assert_eq!(commands.halt(), Some(Halt::Exhausted));
}

#[test]
fn empty_line_ends_the_trailer() {
    let mut commands = Commands::from(intact(b"\nC:\\python.exe\n"));
    assert!(commands.next().is_none());
    assert_eq!(commands.halt(), Some(Halt::EmptyLine));
    assert!(commands.next().is_none());
    assert_eq!(commands.halt(), Some(Halt::EmptyLine));
}

#[test]
fn empty_line_after_commands_hides_what_follows() {
    let mut commands = Commands::from(intact(b"a\0b\n\nc\0d\n"));
    let command = commands.next().unwrap();
    assert_eq!(command.exe(), Some(&PathBuf::from("a")));
    assert_eq!(command.args(), &vec![String::from("b")]);
    assert!(commands.next().is_none());
    assert_eq!(commands.halt(), Some(Halt::EmptyLine));
    assert!(commands.next().is_none());
}

#[test]
fn unclosed_line_is_dropped() {
    let mut commands = Commands::from(intact(b"first\nsecond\0arg"));
    let command = commands.next().unwrap();
    assert_eq!(command.exe(), Some(&PathBuf::from("first")));
    assert!(commands.next().is_none());
    assert_eq!(commands.halt(), Some(Halt::Exhausted));
}

#[test]
fn exhaustion_is_idempotent() {
    let mut commands = Commands::from(intact(b"only\n"));
    assert!(commands.next().is_some());
    for _ in 0..5 {
        assert!(commands.next().is_none());
        assert_eq!(commands.halt(), Some(Halt::Exhausted));
    }
}

#[test]
fn empty_token_is_an_empty_argument() {
    let mut commands = Commands::from(intact(b"exe\0a\0\0b\n"));
    let command = commands.next().unwrap();
    assert_eq!(command.exe(), Some(&PathBuf::from("exe")));
    assert_eq!(command.args(), &vec![String::from("a"), String::new(), String::from("b")]);
}

#[test]
fn empty_token_at_line_end_leaves_no_argument() {
    let mut commands = Commands::from(intact(b"exe\0\n"));
    let command = commands.next().unwrap();
    assert_eq!(command.exe(), Some(&PathBuf::from("exe")));
    assert_eq!(command.args(), &Vec::<String>::new());
}

#[test]
fn two_empty_tokens_at_line_end_leave_one_argument() {
    let mut commands = Commands::from(intact(b"exe\0\0\n"));
    let command = commands.next().unwrap();
    assert_eq!(command.exe(), Some(&PathBuf::from("exe")));
    assert_eq!(command.args(), &vec![String::new()]);
}

#[test]
fn empty_first_token_names_an_empty_executable() {
    let mut commands = Commands::from(intact(b"\0a\n"));
    let command = commands.next().unwrap();
    assert_eq!(command.exe(), Some(&PathBuf::from("")));
    assert_eq!(command.args(), &vec![String::from("a")]);
}

#[test]
fn lone_token_separator_names_an_empty_executable() {
    let mut commands = Commands::from(intact(b"\0\n"));
    let command = commands.next().unwrap();
    assert_eq!(command.exe(), Some(&PathBuf::from("")));
    assert_eq!(command.args(), &Vec::<String>::new());
}

#[test]
fn text_beyond_ascii_is_decoded() {
    let mut commands = Commands::from(intact("caf\u{e9}\0\u{65e5}\u{672c}\0\u{1f600}\n".as_bytes()));
    let command = commands.next().unwrap();
    assert_eq!(command.exe(), Some(&PathBuf::from("caf\u{e9}")));
    assert_eq!(command.args(), &vec![String::from("\u{65e5}\u{672c}"), String::from("\u{1f600}")]);
}

#[test]
fn invalid_text_closed_by_token_separator_halts() {
    let mut commands = Commands::from(intact(b"ok\nexe\0\xff\xfe\0arg\nlater\n"));
    assert!(commands.next().is_some());
    assert!(commands.next().is_none());
    assert_eq!(commands.halt(), Some(Halt::InvalidText));
    assert!(commands.next().is_none());
}

#[test]
fn invalid_text_closed_by_line_separator_halts() {
    let mut commands = Commands::from(intact(b"exe\0\xc3\nlater\n"));
    assert!(commands.next().is_none());
    assert_eq!(commands.halt(), Some(Halt::InvalidText));
    assert!(commands.next().is_none());
}

#[test]
fn invalid_executable_halts() {
    let mut commands = Commands::from(intact(b"\x80\n"));
    assert!(commands.next().is_none());
    assert_eq!(commands.halt(), Some(Halt::InvalidText));
}

#[test]
fn overlong_and_surrogate_encodings_are_invalid() {
    let mut commands = Commands::from(intact(b"exe\0\xc0\x80\n"));
    assert!(commands.next().is_none());
    assert_eq!(commands.halt(), Some(Halt::InvalidText));

    let mut commands = Commands::from(intact(b"exe\0\xed\xa0\x80\n"));
    assert!(commands.next().is_none());
    assert_eq!(commands.halt(), Some(Halt::InvalidText));
}

#[test]
fn read_failure_halts() {
    let mut input = intact(b"one\ntwo\0ar");
    input.push(broken());
    input.extend(intact(b"g\nthree\n"));
    let mut commands = Commands::from(input);
    assert!(commands.next().is_some());
    assert!(commands.next().is_none());
    assert_eq!(commands.halt(), Some(Halt::ReadFailure));
    assert!(commands.next().is_none());
    assert_eq!(commands.halt(), Some(Halt::ReadFailure));
}

#[test]
fn read_failure_at_the_start_halts() {
    let mut input = vec![broken()];
    input.extend(intact(b"exe\n"));
    let mut commands = Commands::from(input);
    assert!(commands.next().is_none());
    assert_eq!(commands.halt(), Some(Halt::ReadFailure));
}

#[test]
fn invalid_text_is_found_before_a_later_read_failure() {
    let mut input = intact(b"exe\0\xff\0arg");
    input.push(broken());
    let mut commands = Commands::from(input);
    assert!(commands.next().is_none());
    assert_eq!(commands.halt(), Some(Halt::InvalidText));
}

#[test]
fn unclosed_invalid_token_is_never_looked_at() {
    let mut input = intact(b"exe\0\xff");
    input.push(broken());
    let mut commands = Commands::from(input);
    assert!(commands.next().is_none());
    assert_eq!(commands.halt(), Some(Halt::ReadFailure));

    let mut commands = Commands::from(intact(b"exe\0\xff"));
    assert!(commands.next().is_none());
    assert_eq!(commands.halt(), Some(Halt::Exhausted));
}

#[test]
fn separators_are_bytes_zero_and_ten() {
    assert_eq!(shims::wire::TOKEN_SEPARATOR, 0);
    assert_eq!(shims::wire::LINE_SEPARATOR, 10);
    let mut commands = Commands::from(intact(b"a\rb\tc d\x01\n"));
    let command = commands.next().unwrap();
    assert_eq!(command.exe(), Some(&PathBuf::from("a\rb\tc d\x01")));
    assert_eq!(command.args(), &Vec::<String>::new());
}
