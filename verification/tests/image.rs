use shims::cmds::Commands;
use shims::image::reversed;
use shims::wire::Halt;
use std::io;
use std::path::PathBuf;

#[test]
fn reversed_turns_the_order_round() {
    assert_eq!(reversed(vec![1u8, 2, 3, 4]), vec![4u8, 3, 2, 1]);
    assert_eq!(reversed(vec![7u8]), vec![7u8]);
    assert_eq!(reversed(Vec::<u8>::new()), Vec::<u8>::new());
}

#[test]
fn reversing_a_trailer_twice_gives_it_back() {
    let trailer: Vec<u8> = b"C:\\python.exe\0-m\0pip\nC:\\tidy.exe\n".to_vec();
    let backwards = reversed(trailer.clone());
    assert_ne!(backwards, trailer);
    assert_eq!(backwards[0], b'\n');
    assert_eq!(reversed(backwards), trailer);
}

#[test]
fn trailer_is_read_from_the_end_of_the_image() {
    let mut image: Vec<u8> = b"MZ\x90\x00host program".to_vec();
    image.extend(b"C:\\python.exe\0-m\0pip\nC:\\tidy.exe\n\n".iter().rev());
    let image: Vec<Result<u8, io::Error>> = image.into_iter().map(Ok).collect();

    let mut commands = Commands::from_image(image);
    let command = commands.next().unwrap();
    assert_eq!(command.exe(), Some(&PathBuf::from("C:\\python.exe")));
    assert_eq!(command.args(), &vec![String::from("-m"), String::from("pip")]);
    let command = commands.next().unwrap();
    assert_eq!(command.exe(), Some(&PathBuf::from("C:\\tidy.exe")));
    assert_eq!(command.args(), &Vec::<String>::new());
    assert!(commands.next().is_none());
    assert_eq!(commands.halt(), Some(Halt::EmptyLine));
}

#[test]
fn image_without_trailer_yields_nothing() {
    let image: Vec<Result<u8, io::Error>> = b"\x7fELF\x02\x01\x01".iter().map(|b| Ok(*b)).collect();
    let mut commands = Commands::from_image(image);
    assert!(commands.next().is_none());
    assert_eq!(commands.halt(), Some(Halt::Exhausted));
}
