use spellcheck::command::{Command, Error};

const DEFAULT: &str = "/usr/share/dict/words";

fn arguments(args: &[&str]) -> Vec<String> {
    args.iter().map(|arg| arg.to_string()).collect()
}

fn parse(args: &[&str]) -> Result<(String, String, bool), Error> {
    Command::from_args(&arguments(args), DEFAULT).map(|command| {
        (command.targ_path().to_string(), command.dict_path().to_string(), command.with_lines())
    })
}

fn accepted(targ: &str, dict: &str, with_lines: bool) -> Result<(String, String, bool), Error> {
    Ok((targ.to_string(), dict.to_string(), with_lines))
}

#[test]
fn a_file_alone_is_checked_against_the_default_dictionary() {
    assert_eq!(parse(&["notes.txt"]), accepted("notes.txt", DEFAULT, false));
}

#[test]
fn the_dictionary_can_be_named() {
    assert_eq!(parse(&["-w", "my.dict", "notes.txt"]), accepted("notes.txt", "my.dict", false));
    assert_eq!(parse(&["notes.txt", "-wmy.dict"]), accepted("notes.txt", "my.dict", false));
    assert_eq!(parse(&["--words", "my.dict", "notes.txt"]), accepted("notes.txt", "my.dict", false));
    assert_eq!(parse(&["--words=my.dict", "notes.txt"]), accepted("notes.txt", "my.dict", false));
}

#[test]
fn line_numbers_can_be_asked_for() {
    assert_eq!(parse(&["-l", "notes.txt"]), accepted("notes.txt", DEFAULT, true));
    assert_eq!(parse(&["notes.txt", "--lines"]), accepted("notes.txt", DEFAULT, true));
    assert_eq!(parse(&["-lw", "d", "notes.txt"]), accepted("notes.txt", "d", true));
    assert_eq!(parse(&["-p", "notes.txt"]), accepted("notes.txt", DEFAULT, false));
    assert_eq!(parse(&["-pl", "notes.txt"]), accepted("notes.txt", DEFAULT, true));
}

#[test]
fn what_follows_two_dashes_is_a_file() {
    assert_eq!(parse(&["--", "-l"]), accepted("-l", DEFAULT, false));
    assert_eq!(parse(&["-"]), accepted("-", DEFAULT, false));
}

#[test]
fn the_free_arguments_must_be_exactly_one() {
    assert_eq!(parse(&[]), Err(Error::Arguments));
    assert_eq!(parse(&["-l"]), Err(Error::Arguments));
    assert_eq!(parse(&["one.txt", "two.txt"]), Err(Error::Arguments));
    assert_eq!(parse(&["-w", "notes.txt"]), Err(Error::Arguments));
}

#[test]
fn what_getopts_refuses_is_an_error() {
    assert_eq!(parse(&["-x", "notes.txt"]), Err(Error::Arguments));
    assert_eq!(parse(&["--unknown", "notes.txt"]), Err(Error::Arguments));
    assert_eq!(parse(&["notes.txt", "-w"]), Err(Error::Arguments));
    assert_eq!(parse(&["-l", "-l", "notes.txt"]), Err(Error::Arguments));
    assert_eq!(parse(&["-w", "a", "-w", "b", "notes.txt"]), Err(Error::Arguments));
    assert_eq!(parse(&["--lines=yes", "notes.txt"]), Err(Error::Arguments));
    assert_eq!(parse(&["-L", "notes.txt"]), Err(Error::Arguments));
}

#[test]
fn parsed_parts_make_a_command() {
    let command =
        Command::from_parts(arguments(&["notes.txt"]), Some("my.dict".to_string()), true, DEFAULT)
            .unwrap();
    assert_eq!(command.targ_path(), "notes.txt");
    assert_eq!(command.dict_path(), "my.dict");
    assert!(command.with_lines());
    let command = Command::from_parts(arguments(&["notes.txt"]), None, false, "elsewhere").unwrap();
    assert_eq!(command.targ_path(), "notes.txt");
    assert_eq!(command.dict_path(), "elsewhere");
    assert!(!command.with_lines());
    assert_eq!(Command::from_parts(Vec::new(), None, false, DEFAULT).err(), Some(Error::Arguments));
    assert_eq!(
        Command::from_parts(arguments(&["a", "b"]), None, true, DEFAULT).err(),
        Some(Error::Arguments)
    );
}

#[test]
fn each_error_has_its_exit_code() {
    assert_eq!(Error::Arguments.code(), 1);
    assert_eq!(Error::Dictionary.code(), 2);
    assert_eq!(Error::Input.code(), 3);
}
