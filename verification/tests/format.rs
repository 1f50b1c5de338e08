use jumpcut::alias::{Alias, ConfirmationLevel, StorageRoot};
use jumpcut::error::AliasError;
use jumpcut::format::{parse_confirmation, parse_options, split_lines};

fn chars(s: &str) -> Vec<char> {
    s.chars().collect()
}

fn read(contents: &str) -> Alias {
    Alias::read("name", contents, StorageRoot::Default).unwrap()
}

#[test]
fn read_empty_file_fails() {
    let r = Alias::read("name", "", StorageRoot::Default);
    assert_eq!(r.err(), Some(AliasError::Empty));
}

#[test]
fn read_one_line() {
    let al = read("cd ..");
    assert_eq!(al.get_alias(), "name");
    assert_eq!(al.get_command(), "cd ..");
    assert_eq!(al.get_description(), "");
    assert_eq!(al.get_confirmation_level(), 0);
    assert!(al.is_in_main_storage());
}

#[test]
fn read_two_lines() {
    let al = read("cd ..\ngo up\n");
    assert_eq!(al.get_command(), "cd ..");
    assert_eq!(al.get_description(), "go up");
    assert_eq!(al.confirmation(), ConfirmationLevel::NoPrompt);
}

#[test]
fn read_three_lines() {
    let al = read("rm -rf build\nclean\nconfirm=2");
    assert_eq!(al.get_command(), "rm -rf build");
    assert_eq!(al.get_description(), "clean");
    assert_eq!(al.confirmation(), ConfirmationLevel::ExplicitTyped);
    assert_eq!(al.get_confirmation_level(), 2);
}

#[test]
fn read_ignores_lines_after_the_third() {
    let al = read("ls\n\nconfirm=1\nextra\nmore");
    assert_eq!(al.get_command(), "ls");
    assert_eq!(al.get_description(), "");
    assert_eq!(al.confirmation(), ConfirmationLevel::YesNo);
}

#[test]
fn read_malformed_options_default_to_none() {
    for options in ["confirm", "confirm=", "confirm=x", "confirm=1=2", "Confirm=1", "confirm=3",
        "confirm=-1", "confirm=300", "confirm= 1", "confirm=1 ", "x=1", "", "confirm=+"]
    {
        let al = read(&format!("ls\nd\n{}", options));
        assert_eq!(al.get_confirmation_level(), 0, "{}", options);
    }
}

#[test]
fn read_accepts_numerals_as_the_integer_parser_does() {
    assert_eq!(read("ls\nd\nconfirm=+2").get_confirmation_level(), 2);
    assert_eq!(read("ls\nd\nconfirm=001").get_confirmation_level(), 1);
    assert_eq!(read("ls\nd\nconfirm=0").get_confirmation_level(), 0);
}

#[test]
fn read_strips_carriage_returns_before_line_feeds() {
    let al = read("ls\r\nlist\r\nconfirm=1\r\n");
    assert_eq!(al.get_command(), "ls");
    assert_eq!(al.get_description(), "list");
    assert_eq!(al.get_confirmation_level(), 1);
    let al = read("ls\r");
    assert_eq!(al.get_command(), "ls\r");
}

#[test]
fn read_keeps_the_root() {
    let al = Alias::read("n", "ls", StorageRoot::Shared).unwrap();
    assert!(!al.is_in_main_storage());
    let path = al.get_file_path();
    assert_eq!(path.name, "n");
    assert_eq!(path.root, StorageRoot::Shared);
}

#[test]
fn split_lines_follows_the_line_reader() {
    for text in ["", "a", "a\n", "a\n\n", "\n", "a\r\nb", "a\rb\n", "\r\n\r\n", "a\n\r", "é\nü"] {
        let expected: Vec<String> = std::io::BufRead::lines(text.as_bytes())
            .map(|l| l.unwrap())
            .collect();
        assert_eq!(split_lines(&chars(text)), expected, "{:?}", text);
    }
}

#[test]
fn write_gives_three_lines() {
    let al = Alias::new("up", "cd ..", "go up", 1, StorageRoot::Default);
    assert_eq!(al.write(), "cd ..\ngo up\nconfirm=1");
    let al = Alias::new("up", "cd ..", "", 0, StorageRoot::Default);
    assert_eq!(al.write(), "cd ..\n\nconfirm=0");
    let al = Alias::new("up", "cd ..", "", 2, StorageRoot::Default);
    assert_eq!(al.write(), "cd ..\n\nconfirm=2");
}

#[test]
fn write_then_read_gives_the_record() {
    for level in [0i8, 1, 2] {
        for description in ["", "what it does", "-"] {
            let al = Alias::new("up", "cd ?[dir];ls ?pwd", description, level, StorageRoot::Shared);
            let back = Alias::read("up", &al.write(), StorageRoot::Shared).unwrap();
            assert_eq!(back.get_alias(), al.get_alias());
            assert_eq!(back.get_command(), al.get_command());
            assert_eq!(back.get_description(), al.get_description());
            assert_eq!(back.get_confirmation_level(), level);
            assert_eq!(back.is_in_main_storage(), al.is_in_main_storage());
        }
    }
}

#[test]
fn command_with_a_line_feed_does_not_come_back() {
    let al = Alias::new("two", "a\nb", "", 0, StorageRoot::Default);
    let back = Alias::read("two", &al.write(), StorageRoot::Default).unwrap();
    assert_eq!(back.get_command(), "a");
    assert_eq!(back.get_description(), "b");
}

#[test]
fn new_normalizes_the_level() {
    for (given, kept) in [(0i8, 0i8), (1, 1), (2, 2), (3, 0), (-1, 0), (127, 0), (-128, 0)] {
        let al = Alias::new("a", "b", "", given, StorageRoot::Default);
        assert_eq!(al.get_confirmation_level(), kept);
        assert_eq!(al.update_confirm(given).get_confirmation_level(), kept);
    }
}

#[test]
fn confirm_value_normalizes_to_none() {
    for text in ["", "x", "yes", "3", "-1", "128", "99999999999999999999", "1.0", " 1", "0"] {
        assert_eq!(parse_confirmation(text), 0, "{}", text);
    }
    assert_eq!(parse_confirmation("1"), 1);
    assert_eq!(parse_confirmation("2"), 2);
    assert_eq!(parse_confirmation("+1"), 1);
    assert_eq!(parse_confirmation("02"), 2);
}

#[test]
fn confirm_value_agrees_with_the_integer_parser() {
    for text in ["0", "1", "2", "3", "+2", "-2", "-0", "+0", "007", "12", "2x", "+", "-", "١"] {
        let parsed = text.parse::<i8>().unwrap_or_default();
        let expected = if parsed == 1 || parsed == 2 { parsed } else { 0 };
        assert_eq!(parse_confirmation(text), expected, "{}", text);
    }
}

#[test]
fn options_line_level() {
    assert_eq!(parse_options(&chars("confirm=1")), ConfirmationLevel::YesNo);
    assert_eq!(parse_options(&chars("confirm=2")), ConfirmationLevel::ExplicitTyped);
    assert_eq!(parse_options(&chars("confirm=0")), ConfirmationLevel::NoPrompt);
    assert_eq!(parse_options(&chars("confirm2")), ConfirmationLevel::NoPrompt);
}

#[test]
fn update_description_clears_on_a_dash() {
    let al = Alias::new("a", "b", "old", 1, StorageRoot::Default);
    let al = al.update_description("new text");
    assert_eq!(al.get_description(), "new text");
    let al = al.update_description("-");
    assert_eq!(al.get_description(), "");
    let al = al.update_description("--");
    assert_eq!(al.get_description(), "--");
    assert_eq!(al.get_command(), "b");
    assert_eq!(al.get_confirmation_level(), 1);
}

#[test]
fn level_numbers() {
    assert_eq!(ConfirmationLevel::from_number(1).number(), 1);
    assert_eq!(ConfirmationLevel::from_number(2), ConfirmationLevel::ExplicitTyped);
    assert_eq!(ConfirmationLevel::from_number(7), ConfirmationLevel::NoPrompt);
    let al = Alias::new("a", "b", "c", 2, StorageRoot::Default);
    let copy = al.clone();
    assert_eq!(copy.write(), al.write());
}
