use jumpcut::error::AliasError;
use jumpcut::utils::{
    absolute_path, args_ok, is_reserved_keyword, join_arguments, path_command,
    working_directory_command,
};

fn words(items: &[&str]) -> Vec<String> {
    items.iter().map(|s| s.to_string()).collect()
}

#[test]
fn reserved_keywords() {
    for word in ["is_exec_action", "list", "add", "addwd", "addpath", "addshr", "desc", "confirm",
        "rm", "cp", "cpshr"]
    {
        assert!(is_reserved_keyword(word), "{}", word);
    }
    for word in ["", "List", "adds", "remove", "up", "cp ", "is_exec"] {
        assert!(!is_reserved_keyword(word), "{}", word);
    }
}

#[test]
fn argument_counts() {
    assert!(args_ok(&words(&["j", "add", "up", "cd .."]), 2));
    assert!(args_ok(&words(&["j", "add", "up", "cd", ".."]), 2));
    assert!(!args_ok(&words(&["j", "add", "up"]), 2));
    assert!(args_ok(&words(&["j", "rm", "up"]), 1));
    assert!(!args_ok(&words(&["j", "rm"]), 1));
    assert!(args_ok(&words(&["j", "list"]), 0));
    assert!(!args_ok(&words(&["j"]), 0));
    assert!(!args_ok(&words(&[]), 0));
    assert!(!args_ok(&words(&["j", "add", "a", "b"]), usize::MAX));
}

#[test]
fn extended_prefix_is_not_shown() {
    assert_eq!(absolute_path("\\\\?\\C:\\Users\\me"), "C:\\Users\\me");
    assert_eq!(absolute_path("/home/me"), "/home/me");
    assert_eq!(absolute_path("\\\\?\\"), "");
    assert_eq!(absolute_path("\\\\?"), "\\\\?");
    assert_eq!(absolute_path("C:\\\\?\\x"), "C:\\\\?\\x");
    assert_eq!(absolute_path(""), "");
}

#[test]
fn arguments_are_joined_by_spaces() {
    let args = words(&["j", "add", "up", "cd", "..", "&&", "ls"]);
    assert_eq!(join_arguments(&args, 3), "cd .. && ls");
    assert_eq!(join_arguments(&args, 6), "ls");
    assert_eq!(join_arguments(&args, 7), "");
    assert_eq!(join_arguments(&args, 8), "");
    assert_eq!(join_arguments(&args, 0), args.join(" "));
    assert_eq!(join_arguments(&words(&["", "", ""]), 0), "  ");
}

#[test]
fn commands_for_directories() {
    assert_eq!(working_directory_command("/w d", "make all"), "cd \"/w d\";make all;cd ?pwd");
    assert_eq!(path_command("/usr/local"), "cd \"/usr/local\"");
}

#[test]
fn messages() {
    assert_eq!(AliasError::NotFound.message("x"), "no matching aliases found.");
    assert_eq!(AliasError::Empty.message("x"), "Empty or invalid alias file: x");
    assert_eq!(
        AliasError::ReservedName.message("list"),
        "\"list\" cannot be used as an alias name; it is a reserved keyword."
    );
    assert_eq!(
        AliasError::Unconfigured.message(""),
        "no shared storage path configured! Please set the JUMPCUT_SHARED_PATH environment variable."
    );
    assert_eq!(AliasError::InputMismatch.message("x"), "unexpected input.");
}
