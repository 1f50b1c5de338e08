use jumpcut::alias::{Alias, StorageRoot};
use jumpcut::gate::Reply;
use jumpcut::invocation::read_invocation;
use jumpcut::resolver::Store;
use jumpcut::search::Directory;
use jumpcut::utils::{args_ok, join_arguments};

fn empty_store() -> Store {
    Store::new(Directory::new(), None)
}

fn words(items: &[&str]) -> Vec<String> {
    items.iter().map(|s| s.to_string()).collect()
}

/// Runs `j add NAME CMD...` on the store.
fn run_add(store: &mut Store, line: &[&str]) {
    let mut args = vec!["j".to_string()];
    args.extend(words(line));
    assert!(args_ok(&args, 2));
    let cmd = join_arguments(&args, 3);
    store.add_alias(&args[2], &cmd, StorageRoot::Default, false).unwrap();
}

/// Runs `j WORD...` on the store and gives what would be printed.
fn run_exec(store: &Store, line: &[&str]) -> String {
    let invocation = read_invocation(&words(line));
    let identifier = invocation.alias_name_parts.join(" ");
    let out = store.find_and_exec_alias(
        &identifier,
        None,
        &Reply::Unasked,
        "/here",
        invocation.alias_args,
        |_a: &Alias, _n: &str| String::new(),
    );
    match out.line {
        Some(line) => format!("{}\n", line),
        None => String::new(),
    }
}

fn alias_exists(store: &Store, al: &str) -> bool {
    store.holds(al, StorageRoot::Default)
}

#[test]
fn add_alias() {
    let mut store = empty_store();
    let alias = "up";
    run_add(&mut store, &["add", alias, "cd .."]);
    assert!(alias_exists(&store, alias));
}

#[test]
fn remove_alias() {
    let mut store = empty_store();
    let alias = "up";
    run_add(&mut store, &["add", alias, "cd .."]);
    assert!(alias_exists(&store, alias));

    store.remove_alias(alias, None).unwrap();
    assert!(!alias_exists(&store, alias));
}

#[test]
fn exec_alias() {
    let mut store = empty_store();
    let alias = "up";
    run_add(&mut store, &["add", alias, "cd .."]);
    assert!(alias_exists(&store, alias));

    let out = run_exec(&store, &[alias]);
    assert_eq!(out, "cd ..\n");
}

#[test]
fn exec_alias_named_params() {
    let mut store = empty_store();
    let alias = "rename";
    run_add(&mut store, &["add", alias, "mv ?[a] ?[b]"]);
    assert!(alias_exists(&store, alias));

    let out = run_exec(&store, &[alias, "--a=foo", "--b=bar"]);
    assert_eq!(out, "mv foo bar\n");
}

#[test]
fn exec_unknown_alias_gives_blank_line() {
    let mut store = empty_store();
    run_add(&mut store, &["add", "rename", "mv ?1 ?2"]);
    let out = run_exec(&store, &["rename", "---", "foo", "bar"]);
    assert_eq!(out, " \n");
}
