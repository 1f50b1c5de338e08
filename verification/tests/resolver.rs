use jumpcut::alias::{Alias, StorageRoot};
use jumpcut::error::AliasError;
use jumpcut::gate::Reply;
use jumpcut::arguments::Arguments;
use jumpcut::order::comes_before;
use jumpcut::resolver::{labels, pick, Candidate, Store};
use jumpcut::search::{find_aliases, fragments, holds_all, is_whitespace, Directory};

fn words(items: &[&str]) -> Vec<String> {
    items.iter().map(|s| s.to_string()).collect()
}

fn directory(names: &[&str]) -> Directory {
    let mut d = Directory::new();
    for name in names {
        d.insert(name.to_string(), format!("run {}\n\nconfirm=0", name));
    }
    d
}

fn store(main: &[&str], shared: Option<&[&str]>) -> Store {
    Store::new(directory(main), shared.map(directory))
}

fn shown(list: &[Candidate]) -> Vec<(String, StorageRoot)> {
    list.iter().map(|c| (c.name.clone(), c.root)).collect()
}

fn snapshot(s: &Store) -> Vec<(StorageRoot, String, String)> {
    let mut all = Vec::new();
    for root in [StorageRoot::Default, StorageRoot::Shared] {
        if let Some(d) = s.directory(root) {
            for name in d.names() {
                let text = d.get(&name).unwrap().clone();
                all.push((root, name, text));
            }
        }
    }
    all.sort_by(|a, b| (a.0 == StorageRoot::Shared, &a.1).cmp(&(b.0 == StorageRoot::Shared, &b.1)));
    all
}

fn no_answer(_a: &Alias, _n: &str) -> String {
    String::new()
}

#[test]
fn fragment_search_needs_every_fragment() {
    let d = directory(&["rename", "clean", "remove"]);
    assert_eq!(find_aliases(&words(&["re", "na"]), Some(&d)), words(&["rename"]));
    assert_eq!(find_aliases(&words(&["re"]), Some(&d)), words(&["remove", "rename"]));
    assert_eq!(find_aliases(&words(&["na", "re"]), Some(&d)), words(&["rename"]));
    assert_eq!(find_aliases(&words(&["e"]), Some(&d)), words(&["clean", "remove", "rename"]));
    assert_eq!(find_aliases(&words(&[]), Some(&d)), words(&["clean", "remove", "rename"]));
    assert_eq!(find_aliases(&words(&["RE"]), Some(&d)), words(&[]));
    assert_eq!(find_aliases(&words(&["renamed"]), Some(&d)), words(&[]));
    assert_eq!(find_aliases(&words(&["re"]), None), words(&[]));
}

#[test]
fn fragment_search_sorts_as_strings_sort() {
    let names = ["b", "a", "ab", "B", "é", "z", "aa", "", "a b", "_", "10", "9"];
    let d = directory(&names);
    let mut expected = words(&names);
    expected.sort();
    assert_eq!(find_aliases(&words(&[]), Some(&d)), expected);
}

#[test]
fn text_order() {
    let c = |s: &str| s.chars().collect::<Vec<char>>();
    for a in ["", "a", "ab", "b", "B", "é", "a\u{10000}", "a\u{ffff}"] {
        for b in ["", "a", "ab", "b", "B", "é", "a\u{10000}", "a\u{ffff}"] {
            assert_eq!(comes_before(&c(a), &c(b)), a < b, "{:?} {:?}", a, b);
        }
    }
}

#[test]
fn identifier_is_split_at_white_space() {
    assert_eq!(fragments("re na"), words(&["re", "na"]));
    assert_eq!(fragments("  re \t\n na  "), words(&["re", "na"]));
    assert_eq!(fragments(""), words(&[]));
    assert_eq!(fragments("   "), words(&[]));
    assert_eq!(fragments("one"), words(&["one"]));
    for text in ["a\u{00A0}b", "a\u{2003}b\u{3000}c", "x\u{0085}y", "a\u{200B}b", " é  ü "] {
        let expected: Vec<String> = text.split_whitespace().map(|s| s.to_string()).collect();
        assert_eq!(fragments(text), expected, "{:?}", text);
    }
    for code in 0u32..0x3100 {
        if let Some(c) = char::from_u32(code) {
            assert_eq!(is_whitespace(c), c.is_whitespace(), "{:x}", code);
        }
    }
    assert!(holds_all("rename", &words(&["re", "name", ""])));
    assert!(!holds_all("rename", &words(&["re", "x"])));
}

#[test]
fn exact_name_wins_and_default_comes_first() {
    let s = store(&["re", "rename"], Some(&["re", "remove"]));
    let found = s.lookup("re").unwrap();
    assert_eq!(shown(&found), vec![("re".to_string(), StorageRoot::Default)]);
    let found = s.lookup("remove").unwrap();
    assert_eq!(shown(&found), vec![("remove".to_string(), StorageRoot::Shared)]);
}

#[test]
fn fragments_resolve_to_sorted_candidates() {
    let s = store(&["rename", "clean", "remove"], Some(&["rename", "rest"]));
    let found = s.lookup("re na").unwrap();
    assert_eq!(
        shown(&found),
        vec![
            ("rename".to_string(), StorageRoot::Default),
            ("rename".to_string(), StorageRoot::Shared),
        ]
    );
    assert_eq!(labels(&found), words(&["rename", "rename (shared)"]));
    let found = s.lookup("r").unwrap();
    assert_eq!(
        labels(&found),
        words(&["remove", "rename", "rename (shared)", "rest (shared)"])
    );
    let found = s.lookup("cl").unwrap();
    assert_eq!(shown(&found), vec![("clean".to_string(), StorageRoot::Default)]);
    assert_eq!(s.lookup("zzz").err(), Some(AliasError::NotFound));
    assert_eq!(s.lookup("re zzz").err(), Some(AliasError::NotFound));
    let alone = store(&[], None);
    assert_eq!(alone.lookup("").err(), Some(AliasError::NotFound));
    assert_eq!(alone.find_candidates(&words(&[])).len(), 0);
}

#[test]
fn selection_picks_among_several() {
    let s = store(&["remove", "rename"], None);
    let found = s.lookup("re").unwrap();
    assert_eq!(pick(&found, Some(1)).unwrap().name, "rename");
    assert_eq!(pick(&found, Some(0)).unwrap().name, "remove");
    assert!(pick(&found, None).is_none());
    assert!(pick(&found, Some(2)).is_none());
    let one = s.lookup("rem").unwrap();
    assert_eq!(pick(&one, None).unwrap().name, "remove");
    assert_eq!(pick(&one, Some(5)).unwrap().name, "remove");
    assert!(pick(&Vec::new(), Some(0)).is_none());
    assert_eq!(s.resolve("re", Some(1)).unwrap().unwrap().name, "rename");
    assert!(s.resolve("re", None).unwrap().is_none());
    assert_eq!(s.resolve("x", None).err(), Some(AliasError::NotFound));
}

#[test]
fn add_of_a_reserved_name_fails_and_changes_nothing() {
    let mut s = store(&["up"], Some(&["list"]));
    let before = snapshot(&s);
    for root in [StorageRoot::Default, StorageRoot::Shared] {
        for overwrite in [false, true] {
            let r = s.add_alias("list", "ls", root, overwrite);
            assert_eq!(r, Err(AliasError::ReservedName));
            assert_eq!(snapshot(&s), before);
        }
    }
    assert!(!s.would_overwrite("list", StorageRoot::Shared));
}

#[test]
fn add_writes_a_new_record() {
    let mut s = store(&[], Some(&[]));
    assert_eq!(s.add_alias("up", "cd ..", StorageRoot::Default, false), Ok(true));
    assert_eq!(s.add_alias("up", "cd ../..", StorageRoot::Shared, false), Ok(true));
    assert_eq!(
        snapshot(&s),
        vec![
            (StorageRoot::Default, "up".to_string(), "cd ..\n\nconfirm=0".to_string()),
            (StorageRoot::Shared, "up".to_string(), "cd ../..\n\nconfirm=0".to_string()),
        ]
    );
}

#[test]
fn add_over_an_existing_file_needs_agreement() {
    let mut s = store(&["up"], None);
    let before = snapshot(&s);
    assert!(s.would_overwrite("up", StorageRoot::Default));
    assert!(!s.would_overwrite("down", StorageRoot::Default));
    assert!(!s.would_overwrite("up", StorageRoot::Shared));
    assert_eq!(s.add_alias("up", "cd ..", StorageRoot::Default, false), Ok(false));
    assert_eq!(snapshot(&s), before);
    assert_eq!(s.add_alias("up", "cd ..", StorageRoot::Default, true), Ok(true));
    assert_eq!(
        snapshot(&s),
        vec![(StorageRoot::Default, "up".to_string(), "cd ..\n\nconfirm=0".to_string())]
    );
}

#[test]
fn shared_root_must_be_configured() {
    let mut s = store(&["up"], None);
    let before = snapshot(&s);
    let r = s.add_alias("x", "y", StorageRoot::Shared, true);
    assert_eq!(r, Err(AliasError::Unconfigured));
    assert_eq!(snapshot(&s), before);
    let c = Candidate { name: "up".to_string(), root: StorageRoot::Shared };
    assert_eq!(s.load(&c).err(), Some(AliasError::Unconfigured));
    assert!(s.read_file(&c).is_none());
    assert!(!s.write_file(&c, "x".to_string()));
    assert!(!s.delete_file(&c));
    assert_eq!(snapshot(&s), before);
    assert!(s.directory(StorageRoot::Shared).is_none());
}

#[test]
fn rm_of_a_missing_alias_fails_and_changes_nothing() {
    let mut s = store(&["up", "down"], Some(&["deploy"]));
    let before = snapshot(&s);
    assert_eq!(s.remove_alias("nothing", None).err(), Some(AliasError::NotFound));
    assert_eq!(snapshot(&s), before);
    assert_eq!(s.remove_alias("nothing", Some(0)).err(), Some(AliasError::NotFound));
    assert_eq!(snapshot(&s), before);
}

#[test]
fn rm_removes_the_file_that_is_meant() {
    let mut s = store(&["up", "upper"], Some(&["upper"]));
    let removed = s.remove_alias("upp", Some(1)).unwrap().unwrap();
    assert_eq!(removed.name, "upper");
    assert_eq!(removed.root, StorageRoot::Shared);
    assert!(s.holds("upper", StorageRoot::Default));
    assert!(!s.holds("upper", StorageRoot::Shared));
    let before = snapshot(&s);
    assert!(s.remove_alias("u", None).unwrap().is_none());
    assert_eq!(snapshot(&s), before);
    let removed = s.remove_alias("up", None).unwrap().unwrap();
    assert_eq!(removed.root, StorageRoot::Default);
    assert!(!s.holds("up", StorageRoot::Default));
}

#[test]
fn description_and_confirmation_are_rewritten_in_place() {
    let mut s = store(&["up"], Some(&["up2"]));
    let al = s.add_description("up", None, "go up").unwrap().unwrap();
    assert_eq!(al.get_description(), "go up");
    let al = s.set_confirmation("up2", None, 2).unwrap().unwrap();
    assert!(!al.is_in_main_storage());
    assert_eq!(
        snapshot(&s),
        vec![
            (StorageRoot::Default, "up".to_string(), "run up\ngo up\nconfirm=0".to_string()),
            (StorageRoot::Shared, "up2".to_string(), "run up2\n\nconfirm=2".to_string()),
        ]
    );
    s.add_description("up", None, "-").unwrap();
    s.set_confirmation("up", None, 9).unwrap();
    assert_eq!(s.load_alias("up", None).unwrap().unwrap().write(), "run up\n\nconfirm=0");
    assert_eq!(s.add_description("none", None, "x").err(), Some(AliasError::NotFound));
    assert_eq!(s.set_confirmation("none", None, 1).err(), Some(AliasError::NotFound));
}

#[test]
fn modify_applies_the_change_to_the_same_file() {
    let mut s = store(&["up"], None);
    let written = s
        .modify_alias("up", None, |al: Alias| {
            Alias::new("other", "changed", al.get_description(), 1, StorageRoot::Shared)
        })
        .unwrap()
        .unwrap();
    assert_eq!(written.get_command(), "changed");
    assert_eq!(
        snapshot(&s),
        vec![(StorageRoot::Default, "up".to_string(), "changed\n\nconfirm=1".to_string())]
    );
    let before = snapshot(&s);
    let r = s.modify_alias("zz", None, |al: Alias| al);
    assert_eq!(r.err(), Some(AliasError::NotFound));
    assert_eq!(snapshot(&s), before);
}

#[test]
fn empty_file_does_not_load() {
    let mut d = Directory::new();
    d.insert("void".to_string(), String::new());
    let s = Store::new(d, None);
    assert_eq!(s.load_alias("void", None).err(), Some(AliasError::Empty));
    let out = s.find_and_exec_alias("void", None, &Reply::Unasked, "/", Arguments::new(), no_answer);
    assert_eq!(out.line, Some(" ".to_string()));
    assert_eq!(out.error, Some(AliasError::Empty));
}

#[test]
fn copy_keeps_parameters_that_get_no_answer() {
    let mut d = Directory::new();
    d.insert("send".to_string(), "scp ?[file] ?[host]:?[dir]\ncopy over\nconfirm=2".to_string());
    let mut s = Store::new(d, Some(Directory::new()));
    let copy = s
        .copy_alias("send", None, "send_home", StorageRoot::Shared, |al: &Alias, name: &str| {
            assert_eq!(al.get_alias(), "send");
            if name == "host" { "home".to_string() } else { String::new() }
        })
        .unwrap()
        .unwrap();
    assert_eq!(copy.get_alias(), "send_home");
    assert_eq!(copy.get_command(), "scp ?[file] home:?[dir]");
    assert_eq!(copy.get_description(), "copy over");
    assert_eq!(copy.get_confirmation_level(), 2);
    assert!(!copy.is_in_main_storage());
    assert_eq!(s.store_alias(&copy, false), Ok(true));
    assert_eq!(
        s.load_alias("send_home", None).unwrap().unwrap().write(),
        "scp ?[file] home:?[dir]\ncopy over\nconfirm=2"
    );
    assert_eq!(s.copy_alias("gone", None, "x", StorageRoot::Default, no_answer).err(),
        Some(AliasError::NotFound));
    let reserved = s.copy_alias("send", None, "rm", StorageRoot::Default, no_answer).unwrap().unwrap();
    assert_eq!(s.store_alias(&reserved, true), Err(AliasError::ReservedName));
    let alone = store(&["send"], None);
    let never = |_a: &Alias, n: &str| -> String { panic!("asked for {}", n) };
    assert_eq!(
        alone.copy_alias("send", None, "x", StorageRoot::Shared, never).err(),
        Some(AliasError::Unconfigured)
    );
}

#[test]
fn running_an_alias_that_is_chosen() {
    let s = store(&["remove", "rename"], None);
    let run = |selection: Option<usize>| {
        s.find_and_exec_alias("re", selection, &Reply::Unasked, "/", Arguments::new(), no_answer)
    };
    let out = run(Some(1));
    assert_eq!(out.line, Some("run rename".to_string()));
    assert_eq!(out.error, None);
    let out = run(None);
    assert_eq!(out.line, None);
    assert_eq!(out.error, None);
    let out =
        s.find_and_exec_alias("zz", None, &Reply::Unasked, "/", Arguments::new(), no_answer);
    assert_eq!(out.line, Some(" ".to_string()));
    assert_eq!(out.error, Some(AliasError::NotFound));
}
