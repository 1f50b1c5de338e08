use jumpcut::invocation::read_invocation;

fn words(items: &[&str]) -> Vec<String> {
    items.iter().map(|s| s.to_string()).collect()
}

#[test]
fn words_with_values_become_arguments() {
    let r = read_invocation(&words(&["re", "--a=foo", "na", "--b_2=x=y"]));
    assert_eq!(r.alias_name_parts, words(&["re", "na"]));
    assert_eq!(r.alias_args.get("a"), Some(&"foo".to_string()));
    assert_eq!(r.alias_args.get("b_2"), Some(&"x=y".to_string()));
}

#[test]
fn later_value_replaces_the_earlier() {
    let r = read_invocation(&words(&["--a=1", "--a=2"]));
    assert!(r.alias_name_parts.is_empty());
    assert_eq!(r.alias_args.get("a"), Some(&"2".to_string()));
}

#[test]
fn words_without_a_value_name_the_alias() {
    let r = read_invocation(&words(&["--a=", "--=x", "-a=1", "--a-b=1", "---", "a=b"]));
    assert_eq!(r.alias_name_parts, words(&["--a=", "--=x", "-a=1", "--a-b=1", "---", "a=b"]));
    assert!(r.alias_args.names().is_empty());
}

#[test]
fn value_is_searched_for_anywhere_in_the_word() {
    let r = read_invocation(&words(&["x--n=v"]));
    assert!(r.alias_name_parts.is_empty());
    assert_eq!(r.alias_args.get("n"), Some(&"v".to_string()));
}

#[test]
fn no_words() {
    let r = read_invocation(&words(&[]));
    assert!(r.alias_name_parts.is_empty());
    assert!(r.alias_args.names().is_empty());
}

#[test]
fn word_is_placed_by_its_groups() {
    let mut inv = jumpcut::invocation::Invocation::new();
    inv.take_word("--a=1", Some((Some("a".to_string()), Some("1".to_string()))));
    inv.take_word("plain", None);
    inv.take_word("half", Some((Some("n".to_string()), None)));
    inv.take_word("other", Some((None, Some("v".to_string()))));
    assert_eq!(inv.alias_name_parts, words(&["plain", "half", "other"]));
    assert_eq!(inv.alias_args.names(), words(&["a"]));
    assert_eq!(inv.alias_args.get("a"), Some(&"1".to_string()));
}
