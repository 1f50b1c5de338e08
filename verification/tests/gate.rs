use jumpcut::alias::{Alias, StorageRoot};
use jumpcut::arguments::Arguments;
use jumpcut::error::AliasError;
use jumpcut::gate::{exec_alias, exec_nothing, Prompt, Reply, Verdict};

fn not_asked(_alias: &Alias, name: &str) -> String {
    panic!("the command was read: asked for {}", name)
}

fn leveled(level: i8) -> Alias {
    Alias::new("deploy", "run ?[target]", "", level, StorageRoot::Default)
}

#[test]
fn prompt_texts() {
    assert!(matches!(leveled(0).confirmation_prompt(), Prompt::Nothing));
    match leveled(1).confirmation_prompt() {
        Prompt::Confirm(text) => assert_eq!(text, "Execute alias \"deploy\"?"),
        other => panic!("{:?}", other),
    }
    match leveled(2).confirmation_prompt() {
        Prompt::Input(text) => assert_eq!(text, "Type \"deploy\" to confirm"),
        other => panic!("{:?}", other),
    }
}

#[test]
fn verdicts() {
    assert_eq!(leveled(0).verdict(&Reply::Unasked), Verdict::Run);
    assert_eq!(leveled(0).verdict(&Reply::Decision(false)), Verdict::Run);
    assert_eq!(leveled(1).verdict(&Reply::Decision(true)), Verdict::Run);
    assert_eq!(leveled(1).verdict(&Reply::Decision(false)), Verdict::Decline);
    assert_eq!(leveled(1).verdict(&Reply::Unasked), Verdict::Decline);
    assert_eq!(leveled(2).verdict(&Reply::Typed("deploy".to_string())), Verdict::Run);
    assert_eq!(leveled(2).verdict(&Reply::Typed("Deploy".to_string())), Verdict::Mismatch);
    assert_eq!(leveled(2).verdict(&Reply::Typed("deploy ".to_string())), Verdict::Mismatch);
    assert_eq!(leveled(2).verdict(&Reply::Typed(String::new())), Verdict::Mismatch);
    assert_eq!(leveled(2).verdict(&Reply::Decision(true)), Verdict::Mismatch);
}

#[test]
fn declining_gives_one_blank_line_and_reads_nothing() {
    let out = exec_alias(&leveled(1), &Reply::Decision(false), "/tmp", Arguments::new(), not_asked);
    assert_eq!(out.line, " ");
    assert_eq!(out.line.lines().count(), 1);
    assert_eq!(out.error, None);
}

#[test]
fn mismatch_gives_a_blank_line_and_an_error() {
    let reply = Reply::Typed("nope".to_string());
    let out = exec_alias(&leveled(2), &reply, "/tmp", Arguments::new(), not_asked);
    assert_eq!(out.line, " ");
    assert_eq!(out.error, Some(AliasError::InputMismatch));
}

#[test]
fn accepted_alias_is_expanded() {
    let mut args = Arguments::new();
    args.insert("target".to_string(), "prod".to_string());
    let out = exec_alias(&leveled(1), &Reply::Decision(true), "/tmp", args, not_asked);
    assert_eq!(out.line, "run prod");
    assert_eq!(out.error, None);

    let reply = Reply::Typed("deploy".to_string());
    let out = exec_alias(&leveled(2), &reply, "/tmp", Arguments::new(), |_a: &Alias, n: &str| {
        format!("<{}>", n)
    });
    assert_eq!(out.line, "run <target>");
    assert_eq!(out.error, None);
}

#[test]
fn blank_line_is_a_single_space() {
    assert_eq!(exec_nothing(), " ");
}
