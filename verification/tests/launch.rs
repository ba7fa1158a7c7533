use cosmic_wanderer::launcher::prepare_launch;
use cosmic_wanderer::launcher::strip_placeholders;
use cosmic_wanderer::launcher::tokenize_exec;

#[test]
fn placeholders_are_stripped_before_tokenizing() {
    let words = tokenize_exec("app %U --flag %f");
    assert_eq!(words, vec!["app".to_string(), "--flag".to_string()]);
}

#[test]
fn strip_removes_each_placeholder_pass_by_pass() {
    assert_eq!(strip_placeholders("app %U --flag %f"), "app  --flag ");
    assert_eq!(strip_placeholders("run %F %u"), "run  ");
    assert_eq!(strip_placeholders("plain"), "plain");
    // removing %U joins the surrounding % and F, and the later %F pass
    // removes the pair it forms
    assert_eq!(strip_placeholders("%%UF"), "");
    // a marker without % survives, and % before another letter survives
    assert_eq!(strip_placeholders("50%u U%x"), "50 U%x");
}

#[test]
fn first_word_is_the_executable() {
    let (cmd, args) = prepare_launch("gedit %U --new-window").expect("a command");
    assert_eq!(cmd, "gedit");
    assert_eq!(args, vec!["--new-window".to_string()]);
}

#[test]
fn quoting_is_honoured() {
    let (cmd, args) = prepare_launch("sh -c \"echo hi there\"").expect("a command");
    assert_eq!(cmd, "sh");
    assert_eq!(args, vec!["-c".to_string(), "echo hi there".to_string()]);
}

#[test]
fn an_empty_template_gives_no_command() {
    assert!(prepare_launch("").is_none());
    assert!(prepare_launch("%U %F").is_none());
    assert!(prepare_launch("   ").is_none());
}
