//! Tests for the toplevel line helpers.

use kernel::repl::{
    find_matching_bracket, get_bracket, is_bracket, is_command, is_open_bracket,
    matching_bracket, validate_arrows, validate_brackets, LineStatus, TabEventHandler,
};

#[test]
fn is_command_no_crash() {
    assert!(!is_command(""));
    assert!(is_command("a"));
    assert!(is_command("aa"));
    assert!(is_command("aaa"));
    assert!(is_command("aaaa"));
}

#[test]
fn is_command_false() {
    assert!(!is_command("    "));
    assert!(!is_command(" "));
    assert!(!is_command("// comment"));
}

#[test]
fn is_command_true() {
    assert!(is_command("     check x"));
    assert!(is_command("  check x"));
    assert!(is_command("check x // comment"));
}

#[test]
fn get_bracket_empty() {
    assert!(get_bracket("", 0).is_none());
}

#[test]
fn get_bracket_out_of_bound() {
    assert!(get_bracket("(())", 4).is_none());
}

#[test]
fn get_bracket_not_found() {
    assert!(get_bracket("a()[", 0).is_none());
    assert!(get_bracket("a()[", 3).is_none());
}

#[test]
fn get_bracket_found() {
    assert_eq!(get_bracket("a()[", 1), Some((b'(', 1)));
    assert_eq!(get_bracket("a()[", 2), Some((b')', 2)));
}

#[test]
fn find_matching_bracket_direction() {
    assert!(find_matching_bracket("  )", 1, b')').is_none());
    assert!(find_matching_bracket("(  ", 1, b'(').is_none());

    assert_eq!(find_matching_bracket("  )", 1, b'('), Some((')', 2)));
    assert_eq!(find_matching_bracket("(  ", 1, b')'), Some(('(', 0)));
}

#[test]
fn find_matching_bracket_counter() {
    assert_eq!(find_matching_bracket(" (())))", 0, b'('), Some((')', 5)));
    assert_eq!(find_matching_bracket("(((()) ", 6, b')'), Some(('(', 1)));
}

#[test]
fn replace_inplace() {
    let mut message = "mot motus et mots mot mot".to_owned();

    kernel::repl::replace_inplace(&mut message, "mot", "mots");

    assert_eq!(message, "mots motus et mots mots mots".to_owned());
}

#[test]
fn replace_inplace_adjacent_words() {
    let mut message = "mot".to_owned();
    kernel::repl::replace_inplace(&mut message, "mot", "word");
    assert_eq!(message, "word".to_owned());
}

#[test]
fn bracket_classifiers() {
    assert!(is_bracket(b'('));
    assert!(is_bracket(b')'));
    assert!(!is_bracket(b'['));
    assert!(is_open_bracket(b'('));
    assert!(!is_open_bracket(b')'));
    assert_eq!(matching_bracket(b'('), ')');
    assert_eq!(matching_bracket(b')'), '(');
}

#[test]
fn validators() {
    assert_eq!(validate_arrows("f x ->  "), Some(LineStatus::Incomplete));
    assert_eq!(validate_arrows("f x"), None);
    assert_eq!(validate_brackets("(()"), Some(LineStatus::Incomplete));
    assert_eq!(
        validate_brackets("())"),
        Some(LineStatus::Invalid(
            "\nMismatched brackets: ( is unpaired".to_owned()
        ))
    );
    assert_eq!(validate_brackets("(())"), None);
}

#[test]
fn tab_handler() {
    assert_eq!(TabEventHandler::indent("import foo"), None);
    assert_eq!(TabEventHandler::indent("check x"), Some("  ".to_owned()));
}
