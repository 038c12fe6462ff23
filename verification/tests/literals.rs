use leo_debugger::literals::{can_read_program, has_fitting_literals, MAX_PROGRAM_BYTES};
use snarkvm::prelude::{Network, Program, TestnetV0, Value};
use std::str::FromStr;

fn quoted(text: &str, n: usize) -> String {
    format!("\"{}\"", text.repeat(n))
}

#[test]
fn literals_fit_up_to_their_limit() {
    assert!(has_fitting_literals(""));
    assert!(has_fitting_literals("\"\""));
    assert!(has_fitting_literals(&quoted("a", 255)));
    assert!(!has_fitting_literals(&quoted("a", 256)));
    assert!(has_fitting_literals(&quoted("ü", 127)));
    assert!(!has_fitting_literals(&quoted("ü", 128)));
    assert!(!has_fitting_literals(&quoted("水", 86)));
    assert!(!has_fitting_literals(&quoted("😀", 64)));
    assert!(has_fitting_literals(&"a".repeat(1000)));
}

#[test]
fn escapes_count_by_what_they_stand_for() {
    assert!(has_fitting_literals(&quoted("\\n", 255)));
    assert!(!has_fitting_literals(&quoted("\\n", 256)));
    assert!(has_fitting_literals(&quoted("\\\"", 255)));
    assert!(!has_fitting_literals(&quoted("\\\\", 256)));
    assert!(has_fitting_literals(&quoted("\\u{e4}", 127)));
    assert!(!has_fitting_literals(&quoted("\\u{e4}", 128)));
    assert!(!has_fitting_literals(&quoted("\\u{01F600}", 64)));
    assert!(has_fitting_literals(&quoted("\\  \n\t", 300)));
    assert!(has_fitting_literals(&quoted("\\x", 300)));
    assert!(has_fitting_literals(&quoted("\\u{d800}", 300)));
    assert!(has_fitting_literals(&quoted("\\u{1234567}", 300)));
}

#[test]
fn what_stands_between_literals_does_not_count() {
    let far = format!("\"a\"{}\"b\"", " ".repeat(300));
    assert!(has_fitting_literals(&far));
    assert!(!has_fitting_literals(&format!("{far} {}", quoted("a", 256))));
    assert!(has_fitting_literals(&format!("\"{}", "a".repeat(300))));
}

#[test]
fn comments_hold_no_literals() {
    let long = quoted("a", 256);
    assert!(has_fitting_literals(&format!("// {long}")));
    assert!(!has_fitting_literals(&format!("//\n{long}")));
    assert!(has_fitting_literals(&format!("// joined \\\n{long}\n")));
    assert!(!has_fitting_literals(&format!("// \"\n{long}")));
    assert!(has_fitting_literals(&format!("/* {long} */")));
    assert!(!has_fitting_literals(&format!("/* \" */ {long}")));
    assert!(!has_fitting_literals(&format!("/ {long}")));
    assert!(has_fitting_literals(&format!("/* {long}")));
}

#[test]
fn literals_that_fit_are_read() {
    for text in [
        quoted("a", 255),
        quoted("\\n", 255),
        quoted("\\u{e4}", 127),
        quoted("\\  \n\t", 300),
        format!("// {}\n\"b\"", quoted("a", 256)),
    ] {
        assert!(has_fitting_literals(&text));
        assert!(Value::<TestnetV0>::from_str(&text).is_ok());
    }
    for text in [quoted("\\x", 300), quoted("\\u{d800}", 300), format!("\"{}", "a".repeat(300))] {
        assert!(has_fitting_literals(&text));
        assert!(Value::<TestnetV0>::from_str(&text).is_err());
    }
}

#[test]
fn programs_that_are_too_long_are_turned_down_unread() {
    assert_eq!(TestnetV0::LATEST_MAX_PROGRAM_SIZE(), MAX_PROGRAM_BYTES);
    let literal = quoted("a", 256);
    assert!(!can_read_program(&literal));
    assert!(can_read_program("program a.aleo;"));
    let start = "program a.aleo;\nfunction f:\n    assert.eq ";
    let blanks = " ".repeat(MAX_PROGRAM_BYTES - start.len() - literal.len());
    assert!(!can_read_program(&format!("{start}{blanks}{literal}")));
    let long = format!("{start}{blanks} {literal}");
    assert!(can_read_program(&long));
    let error = Program::<TestnetV0>::from_str(&long).unwrap_err().to_string();
    assert_eq!(error, "Program length exceeds N::MAX_PROGRAM_SIZE.");
}
