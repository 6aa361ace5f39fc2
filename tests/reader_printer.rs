use mal_rust::builtins::values_equal;
use mal_rust::env::{Env, Heap};
use mal_rust::printer::{print_str, print_string};
use mal_rust::reader::{read_str, tokenize, Reader};
use mal_rust::types::{MalErrorReason, MalType};

fn read(s: &str) -> MalType {
    read_str(s.to_string()).unwrap()
}

#[test]
fn numbers_symbols_and_literals() {
    assert!(matches!(read("42"), MalType::Number(42)));
    assert!(matches!(read("-17"), MalType::Number(-17)));
    assert!(matches!(read("-9223372036854775808"), MalType::Number(i64::MIN)));
    assert!(matches!(read("9223372036854775808"), MalType::Number(0)));
    assert!(matches!(read("1.5"), MalType::Number(0)));
    assert!(matches!(read("nil"), MalType::Nil));
    assert!(matches!(read("true"), MalType::True));
    assert!(matches!(read("false"), MalType::False));
    match read("-") {
        MalType::Symbol(s) => assert_eq!(s, "-"),
        other => panic!("unexpected {:?}", other),
    }
    match read(":key") {
        MalType::Keyword(s) => assert_eq!(s, "key"),
        other => panic!("unexpected {:?}", other),
    }
}

#[test]
fn strings_unescape() {
    match read("\"a\\nb\\\"c\\\\d\\qe\"") {
        MalType::String(s) => assert_eq!(s, "a\nb\"c\\dqe"),
        other => panic!("unexpected {:?}", other),
    }
}

#[test]
fn reader_macros_expand() {
    assert_eq!(print_str(&read("'a"), true), "(quote a)");
    assert_eq!(print_str(&read("`a"), true), "(quasiquote a)");
    assert_eq!(print_str(&read("~a"), true), "(unquote a)");
    assert_eq!(print_str(&read("~@a"), true), "(splice-unquote a)");
    assert_eq!(print_str(&read("@a"), true), "(deref a)");
    assert_eq!(print_str(&read("^{:m 1} [1]"), true), "(with-meta [1] {:m 1})");
}

#[test]
fn collections_and_trailing_input() {
    assert_eq!(print_str(&read("( 1 , 2  [3 {4 5}] )"), true), "(1 2 [3 {4 5}])");
    assert_eq!(print_str(&read("(1) (2)"), true), "(1)");
    assert_eq!(print_str(&read("(a ; comment\n b)"), true), "(a b)");
}

#[test]
fn unterminated_collections_fail() {
    let err = read_str("[1 2".to_string()).unwrap_err();
    assert!(matches!(err.reason(), MalErrorReason::UnexpectedEOF));
    let err = read_str("(\"x".to_string()).unwrap_err();
    assert!(matches!(err.reason(), MalErrorReason::UnexpectedEndOfString));
    let err = read_str("".to_string()).unwrap_err();
    assert!(matches!(err.reason(), MalErrorReason::BlankLine));
}

#[test]
fn tokens_follow_the_grammar() {
    let toks = tokenize("(~@a 'b \"s\\\" t\" ; c\n :k)");
    assert_eq!(toks, vec!["(", "~@", "a", "'", "b", "\"s\\\" t\"", ":k", ")"]);
    let toks = tokenize("\"open");
    assert_eq!(toks, vec!["\"open"]);
}

#[test]
fn reader_cursor_moves() {
    let mut r = Reader::new(vec!["a".to_string(), "b".to_string()]);
    assert_eq!(r.peek(), Some("a".to_string()));
    assert_eq!(r.next(), Some("a".to_string()));
    assert_eq!(r.next(), Some("b".to_string()));
    assert_eq!(r.next(), None);
    assert_eq!(r.peek(), None);
}

#[test]
fn printing_escapes_exactly_what_reading_needs() {
    assert_eq!(print_string("a\"b\\c\nd"), "\"a\\\"b\\\\c\\nd\"");
    assert_eq!(print_string("it's\t"), "\"it's\t\"");
    let s = MalType::String("x\ny".to_string());
    assert_eq!(print_str(&s, true), "\"x\\ny\"");
    assert_eq!(print_str(&s, false), "x\ny");
    assert_eq!(print_str(&MalType::Number(-120), true), "-120");
    assert_eq!(print_str(&MalType::Number(i64::MIN), true), "-9223372036854775808");
    assert_eq!(print_str(&MalType::Atom(0), true), "#<atom>");
}

#[test]
fn printed_literals_read_back_equal() {
    for text in [
        "(1 -2 [a :b \"c\\\"\\n\\\\\"] {x nil y true} false ())",
        "[[] {} \"\" :k sym-bol]",
        "-9223372036854775808",
    ] {
        let v = read(text);
        let again = read(&print_str(&v, true));
        assert!(values_equal(&v, &again), "{}", text);
        assert_eq!(print_str(&again, true), print_str(&v, true));
    }
}

#[test]
fn closures_print_opaquely() {
    let mut heap = Heap::new();
    let root = mal_rust::evaluator::new_root(&mut heap);
    let f = root.get(&heap, "+").unwrap();
    assert_eq!(print_str(&f, true), "#<function>");
    let _ = Env::new(&mut heap, Some(root));
}

#[test]
fn unicode_white_space_separates_tokens() {
    for blank in ["\u{a0}", "\u{3000}", " \u{2028},\u{85}"] {
        let err = read_str(blank.to_string()).unwrap_err();
        assert!(matches!(err.reason(), MalErrorReason::BlankLine));
    }
    assert_eq!(print_str(&read("(1\u{a0}2\u{2003}3)"), true), "(1 2 3)");
}

#[test]
fn unicode_digits_look_numeric() {
    assert!(matches!(read("\u{663}"), MalType::Number(0)));
    assert!(matches!(read("-\u{663}\u{664}"), MalType::Number(0)));
    assert!(matches!(read("12"), MalType::Number(12)));
}

#[test]
fn final_backslash_is_an_unterminated_string() {
    let err = read_str("\"ab\\".to_string()).unwrap_err();
    assert!(matches!(err.reason(), MalErrorReason::UnexpectedEndOfString));
}
