use mal_rust::env::{Env, Heap};
use mal_rust::evaluator::{new_root, rep, STEP_LIMIT};
use mal_rust::types::{MalError, MalErrorReason};

fn session() -> (Heap, Env) {
    let mut heap = Heap::new();
    let root = new_root(&mut heap);
    rep(
        &mut heap,
        "(def! not (fn* (a) (if a false true)))".to_string(),
        root,
        STEP_LIMIT,
    )
    .unwrap();
    (heap, root)
}

fn run(heap: &mut Heap, root: Env, input: &str) -> Result<String, MalError> {
    rep(heap, input.to_string(), root, STEP_LIMIT)
}

fn ok(heap: &mut Heap, root: Env, input: &str) -> String {
    match run(heap, root, input) {
        Ok(s) => s,
        Err(e) => panic!("{} failed: {:?}", input, e),
    }
}

#[test]
fn adds_two_numbers() {
    let (mut heap, root) = session();
    assert_eq!(ok(&mut heap, root, "(+ 1 2)"), "3");
}

#[test]
fn definition_then_use() {
    let (mut heap, root) = session();
    assert_eq!(ok(&mut heap, root, "(def! x 10)"), "10");
    assert_eq!(ok(&mut heap, root, "(+ x x)"), "20");
}

#[test]
fn let_star_sees_earlier_bindings() {
    let (mut heap, root) = session();
    assert_eq!(ok(&mut heap, root, "(let* (a 5 b (+ a 1)) (* a b))"), "30");
}

#[test]
fn list_predicate_and_count_of_nil() {
    let (mut heap, root) = session();
    assert_eq!(ok(&mut heap, root, "(list? (list 1 2 3))"), "true");
    assert_eq!(ok(&mut heap, root, "(count nil)"), "0");
}

#[test]
fn variadic_parameters_collect_the_rest() {
    let (mut heap, root) = session();
    assert_eq!(ok(&mut heap, root, "((fn* (a & more) more) 1 2 3)"), "(2 3)");
}

#[test]
fn malformed_input_leaves_the_session_usable() {
    let (mut heap, root) = session();
    assert_eq!(ok(&mut heap, root, "(def! y 7)"), "7");
    let err = run(&mut heap, root, "(1 2").unwrap_err();
    assert!(matches!(err.reason(), MalErrorReason::UnexpectedEOF));
    assert_eq!(ok(&mut heap, root, "(+ y 1)"), "8");
    assert_eq!(ok(&mut heap, root, "(+ 1 2)"), "3");
}

#[test]
fn unterminated_string_is_reported() {
    let (mut heap, root) = session();
    let err = run(&mut heap, root, "\"abc").unwrap_err();
    assert!(matches!(err.reason(), MalErrorReason::UnexpectedEndOfString));
}

#[test]
fn blank_and_comment_lines_are_blank() {
    let (mut heap, root) = session();
    let err = run(&mut heap, root, "   ").unwrap_err();
    assert!(matches!(err.reason(), MalErrorReason::BlankLine));
    let err = run(&mut heap, root, "; just a comment").unwrap_err();
    assert!(matches!(err.reason(), MalErrorReason::BlankLine));
}

#[test]
fn tail_recursion_runs_in_constant_stack() {
    let (mut heap, root) = session();
    ok(
        &mut heap,
        root,
        "(def! count-down (fn* (n acc) (if (= n 0) acc (count-down (- n 1) (+ acc 1)))))",
    );
    assert_eq!(ok(&mut heap, root, "(count-down 100000 0)"), "100000");
}

#[test]
fn closures_keep_their_defining_scope() {
    let (mut heap, root) = session();
    ok(&mut heap, root, "(def! get-x (let* (x 1) (fn* () x)))");
    ok(&mut heap, root, "(def! x 2)");
    assert_eq!(ok(&mut heap, root, "(let* (x 3) (get-x))"), "1");
    assert_eq!(ok(&mut heap, root, "((fn* (x) (get-x)) 4)"), "1");
}

#[test]
fn closures_share_an_atom() {
    let (mut heap, root) = session();
    ok(&mut heap, root, "(def! counter (atom 0))");
    ok(&mut heap, root, "(def! bump (fn* () (swap! counter (fn* (v) (+ v 1)))))");
    ok(&mut heap, root, "(def! put (fn* (v) (reset! counter v)))");
    assert_eq!(ok(&mut heap, root, "(bump)"), "1");
    assert_eq!(ok(&mut heap, root, "(put 10)"), "10");
    assert_eq!(ok(&mut heap, root, "(bump)"), "11");
    assert_eq!(ok(&mut heap, root, "@counter"), "11");
    assert_eq!(ok(&mut heap, root, "(atom? counter)"), "true");
}

#[test]
fn swap_passes_extra_arguments() {
    let (mut heap, root) = session();
    ok(&mut heap, root, "(def! a (atom 5))");
    assert_eq!(ok(&mut heap, root, "(swap! a + 2 3)"), "10");
    assert_eq!(ok(&mut heap, root, "(deref a)"), "10");
}

#[test]
fn quasiquote_splices_and_unquotes() {
    let (mut heap, root) = session();
    assert_eq!(ok(&mut heap, root, "`(1 ~@(list 2 3) 4)"), "(1 2 3 4)");
    assert_eq!(ok(&mut heap, root, "`(a ~(+ 1 2))"), "(a 3)");
    assert_eq!(ok(&mut heap, root, "`sym"), "sym");
    assert_eq!(ok(&mut heap, root, "`()"), "()");
}

#[test]
fn if_without_else_gives_nil() {
    let (mut heap, root) = session();
    assert_eq!(ok(&mut heap, root, "(if false 1)"), "nil");
    assert_eq!(ok(&mut heap, root, "(if nil 1 2)"), "2");
    assert_eq!(ok(&mut heap, root, "(if 0 1 2)"), "1");
    assert_eq!(ok(&mut heap, root, "(not false)"), "true");
}

#[test]
fn do_returns_the_last_value() {
    let (mut heap, root) = session();
    assert_eq!(ok(&mut heap, root, "(do (def! z 1) (+ z 1))"), "2");
    assert_eq!(ok(&mut heap, root, "z"), "1");
}

#[test]
fn maps_evaluate_values_only() {
    let (mut heap, root) = session();
    assert_eq!(ok(&mut heap, root, "{:a (+ 1 1) b 3}"), "{:a 2 b 3}");
    assert_eq!(ok(&mut heap, root, "[1 (+ 1 1)]"), "[1 2]");
}

#[test]
fn equality_crosses_list_and_vector() {
    let (mut heap, root) = session();
    assert_eq!(ok(&mut heap, root, "(= [1 2] (list 1 2))"), "true");
    assert_eq!(ok(&mut heap, root, "(= {:a 1} {:a 2})"), "false");
    assert_eq!(ok(&mut heap, root, "(= \"a\" \"a\")"), "true");
    assert_eq!(ok(&mut heap, root, "(< 1 2)"), "true");
    assert_eq!(ok(&mut heap, root, "(>= 1 2)"), "false");
}

#[test]
fn strings_print_readably_or_not() {
    let (mut heap, root) = session();
    assert_eq!(ok(&mut heap, root, "(pr-str \"a\\nb\" 1)"), "\"\\\"a\\\\nb\\\" 1\"");
    assert_eq!(ok(&mut heap, root, "(str \"a\" 1 :k)"), "\"a1:k\"");
    ok(&mut heap, root, "(prn \"x\" 2)");
    ok(&mut heap, root, "(println \"x\" 2)");
    let lines = heap.take_output();
    assert_eq!(lines, vec!["\"x\" 2".to_string(), "x 2".to_string()]);
}

#[test]
fn read_string_and_eval() {
    let (mut heap, root) = session();
    assert_eq!(ok(&mut heap, root, "(eval (read-string \"(+ 2 3)\"))"), "5");
    assert_eq!(ok(&mut heap, root, "(cons 0 [1 2])"), "(0 1 2)");
    assert_eq!(ok(&mut heap, root, "(concat (list 1) [2] ())"), "(1 2)");
    assert_eq!(ok(&mut heap, root, "(empty? [])"), "true");
}

#[test]
fn slurp_reads_registered_files() {
    let (mut heap, root) = session();
    heap.add_file("f.mal".to_string(), "(+ 40 2)".to_string());
    assert_eq!(ok(&mut heap, root, "(eval (read-string (slurp \"f.mal\")))"), "42");
    let err = run(&mut heap, root, "(slurp \"missing\")").unwrap_err();
    assert!(matches!(err.reason(), MalErrorReason::Generic(_)));
}

#[test]
fn each_error_kind_has_an_input() {
    let (mut heap, root) = session();
    let reason = |heap: &mut Heap, s: &str| run(heap, root, s).unwrap_err().reason().clone();
    assert!(matches!(reason(&mut heap, "(+ 1 :a)"), MalErrorReason::NotANumber));
    match reason(&mut heap, "undefined-name") {
        MalErrorReason::SymbolNotFound(s) => assert_eq!(s, "undefined-name"),
        other => panic!("unexpected {:?}", other),
    }
    assert!(matches!(reason(&mut heap, "(1 2)"), MalErrorReason::NotAFunction));
    assert!(matches!(reason(&mut heap, "(cons 1)"), MalErrorReason::WrongArguments(_)));
    assert!(matches!(reason(&mut heap, "(/ 1 0)"), MalErrorReason::Generic(_)));
    assert!(matches!(reason(&mut heap, "(let* (a) a)"), MalErrorReason::Unknown));
    assert!(matches!(
        reason(&mut heap, "(+ 9223372036854775807 1)"),
        MalErrorReason::Generic(_)
    ));
    assert!(matches!(reason(&mut heap, "(def! 1 2)"), MalErrorReason::WrongArguments(_)));
}

#[test]
fn a_step_budget_stops_runaway_loops() {
    let (mut heap, root) = session();
    ok(&mut heap, root, "(def! forever (fn* () (forever)))");
    let err = rep(&mut heap, "(forever)".to_string(), root, 1000).unwrap_err();
    assert!(matches!(err.reason(), MalErrorReason::Generic(_)));
}

#[test]
fn arithmetic_truncates_and_folds() {
    let (mut heap, root) = session();
    assert_eq!(ok(&mut heap, root, "(/ -7 2)"), "-3");
    assert_eq!(ok(&mut heap, root, "(- 10 1 2)"), "7");
    assert_eq!(ok(&mut heap, root, "(*)"), "1");
    assert_eq!(ok(&mut heap, root, "(+)"), "0");
}

#[test]
fn sums_that_fit_are_exact() {
    let (mut heap, root) = session();
    assert_eq!(ok(&mut heap, root, "(+ 9223372036854775807 1 -1)"), "9223372036854775807");
    assert_eq!(ok(&mut heap, root, "(- -9223372036854775808 1 -1)"), "-9223372036854775808");
    assert_eq!(ok(&mut heap, root, "(* 4611686018427387904 4 0)"), "0");
}
