use mal_rust::builtins::{count, deref, divide, is_empty, minus, multiply, plus, read_string};
use mal_rust::env::{Env, Heap};
use mal_rust::evaluator::{eval_func, quasiquote, STEP_LIMIT};
use mal_rust::printer::print_str;
use mal_rust::reader::read_str;
use mal_rust::types::{Builtin, MalError, MalErrorReason, MalFunc, MalType};

fn num(n: i64) -> MalType {
    MalType::Number(n)
}

#[test]
fn inner_scopes_shadow_outer_ones() {
    let mut heap = Heap::new();
    let outer = Env::new(&mut heap, None);
    outer.set(&mut heap, "a", num(1));
    outer.set(&mut heap, "b", num(2));
    let inner = Env::new(&mut heap, Some(outer));
    inner.set(&mut heap, "a", num(10));
    assert!(matches!(inner.get(&heap, "a"), Ok(MalType::Number(10))));
    assert!(matches!(inner.get(&heap, "b"), Ok(MalType::Number(2))));
    assert!(matches!(outer.get(&heap, "a"), Ok(MalType::Number(1))));
    assert_eq!(inner.find(&heap, "b"), Some(outer));
    assert_eq!(inner.find(&heap, "zz"), None);
    match inner.get(&heap, "zz") {
        Err(e) => assert!(matches!(e.reason(), MalErrorReason::SymbolNotFound(s) if s == "zz")),
        Ok(v) => panic!("unexpected {:?}", v),
    }
    outer.set(&mut heap, "b", num(3));
    assert!(matches!(inner.get(&heap, "b"), Ok(MalType::Number(3))));
}

#[test]
fn bindings_are_positional_and_variadic() {
    let mut heap = Heap::new();
    let binds = vec!["x".to_string(), "&".to_string(), "rest".to_string(), "never".to_string()];
    let env = Env::new_with_bindings(&mut heap, None, binds, vec![num(1), num(2), num(3)]);
    assert!(matches!(env.get(&heap, "x"), Ok(MalType::Number(1))));
    assert_eq!(print_str(&env.get(&heap, "rest").unwrap(), true), "(2 3)");
    assert!(env.get(&heap, "never").is_err());

    let short = Env::new_with_bindings(&mut heap, None, vec!["p".to_string(), "q".to_string()], vec![num(7)]);
    assert!(matches!(short.get(&heap, "p"), Ok(MalType::Number(7))));
    assert!(short.get(&heap, "q").is_err());
}

#[test]
fn arithmetic_primitives_directly() {
    let mut args = vec![num(20), num(3), num(2)];
    assert!(matches!(plus(&mut args, None), Ok(MalType::Number(25))));
    assert!(matches!(minus(&mut args, None), Ok(MalType::Number(15))));
    assert!(matches!(divide(&mut args, None), Ok(MalType::Number(3))));
    let mut none: Vec<MalType> = vec![];
    assert!(matches!(minus(&mut none, None), Err(MalError { reason: MalErrorReason::WrongArguments(_) })));
    let mut bad = vec![num(1), MalType::Nil];
    assert!(matches!(plus(&mut bad, None), Err(MalError { reason: MalErrorReason::NotANumber })));
    let mut min = vec![num(i64::MIN), num(-1)];
    assert!(matches!(divide(&mut min, None), Err(MalError { reason: MalErrorReason::Generic(_) })));
}

#[test]
fn collection_primitives_directly() {
    let mut args = vec![MalType::Nil];
    assert!(matches!(count(&mut args, None), Ok(MalType::Number(0))));
    let mut args = vec![MalType::Vector(vec![num(1)])];
    assert!(matches!(count(&mut args, None), Ok(MalType::Number(1))));
    assert!(matches!(is_empty(&mut args, None), Ok(MalType::False)));
    let mut args = vec![num(1)];
    assert!(matches!(count(&mut args, None), Err(MalError { reason: MalErrorReason::WrongArguments(_) })));
}

#[test]
fn applying_a_primitive_value() {
    let mut heap = Heap::new();
    let plus_fn = MalType::Function(MalFunc { func: Builtin::Plus, env: None });
    let r = eval_func(&mut heap, plus_fn, vec![num(1), num(2)], STEP_LIMIT);
    assert!(matches!(r, Ok(MalType::Number(3))));
    let r = eval_func(&mut heap, num(1), vec![], STEP_LIMIT);
    assert!(matches!(r, Err(MalError { reason: MalErrorReason::WrongArguments(_) })));
}

#[test]
fn quasiquote_rewrites_to_construction_calls() {
    let form = read_str("(a ~b ~@c)".to_string()).unwrap();
    let out = quasiquote(&vec![form]).unwrap();
    assert_eq!(
        print_str(&out, true),
        "(cons (quote a) (cons b (concat c (quote ()))))"
    );
    let bad = read_str("(unquote)".to_string()).unwrap();
    assert!(quasiquote(&vec![bad]).is_err());
}

#[test]
fn errors_read_as_sentences() {
    assert_eq!(MalError::symbol_not_found("x").to_text(), "Error: Symbol 'x' not found");
    assert_eq!(MalError::wrong_arguments("bad").reason().describe(), "Wrong arguments - bad");
    assert_eq!(MalError::unexpected_eof().reason().describe(), "Unexpected EOF");
    assert_eq!(MalError::blank_line().reason().describe(), "");
    assert_eq!(MalError::generic("boom").to_text(), "Error: boom");
}

fn generic_text(r: Result<MalType, MalError>) -> String {
    match r {
        Err(MalError { reason: MalErrorReason::Generic(t) }) => t,
        other => panic!("unexpected {:?}", other),
    }
}

fn wrong_text(r: Result<MalType, MalError>) -> String {
    match r {
        Err(MalError { reason: MalErrorReason::WrongArguments(t) }) => t,
        other => panic!("unexpected {:?}", other),
    }
}

#[test]
fn arithmetic_is_exact_when_the_result_fits() {
    let mut a = vec![num(i64::MAX), num(1), num(-1)];
    assert!(matches!(plus(&mut a, None), Ok(MalType::Number(i64::MAX))));
    assert_eq!(a.len(), 3);
    let mut a = vec![num(i64::MIN), num(1), num(-1)];
    assert!(matches!(minus(&mut a, None), Ok(MalType::Number(i64::MIN))));
    let mut a = vec![num(1 << 62), num(4), num(0)];
    assert!(matches!(multiply(&mut a, None), Ok(MalType::Number(0))));
    let mut a = vec![num(1 << 62), num(2), num(-1)];
    assert!(matches!(multiply(&mut a, None), Ok(MalType::Number(i64::MIN))));
    let mut a = vec![num(i64::MIN), num(-1), num(2)];
    assert!(matches!(divide(&mut a, None), Ok(MalType::Number(4611686018427387904))));
    let mut a = vec![num(i64::MAX), num(1)];
    assert_eq!(generic_text(plus(&mut a, None)), "Integer overflow");
    let mut a = vec![num(1 << 62), num(4), num(3)];
    assert_eq!(generic_text(multiply(&mut a, None)), "Integer overflow");
    let mut a = vec![num(1), num(0)];
    assert_eq!(generic_text(divide(&mut a, None)), "Division by zero");
}

#[test]
fn error_texts_are_exact() {
    let mut heap = Heap::new();
    let mut a = vec![num(1)];
    assert_eq!(wrong_text(count(&mut a, None)), "Not a list");
    assert_eq!(wrong_text(is_empty(&mut a, None)), "Not a list");
    assert_eq!(wrong_text(deref(&heap, &mut a, None)), "Not an atom");
    assert_eq!(generic_text(read_string(&mut a, None)), "Not a string");
    assert_eq!(wrong_text(eval_func(&mut heap, num(1), vec![], STEP_LIMIT)), "Not a function");
}

#[test]
fn swap_on_a_non_atom_leaves_arguments() {
    let mut heap = Heap::new();
    let mut not_atom = num(1);
    let plus_fn = MalType::Function(MalFunc { func: Builtin::Plus, env: None });
    let mut args = vec![num(2), num(3)];
    let r = not_atom.swap(&mut heap, plus_fn, &mut args, STEP_LIMIT);
    assert_eq!(wrong_text(r), "Not an atom");
    assert_eq!(args.len(), 2);
    assert!(matches!(args[0], MalType::Number(2)));
}

#[test]
fn values_clone_deeply() {
    let v = read_str("(a [1 \"s\"] {:k nil})".to_string()).unwrap();
    let c = v.clone();
    assert_eq!(print_str(&c, true), print_str(&v, true));
}
