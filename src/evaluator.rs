use vstd::prelude::*;

use crate::builtins::{
    atom, concat, cons, count, deref, divide, equal, greater_than, greater_than_or_eq, is_atom,
    is_empty, is_list, less_than, less_than_or_eq, list, minus, multiply, plus, pr_str,
    prn, read_string, replace_atom, reset, slurp, str, atom_spec, compare_spec, concat_spec, cons_spec, count_spec, deref_spec, divide_spec,
    equal_spec, is_atom_spec, is_empty_spec, is_list_spec, minus_spec, multiply_spec, plus_spec,
    read_string_spec, reset_spec, slurp_spec, Cmp,
};
use crate::env::{bind_params, Env, Heap, HeapView};
use crate::printer::{join_spec, print_spec, print_str};
use crate::reader::{read_spec, read_str};
use crate::types::{
    copy_range, is_pair, lemma_view_seq, res_view, seq_of, truthy,
    view_seq, Builtin, ErrKind, MalError, MalFunc, MalLambda, MalResult, MalType, Val,
};

verus! {

broadcast use vstd::std_specs::vec::group_vec_axioms;

// ---------------------------------------------------------------------------
// Semantics
// ---------------------------------------------------------------------------

/// The special forms.
#[derive(Clone, Copy, Debug, PartialEq, Eq, Structural)]
pub enum Special {
    Def,
    Let,
    Do,
    If,
    Fn,
    Quote,
    Quasiquote,
}

/// The special form that a list headed by `v` is.
pub open spec fn special_kind(v: Val) -> Option<Special> {
    match v {
        Val::Symbol(s) => if s == "def!"@ {
            Some(Special::Def)
        } else if s == "let*"@ {
            Some(Special::Let)
        } else if s == "do"@ {
            Some(Special::Do)
        } else if s == "if"@ {
            Some(Special::If)
        } else if s == "fn*"@ {
            Some(Special::Fn)
        } else if s == "quote"@ {
            Some(Special::Quote)
        } else if s == "quasiquote"@ {
            Some(Special::Quasiquote)
        } else {
            None
        },
        _ => None,
    }
}

/// What one turn of the evaluation loop ends in: a result, or the next
/// expression and scope to evaluate in tail position.
pub enum StepV {
    Done(Result<Val, ErrKind>),
    Next(Val, nat),
}

/// The names of the symbols in a parameter list, other entries dropped.
pub open spec fn symbols_of(ps: Seq<Val>) -> Seq<Seq<char>>
    decreases ps.len(),
{
    if ps.len() == 0 {
        Seq::empty()
    } else {
        match ps.last() {
            Val::Symbol(s) => symbols_of(ps.drop_last()).push(s),
            _ => symbols_of(ps.drop_last()),
        }
    }
}

/// The rewrite of a quasiquoted form into calls of `cons` and `concat`.
pub open spec fn qq(v: Val) -> Result<Val, ErrKind>
    decreases v, 1int, 0int,
{
    match v {
        Val::List(s) => if s.len() > 0 {
            qq_seq(s, 0)
        } else {
            Ok(Val::List(seq![Val::Symbol("quote"@), v]))
        },
        Val::Vector(s) => if s.len() > 0 {
            qq_seq(s, 0)
        } else {
            Ok(Val::List(seq![Val::Symbol("quote"@), v]))
        },
        _ => Ok(Val::List(seq![Val::Symbol("quote"@), v])),
    }
}

/// The rewrite of the list made of `s[k..]`, which is not empty.
pub open spec fn qq_seq(s: Seq<Val>, k: int) -> Result<Val, ErrKind>
    decreases s, 0int, s.len() - k,
{
    if k < 0 || k >= s.len() {
        Err(ErrKind::WrongArguments("Nothing to quasiquote"@))
    } else {
        let x = s[k];
        let rest = if k + 1 >= s.len() {
            Ok(Val::List(seq![Val::Symbol("quote"@), Val::List(Seq::empty())]))
        } else {
            qq_seq(s, k + 1)
        };
        if x == Val::Symbol("unquote"@) {
            if k + 1 < s.len() {
                Ok(s[k + 1])
            } else {
                Err(ErrKind::WrongArguments("unquote needs an argument"@))
            }
        } else if is_pair(x) && seq_of(x)->Some_0[0] == Val::Symbol("splice-unquote"@) {
            let inner = seq_of(x)->Some_0;
            if inner.len() >= 2 {
                match rest {
                    Ok(r) => Ok(Val::List(seq![Val::Symbol("concat"@), inner[1], r])),
                    Err(e) => Err(e),
                }
            } else {
                Err(ErrKind::WrongArguments("splice-unquote needs an argument"@))
            }
        } else {
            match qq(x) {
                Ok(a) => match rest {
                    Ok(b) => Ok(Val::List(seq![Val::Symbol("cons"@), a, b])),
                    Err(e) => Err(e),
                },
                Err(e) => Err(e),
            }
        }
    }
}

/// Evaluation of `e` in scope `env` with at most `fuel` turns of the loop
/// at this level: the heap afterwards and the result.
pub open spec fn ev(h: HeapView, e: Val, env: nat, fuel: nat) -> (HeapView, Result<Val, ErrKind>)
    decreases fuel, 0int, 0int,
{
    if fuel == 0 {
        (h, Err(ErrKind::Generic("Evaluation step limit reached"@)))
    } else {
        let f = (fuel - 1) as nat;
        let (h1, s) = step(h, e, env, f);
        match s {
            StepV::Done(r) => (h1, r),
            StepV::Next(e2, env2) => ev(h1, e2, env2, f),
        }
    }
}

/// One turn of the evaluation loop; nested evaluations get `f` turns.
pub open spec fn step(h: HeapView, e: Val, env: nat, f: nat) -> (HeapView, StepV)
    decreases f, 9int, 0int,
{
    match e {
        Val::List(items) => if items.len() == 0 {
            (h, StepV::Done(Ok(e)))
        } else {
            match special_kind(items[0]) {
                Some(k) => special_step(h, k, items, env, f),
                None => call_step(h, items, env, f),
            }
        },
        _ => {
            let (h1, r) = ev_ast(h, e, env, f);
            (h1, StepV::Done(r))
        },
    }
}

/// A special form `items` (its head included).
pub open spec fn special_step(h: HeapView, k: Special, items: Seq<Val>, env: nat, f: nat) -> (
    HeapView,
    StepV,
)
    decreases f, 8int, 0int,
{
    match k {
        Special::Def => if items.len() != 3 {
            (h, StepV::Done(Err(ErrKind::WrongArguments("def! takes a symbol and a value"@))))
        } else {
            match items[1] {
                Val::Symbol(name) => {
                    let (h1, r) = ev(h, items[2], env, f);
                    match r {
                        Ok(v) => if env < h1.envs.len() {
                            (h1.set_binding(env as int, name, v), StepV::Done(Ok(v)))
                        } else {
                            (h1, StepV::Done(Err(ErrKind::Generic("Unknown environment"@))))
                        },
                        Err(e) => (h1, StepV::Done(Err(e))),
                    }
                },
                _ => (h, StepV::Done(Err(ErrKind::WrongArguments("Expected symbol"@)))),
            }
        },
        Special::Let => if items.len() < 3 {
            (h, StepV::Done(Err(ErrKind::WrongArguments("let* takes bindings and a body"@))))
        } else {
            match seq_of(items[1]) {
                None => (h, StepV::Done(Err(ErrKind::WrongArguments("Expected list or vector"@)))),
                Some(bs) => if bs.len() % 2 != 0 {
                    (h, StepV::Done(Err(ErrKind::Unknown)))
                } else if env >= h.envs.len() || h.envs.len() >= usize::MAX {
                    (h, StepV::Done(Err(ErrKind::Generic("Unknown environment"@))))
                } else {
                    let ne = h.envs.len();
                    let h1 = h.push_frame(Seq::empty(), Some(env));
                    let (h2, r) = let_binds(h1, bs, 0, ne, f);
                    match r {
                        Ok(_) => (h2, StepV::Next(items[2], ne)),
                        Err(e) => (h2, StepV::Done(Err(e))),
                    }
                },
            }
        },
        Special::Do => if items.len() < 2 {
            (h, StepV::Done(Err(ErrKind::WrongArguments("do needs a form"@))))
        } else {
            let (h1, r) = ev_seq(h, items, 1, items.len() - 1, env, f);
            match r {
                Ok(_) => (h1, StepV::Next(items[items.len() - 1], env)),
                Err(e) => (h1, StepV::Done(Err(e))),
            }
        },
        Special::If => if items.len() < 3 {
            (h, StepV::Done(Err(ErrKind::Unknown)))
        } else {
            let (h1, r) = ev(h, items[1], env, f);
            match r {
                Ok(c) => if truthy(c) {
                    (h1, StepV::Next(items[2], env))
                } else if items.len() > 3 {
                    (h1, StepV::Next(items[3], env))
                } else {
                    (h1, StepV::Done(Ok(Val::Nil)))
                },
                Err(e) => (h1, StepV::Done(Err(e))),
            }
        },
        Special::Fn => if items.len() < 3 {
            (h, StepV::Done(Err(ErrKind::Generic("Not enough args to fn*, expecting 2"@))))
        } else {
            match seq_of(items[1]) {
                Some(ps) => (h, StepV::Done(Ok(Val::Lambda(env, ps, Box::new(items[2]))))),
                None => (h, StepV::Done(Err(ErrKind::Generic("Expecting a list or vector of parameters"@)))),
            }
        },
        Special::Quote => if items.len() < 2 {
            (h, StepV::Done(Err(ErrKind::WrongArguments("Missing argument for quote"@))))
        } else {
            (h, StepV::Done(Ok(items[1])))
        },
        Special::Quasiquote => if items.len() < 2 {
            (h, StepV::Next(Val::List(Seq::empty()), env))
        } else {
            match qq(items[1]) {
                Ok(e2) => (h, StepV::Next(e2, env)),
                Err(e) => (h, StepV::Done(Err(e))),
            }
        },
    }
}

/// The bindings of a `let*` from position `k` of `bs`, made in scope `ne`.
pub open spec fn let_binds(h: HeapView, bs: Seq<Val>, k: int, ne: nat, f: nat) -> (
    HeapView,
    Result<(), ErrKind>,
)
    decreases f, 2int, bs.len() - k,
{
    if k < 0 || k + 1 >= bs.len() {
        (h, Ok(()))
    } else {
        match bs[k] {
            Val::Symbol(name) => {
                let (h1, r) = ev(h, bs[k + 1], ne, f);
                match r {
                    Ok(v) => if ne < h1.envs.len() {
                        let_binds(h1.set_binding(ne as int, name, v), bs, k + 2, ne, f)
                    } else {
                        (h1, Err(ErrKind::Generic("Unknown environment"@)))
                    },
                    Err(e) => (h1, Err(e)),
                }
            },
            _ => (h, Err(ErrKind::WrongArguments("Expected symbol"@))),
        }
    }
}

/// A call: every element is evaluated, then the first is applied to the
/// others.
pub open spec fn call_step(h: HeapView, items: Seq<Val>, env: nat, f: nat) -> (HeapView, StepV)
    decreases f, 7int, 0int,
{
    let (h1, r) = ev_seq(h, items, 0, items.len() as int, env, f);
    match r {
        Err(e) => (h1, StepV::Done(Err(e))),
        Ok(vals) => if vals.len() == 0 {
            (h1, StepV::Done(Err(ErrKind::NotAFunction)))
        } else {
            let args = vals.drop_first();
            match vals[0] {
                Val::Function(b, fe) => {
                    let (h2, r2) = apply_builtin(h1, b, fe, args, f);
                    (h2, StepV::Done(r2))
                },
                Val::Lambda(le, ps, body) => if le < h1.envs.len() && h1.envs.len()
                    < usize::MAX {
                    let h2 = h1.push_frame(
                        bind_params(Seq::empty(), symbols_of(ps), args, false),
                        Some(le),
                    );
                    (h2, StepV::Next(*body, h1.envs.len()))
                } else {
                    (h1, StepV::Done(Err(ErrKind::Generic("Unknown environment"@))))
                },
                _ => (h1, StepV::Done(Err(ErrKind::NotAFunction))),
            }
        },
    }
}

/// Structural evaluation of a form that is not a call.
pub open spec fn ev_ast(h: HeapView, e: Val, env: nat, f: nat) -> (HeapView, Result<Val, ErrKind>)
    decreases f, 6int, 0int,
{
    match e {
        Val::Symbol(k) => match h.lookup(env as int, k) {
            Some(v) => (h, Ok(v)),
            None => (h, Err(ErrKind::SymbolNotFound(k))),
        },
        Val::List(s) => {
            let (h1, r) = ev_seq(h, s, 0, s.len() as int, env, f);
            match r {
                Ok(vs) => (h1, Ok(Val::List(vs))),
                Err(e) => (h1, Err(e)),
            }
        },
        Val::Vector(s) => {
            let (h1, r) = ev_seq(h, s, 0, s.len() as int, env, f);
            match r {
                Ok(vs) => (h1, Ok(Val::Vector(vs))),
                Err(e) => (h1, Err(e)),
            }
        },
        Val::HashMap(s) => {
            let (h1, r) = ev_map(h, s, 0, env, f);
            match r {
                Ok(vs) => (h1, Ok(Val::HashMap(vs))),
                Err(e) => (h1, Err(e)),
            }
        },
        _ => (h, Ok(e)),
    }
}

/// Evaluates `s[k..end]` left to right.
pub open spec fn ev_seq(h: HeapView, s: Seq<Val>, k: int, end: int, env: nat, f: nat) -> (
    HeapView,
    Result<Seq<Val>, ErrKind>,
)
    decreases f, 1int, end - k,
{
    if k < 0 || k >= end || end > s.len() {
        (h, Ok(Seq::empty()))
    } else {
        let (h1, r) = ev(h, s[k], env, f);
        match r {
            Err(e) => (h1, Err(e)),
            Ok(v) => {
                let (h2, r2) = ev_seq(h1, s, k + 1, end, env, f);
                match r2 {
                    Ok(vs) => (h2, Ok(seq![v] + vs)),
                    Err(e) => (h2, Err(e)),
                }
            },
        }
    }
}

/// Evaluates the values (odd positions) of the map entries `s[k..]`, keys
/// kept as they are.
pub open spec fn ev_map(h: HeapView, s: Seq<Val>, k: int, env: nat, f: nat) -> (
    HeapView,
    Result<Seq<Val>, ErrKind>,
)
    decreases f, 1int, s.len() - k,
{
    if k < 0 || k >= s.len() {
        (h, Ok(Seq::empty()))
    } else {
        let (h1, r) = if k % 2 != 0 {
            ev(h, s[k], env, f)
        } else {
            (h, Ok(s[k]))
        };
        match r {
            Err(e) => (h1, Err(e)),
            Ok(v) => {
                let (h2, r2) = ev_map(h1, s, k + 1, env, f);
                match r2 {
                    Ok(vs) => (h2, Ok(seq![v] + vs)),
                    Err(e) => (h2, Err(e)),
                }
            },
        }
    }
}

/// A primitive applied to `args`; `fe` is the scope it was installed with.
pub open spec fn apply_builtin(
    h: HeapView,
    b: Builtin,
    fe: Option<nat>,
    args: Seq<Val>,
    f: nat,
) -> (HeapView, Result<Val, ErrKind>)
    decreases f, 3int, 0int,
{
    match b {
        Builtin::Plus => (h, plus_spec(args)),
        Builtin::Minus => (h, minus_spec(args)),
        Builtin::Multiply => (h, multiply_spec(args)),
        Builtin::Divide => (h, divide_spec(args)),
        Builtin::List => (h, Ok(Val::List(args))),
        Builtin::IsList => (h, is_list_spec(args)),
        Builtin::IsEmpty => (h, is_empty_spec(args)),
        Builtin::Count => (h, count_spec(args)),
        Builtin::Equal => (h, equal_spec(args)),
        Builtin::LessThan => (h, compare_spec(args, Cmp::Lt)),
        Builtin::LessThanOrEq => (h, compare_spec(args, Cmp::Le)),
        Builtin::GreaterThan => (h, compare_spec(args, Cmp::Gt)),
        Builtin::GreaterThanOrEq => (h, compare_spec(args, Cmp::Ge)),
        Builtin::Prn => (h.print_line(join_spec(args, seq![' '], true)), Ok(Val::Nil)),
        Builtin::Println => (h.print_line(join_spec(args, seq![' '], false)), Ok(Val::Nil)),
        Builtin::PrStr => (h, Ok(Val::Str(join_spec(args, seq![' '], true)))),
        Builtin::Str => (h, Ok(Val::Str(join_spec(args, Seq::empty(), false)))),
        Builtin::ReadString => (h, read_string_spec(args)),
        Builtin::Slurp => (h, slurp_spec(h, args)),
        Builtin::Atom => atom_spec(h, args),
        Builtin::IsAtom => (h, is_atom_spec(args)),
        Builtin::Deref => (h, deref_spec(h, args)),
        Builtin::Reset => reset_spec(h, args),
        Builtin::Swap => if args.len() < 2 {
            (h, Err(ErrKind::WrongArguments("Wrong number of args, expected 2"@)))
        } else {
            match args[0] {
                Val::Atom(i) => if i >= h.atoms.len() {
                    (h, Err(ErrKind::Generic("Unknown atom"@)))
                } else if f == 0 {
                    (h, Err(ErrKind::Generic("Evaluation step limit reached"@)))
                } else {
                    let call_args = seq![h.atoms[i as int]] + args.subrange(2, args.len() as int);
                    let (h1, r) = apply_fn(h, args[1], call_args, (f - 1) as nat);
                    match r {
                        Ok(v) => if i < h1.atoms.len() {
                            (h1.set_atom(i as int, v), Ok(v))
                        } else {
                            (h1, Err(ErrKind::Generic("Unknown atom"@)))
                        },
                        Err(e) => (h1, Err(e)),
                    }
                },
                _ => (h, Err(ErrKind::WrongArguments("Not an atom"@))),
            }
        },
        Builtin::Cons => (h, cons_spec(args)),
        Builtin::Concat => (h, concat_spec(args)),
        Builtin::Eval => if args.len() < 1 {
            (h, Err(ErrKind::Generic("Not enough arguments"@)))
        } else {
            match fe {
                Some(e) => if e < h.envs.len() {
                    ev(h, args[0], e, f)
                } else {
                    (h, Err(ErrKind::Generic("Unknown environment"@)))
                },
                None => (h, Err(ErrKind::Generic("No environment to evaluate in"@))),
            }
        },
    }
}

/// A procedure or closure applied to `args`.
pub open spec fn apply_fn(h: HeapView, func: Val, args: Seq<Val>, f: nat) -> (
    HeapView,
    Result<Val, ErrKind>,
)
    decreases f, 4int, 0int,
{
    match func {
        Val::Function(b, fe) => apply_builtin(h, b, fe, args, f),
        Val::Lambda(le, ps, body) => if le < h.envs.len() && h.envs.len() < usize::MAX {
            let h1 = h.push_frame(bind_params(Seq::empty(), symbols_of(ps), args, false), Some(le));
            ev(h1, *body, h.envs.len(), f)
        } else {
            (h, Err(ErrKind::Generic("Unknown environment"@)))
        },
        _ => (h, Err(ErrKind::WrongArguments("Not a function"@))),
    }
}

// ---------------------------------------------------------------------------
// Evaluation
// ---------------------------------------------------------------------------

/// What one turn of the evaluation loop ends in.
pub enum Step {
    Done(MalResult),
    Next(MalType, Env),
}

pub open spec fn step_view(s: Step) -> StepV {
    match s {
        Step::Done(r) => StepV::Done(res_view(r)),
        Step::Next(e, env) => StepV::Next(e.view(), env.id as nat),
    }
}

pub open spec fn seq_res_view(r: Result<Vec<MalType>, MalError>) -> Result<Seq<Val>, ErrKind> {
    match r {
        Ok(v) => Ok(view_seq(v@)),
        Err(e) => Err(e.reason.kind()),
    }
}

pub open spec fn prepend(vs: Seq<Val>, p: (HeapView, Result<Seq<Val>, ErrKind>)) -> (
    HeapView,
    Result<Seq<Val>, ErrKind>,
) {
    (
        p.0,
        match p.1 {
            Ok(t) => Ok(vs + t),
            Err(e) => Err(e),
        },
    )
}

/// A symbol with the given name.
fn make_symbol(name: &str) -> (r: MalType)
    ensures
        r.view() == Val::Symbol(name@),
{
    MalType::Symbol(name.to_owned())
}

/// Whether `v` is the symbol `name`.
fn is_symbol_named(v: &MalType, name: &str) -> (r: bool)
    ensures
        r == (v.view() == Val::Symbol(name@)),
{
    match v {
        MalType::Symbol(s) => s.eq(&name.to_owned()),
        _ => false,
    }
}

/// The special form that a list headed by `v` is.
fn special_of(v: &MalType) -> (r: Option<Special>)
    ensures
        r == special_kind(v.view()),
{
    if is_symbol_named(v, "def!") {
        Some(Special::Def)
    } else if is_symbol_named(v, "let*") {
        Some(Special::Let)
    } else if is_symbol_named(v, "do") {
        Some(Special::Do)
    } else if is_symbol_named(v, "if") {
        Some(Special::If)
    } else if is_symbol_named(v, "fn*") {
        Some(Special::Fn)
    } else if is_symbol_named(v, "quote") {
        Some(Special::Quote)
    } else if is_symbol_named(v, "quasiquote") {
        Some(Special::Quasiquote)
    } else {
        None
    }
}

/// Whether `input` is a list headed by the name of a special form.
pub fn is_special_form(input: &MalType) -> (r: bool)
    ensures
        r == (input.view() is List && input.view()->List_0.len() > 0 && special_kind(
            input.view()->List_0[0],
        ) is Some),
{
    match input {
        MalType::List(items) => {
            proof {
                lemma_view_seq(items@);
            }
            if items.len() == 0 {
                return false;
            }
            special_of(&items[0]).is_some()
        },
        _ => false,
    }
}

/// `(quote v)`.
fn quote_form(v: MalType) -> (r: MalType)
    ensures
        r.view() == Val::List(seq![Val::Symbol("quote"@), v.view()]),
{
    let mut list: Vec<MalType> = Vec::new();
    list.push(make_symbol("quote"));
    list.push(v);
    proof {
        lemma_view_seq(list@);
        assert(view_seq(list@) =~= seq![Val::Symbol("quote"@), list@[1].view()]);
    }
    MalType::List(list)
}

/// A list of three values.
fn list3(a: MalType, b: MalType, c: MalType) -> (r: MalType)
    ensures
        r.view() == Val::List(seq![a.view(), b.view(), c.view()]),
{
    let ghost (va, vb, vc) = (a.view(), b.view(), c.view());
    let mut list: Vec<MalType> = Vec::new();
    list.push(a);
    list.push(b);
    list.push(c);
    proof {
        lemma_view_seq(list@);
        assert(view_seq(list@) =~= seq![va, vb, vc]);
    }
    MalType::List(list)
}

/// The rewrite of a quasiquoted form, as `qq` says.
pub fn quasiquote_value(ast: &MalType) -> (r: MalResult)
    ensures
        res_view(r) == qq(ast.view()),
    decreases *ast, 1int, 0int,
{
    proof {
        reveal_strlit("quote");
    }
    match ast {
        MalType::List(items) => {
            proof {
                lemma_view_seq(items@);
            }
            if items.len() > 0 {
                qq_items(ast, 0)
            } else {
                Ok(quote_form(ast.deep_copy()))
            }
        },
        MalType::Vector(items) => {
            proof {
                lemma_view_seq(items@);
            }
            if items.len() > 0 {
                qq_items(ast, 0)
            } else {
                Ok(quote_form(ast.deep_copy()))
            }
        },
        _ => Ok(quote_form(ast.deep_copy())),
    }
}

/// The rewrite of the list made of the elements of `container` from `k` on.
fn qq_items(container: &MalType, k: usize) -> (r: MalResult)
    requires
        container is List || container is Vector,
        container is List ==> k < container->List_0@.len(),
        container is Vector ==> k < container->Vector_0@.len(),
    ensures
        res_view(r) == qq_seq(seq_of(container.view())->Some_0, k as int),
    decreases *container, 0int, 2 * ((if container is List {
        container->List_0@.len()
    } else {
        container->Vector_0@.len()
    }) - k) + 1,
{
    let items: &Vec<MalType> = match container {
        MalType::List(items) => items,
        MalType::Vector(items) => items,
        _ => {
            proof {
                assert(false);
            }
            return Err(MalError::unknown());
        },
    };
    let ghost s = view_seq(items@);
    proof {
        lemma_view_seq(items@);
        assert(container is List ==> *items == container->List_0);
        assert(container is Vector ==> *items == container->Vector_0);
        assert(k < items@.len());
        assert(seq_of(container.view())->Some_0 == s);
        if container is List {
            assert(decreases_to!(*container => container->List_0));
            assert(decreases_to!(container->List_0 => container->List_0[k as int]));
        } else {
            assert(decreases_to!(*container => container->Vector_0));
            assert(decreases_to!(container->Vector_0 => container->Vector_0[k as int]));
        }
    }
    assert(k < items.len());
    let x = &items[k];
    if is_symbol_named(x, "unquote") {
        if k + 1 < items.len() {
            return Ok(items[k + 1].deep_copy());
        } else {
            return Err(MalError::wrong_arguments("unquote needs an argument"));
        }
    }
    let spliced = match x {
        MalType::List(inner) | MalType::Vector(inner) => {
            proof {
                lemma_view_seq(inner@);
            }
            inner.len() > 0 && is_symbol_named(&inner[0], "splice-unquote")
        },
        _ => false,
    };
    if spliced {
        let inner: &Vec<MalType> = match x {
            MalType::List(inner) | MalType::Vector(inner) => inner,
            _ => {
                proof {
                    assert(false);
                }
                return Err(MalError::unknown());
            },
        };
        proof {
            lemma_view_seq(inner@);
        }
        if inner.len() < 2 {
            return Err(MalError::wrong_arguments("splice-unquote needs an argument"));
        }
        let rest = match qq_rest(container, k + 1) {
            Ok(r) => r,
            Err(e) => return Err(e),
        };
        return Ok(list3(make_symbol("concat"), inner[1].deep_copy(), rest));
    }
    let a = match quasiquote_value(x) {
        Ok(a) => a,
        Err(e) => return Err(e),
    };
    let rest = match qq_rest(container, k + 1) {
        Ok(r) => r,
        Err(e) => return Err(e),
    };
    Ok(list3(make_symbol("cons"), a, rest))
}

/// The rewrite of the list made of the elements of `container` from `k` on,
/// which may be empty.
fn qq_rest(container: &MalType, k: usize) -> (r: MalResult)
    requires
        container is List || container is Vector,
        container is List ==> 0 < k <= container->List_0@.len(),
        container is Vector ==> 0 < k <= container->Vector_0@.len(),
    ensures
        res_view(r) == (if k >= seq_of(container.view())->Some_0.len() {
            Ok(Val::List(seq![Val::Symbol("quote"@), Val::List(Seq::empty())]))
        } else {
            qq_seq(seq_of(container.view())->Some_0, k as int)
        }),
    decreases *container, 0int, 2 * ((if container is List {
        container->List_0@.len()
    } else {
        container->Vector_0@.len()
    }) - k) + 2,
{
    let n = match container {
        MalType::List(items) => items.len(),
        MalType::Vector(items) => items.len(),
        _ => 0,
    };
    proof {
        if container is List {
            lemma_view_seq(container->List_0@);
        } else {
            lemma_view_seq(container->Vector_0@);
        }
    }
    if k >= n {
        let empty: Vec<MalType> = Vec::new();
        proof {
            lemma_view_seq(empty@);
            assert(view_seq(empty@) =~= Seq::<Val>::empty());
        }
        Ok(quote_form(MalType::List(empty)))
    } else {
        qq_items(container, k)
    }
}

/// The rewrite of `(quasiquote x)` given its operands: `x` rewritten, or the
/// empty list when there is none.
pub fn quasiquote(args: &Vec<MalType>) -> (r: MalResult)
    ensures
        args@.len() == 0 ==> res_view(r) == Ok::<Val, ErrKind>(Val::List(Seq::empty())),
        args@.len() > 0 ==> res_view(r) == qq(args@[0].view()),
{
    if args.len() == 0 {
        let empty: Vec<MalType> = Vec::new();
        proof {
            lemma_view_seq(empty@);
            assert(view_seq(empty@) =~= Seq::<Val>::empty());
        }
        return Ok(MalType::List(empty));
    }
    quasiquote_value(&args[0])
}

/// Evaluates `items[k..end]` left to right, as `ev_seq` says.
fn eval_seq(heap: &mut Heap, items: &Vec<MalType>, k: usize, end: usize, env: Env, f: u64) -> (r:
    Result<Vec<MalType>, MalError>)
    requires
        old(heap).wf(),
        k <= end <= items@.len(),
    ensures
        final(heap).wf(),
        (final(heap).view(), seq_res_view(r)) == ev_seq(
            old(heap).view(),
            view_seq(items@),
            k as int,
            end as int,
            env.id as nat,
            f as nat,
        ),
    decreases f, 1int, end - k,
{
    let ghost s = view_seq(items@);
    let ghost h0 = heap.view();
    proof {
        lemma_view_seq(items@);
        lemma_view_seq(Seq::<MalType>::empty());
        assert(Seq::<Val>::empty() + ev_seq(h0, s, k as int, end as int, env.id as nat, f as nat).1->Ok_0
            =~= ev_seq(h0, s, k as int, end as int, env.id as nat, f as nat).1->Ok_0);
    }
    let mut out: Vec<MalType> = Vec::new();
    let mut i: usize = k;
    while i < end
        invariant
            k <= i <= end <= items@.len(),
            heap.wf(),
            h0 == old(heap).view(),
            s == view_seq(items@),
            s.len() == items@.len(),
            forall|j: int| 0 <= j < items@.len() ==> #[trigger] s[j] == items@[j].view(),
            ev_seq(h0, s, k as int, end as int, env.id as nat, f as nat) == prepend(
                view_seq(out@),
                ev_seq(heap.view(), s, i as int, end as int, env.id as nat, f as nat),
            ),
        decreases end - i,
    {
        let ghost hi = heap.view();
        let v = eval(heap, items[i].deep_copy(), env, f);
        match v {
            Ok(x) => {
                let ghost before = out@;
                let ghost xv = x.view();
                out.push(x);
                proof {
                    lemma_view_seq(out@);
                    lemma_view_seq(before);
                    assert(view_seq(out@) =~= view_seq(before).push(xv));
                    let rest = ev_seq(heap.view(), s, i + 1, end as int, env.id as nat, f as nat);
                    match rest.1 {
                        Ok(t) => {
                            assert(view_seq(before) + (seq![xv] + t) =~= view_seq(out@) + t);
                        },
                        Err(_) => {},
                    }
                }
            },
            Err(e) => {
                return Err(e);
            },
        }
        i = i + 1;
    }
    proof {
        assert(view_seq(out@) + Seq::<Val>::empty() =~= view_seq(out@));
    }
    Ok(out)
}

/// Evaluates the values of the map entries `items[k..]`, as `ev_map` says.
fn eval_hash_map(heap: &mut Heap, items: &Vec<MalType>, env: Env, f: u64) -> (r: Result<
    Vec<MalType>,
    MalError,
>)
    requires
        old(heap).wf(),
    ensures
        final(heap).wf(),
        (final(heap).view(), seq_res_view(r)) == ev_map(
            old(heap).view(),
            view_seq(items@),
            0,
            env.id as nat,
            f as nat,
        ),
    decreases f, 1int, items@.len(),
{
    let ghost s = view_seq(items@);
    let ghost h0 = heap.view();
    proof {
        lemma_view_seq(items@);
        lemma_view_seq(Seq::<MalType>::empty());
        assert(Seq::<Val>::empty() + ev_map(h0, s, 0, env.id as nat, f as nat).1->Ok_0 =~= ev_map(
            h0,
            s,
            0,
            env.id as nat,
            f as nat,
        ).1->Ok_0);
    }
    let mut out: Vec<MalType> = Vec::new();
    let mut i: usize = 0;
    while i < items.len()
        invariant
            i <= items@.len(),
            heap.wf(),
            h0 == old(heap).view(),
            s == view_seq(items@),
            s.len() == items@.len(),
            forall|j: int| 0 <= j < items@.len() ==> #[trigger] s[j] == items@[j].view(),
            ev_map(h0, s, 0, env.id as nat, f as nat) == prepend(
                view_seq(out@),
                ev_map(heap.view(), s, i as int, env.id as nat, f as nat),
            ),
        decreases items@.len() - i,
    {
        let ghost hi = heap.view();
        let v = if i % 2 != 0 {
            eval(heap, items[i].deep_copy(), env, f)
        } else {
            Ok(items[i].deep_copy())
        };
        proof {
            if i % 2 != 0 {
                assert((heap.view(), res_view(v)) == ev(hi, s[i as int], env.id as nat, f as nat));
            } else {
                assert(heap.view() == hi);
                assert(res_view(v) == Ok::<Val, ErrKind>(s[i as int]));
            }
        }
        match v {
            Ok(x) => {
                let ghost before = out@;
                let ghost xv = x.view();
                out.push(x);
                proof {
                    lemma_view_seq(out@);
                    lemma_view_seq(before);
                    assert(view_seq(out@) =~= view_seq(before).push(xv));
                    let rest = ev_map(heap.view(), s, i + 1, env.id as nat, f as nat);
                    match rest.1 {
                        Ok(t) => {
                            assert(view_seq(before) + (seq![xv] + t) =~= view_seq(out@) + t);
                        },
                        Err(_) => {},
                    }
                }
            },
            Err(e) => {
                return Err(e);
            },
        }
        i = i + 1;
    }
    proof {
        assert(view_seq(out@) + Seq::<Val>::empty() =~= view_seq(out@));
    }
    Ok(out)
}

/// Structural evaluation of a form that is not a call, as `ev_ast` says.
pub fn eval_ast(heap: &mut Heap, input: &MalType, env: Env, f: u64) -> (r: MalResult)
    requires
        old(heap).wf(),
    ensures
        final(heap).wf(),
        (final(heap).view(), res_view(r)) == ev_ast(
            old(heap).view(),
            input.view(),
            env.id as nat,
            f as nat,
        ),
    decreases f, 6int, 0int,
{
    proof {
        match input {
            MalType::List(l) => lemma_view_seq(l@),
            MalType::Vector(l) => lemma_view_seq(l@),
            MalType::HashMap(l) => lemma_view_seq(l@),
            _ => {},
        }
    }
    match input {
        MalType::Symbol(sym) => env.get(heap, sym.as_str()),
        MalType::List(list) => {
            match eval_seq(heap, list, 0, list.len(), env, f) {
                Ok(vs) => Ok(MalType::List(vs)),
                Err(e) => Err(e),
            }
        },
        MalType::Vector(list) => {
            match eval_seq(heap, list, 0, list.len(), env, f) {
                Ok(vs) => Ok(MalType::Vector(vs)),
                Err(e) => Err(e),
            }
        },
        MalType::HashMap(list) => {
            match eval_hash_map(heap, list, env, f) {
                Ok(vs) => Ok(MalType::HashMap(vs)),
                Err(e) => Err(e),
            }
        },
        _ => Ok(input.deep_copy()),
    }
}

/// `(def! name expr)`.
fn def(heap: &mut Heap, items: &Vec<MalType>, env: Env, f: u64) -> (r: Step)
    requires
        old(heap).wf(),
    ensures
        final(heap).wf(),
        (final(heap).view(), step_view(r)) == special_step(
            old(heap).view(),
            Special::Def,
            view_seq(items@),
            env.id as nat,
            f as nat,
        ),
    decreases f, 8int, 0int,
{
    proof {
        lemma_view_seq(items@);
    }
    if items.len() != 3 {
        return Step::Done(Err(MalError::wrong_arguments("def! takes a symbol and a value")));
    }
    let key = match &items[1] {
        MalType::Symbol(k) => k.clone(),
        _ => return Step::Done(Err(MalError::wrong_arguments("Expected symbol"))),
    };
    let value = match eval(heap, items[2].deep_copy(), env, f) {
        Ok(v) => v,
        Err(e) => return Step::Done(Err(e)),
    };
    if env.id >= heap.envs.len() {
        return Step::Done(Err(MalError::generic("Unknown environment")));
    }
    let result = value.deep_copy();
    env.set(heap, key.as_str(), value);
    Step::Done(Ok(result))
}

/// Binds the pairs of `bindings` from position `k` on in scope `new_env`,
/// as `let_binds` says.
fn let_star(heap: &mut Heap, bindings: &Vec<MalType>, new_env: Env, f: u64) -> (r: Result<
    (),
    MalError,
>)
    requires
        old(heap).wf(),
    ensures
        final(heap).wf(),
        (final(heap).view(), match r {
            Ok(_) => Ok::<(), ErrKind>(()),
            Err(e) => Err(e.reason.kind()),
        }) == let_binds(old(heap).view(), view_seq(bindings@), 0, new_env.id as nat, f as nat),
    decreases f, 2int, 0int,
{
    let ghost s = view_seq(bindings@);
    let ghost h0 = heap.view();
    proof {
        lemma_view_seq(bindings@);
    }
    let mut i: usize = 0;
    while i < bindings.len() && bindings.len() - i >= 2
        invariant
            i <= bindings@.len(),
            heap.wf(),
            h0 == old(heap).view(),
            s == view_seq(bindings@),
            s.len() == bindings@.len(),
            forall|j: int| 0 <= j < bindings@.len() ==> #[trigger] s[j] == bindings@[j].view(),
            let_binds(h0, s, 0, new_env.id as nat, f as nat) == let_binds(
                heap.view(),
                s,
                i as int,
                new_env.id as nat,
                f as nat,
            ),
        decreases bindings@.len() - i,
    {
        let key = match &bindings[i] {
            MalType::Symbol(k) => k.clone(),
            _ => {
                proof {
                    assert(!(s[i as int] is Symbol));
                }
                return Err(MalError::wrong_arguments("Expected symbol"));
            },
        };
        let value = match eval(heap, bindings[i + 1].deep_copy(), new_env, f) {
            Ok(v) => v,
            Err(e) => return Err(e),
        };
        if new_env.id >= heap.envs.len() {
            return Err(MalError::generic("Unknown environment"));
        }
        new_env.set(heap, key.as_str(), value);
        i = i + 2;
    }
    Ok(())
}

/// `(let* (name expr ...) body)`: the body, to evaluate in the new scope.
fn let_star_env(heap: &mut Heap, items: &Vec<MalType>, env: Env, f: u64) -> (r: Step)
    requires
        old(heap).wf(),
    ensures
        final(heap).wf(),
        (final(heap).view(), step_view(r)) == special_step(
            old(heap).view(),
            Special::Let,
            view_seq(items@),
            env.id as nat,
            f as nat,
        ),
    decreases f, 8int, 0int,
{
    proof {
        lemma_view_seq(items@);
    }
    if items.len() < 3 {
        return Step::Done(Err(MalError::wrong_arguments("let* takes bindings and a body")));
    }
    let bindings = match vec_of(&items[1]) {
        Some(b) => b,
        None => return Step::Done(Err(MalError::wrong_arguments("Expected list or vector"))),
    };
    proof {
        lemma_view_seq(bindings@);
    }
    if bindings.len() % 2 != 0 {
        return Step::Done(Err(MalError::unknown()));
    }
    if env.id >= heap.envs.len() || heap.envs.len() >= usize::MAX {
        return Step::Done(Err(MalError::generic("Unknown environment")));
    }
    let new_env = Env::new(heap, Some(env));
    match let_star(heap, &bindings, new_env, f) {
        Ok(_) => Step::Next(items[2].deep_copy(), new_env),
        Err(e) => Step::Done(Err(e)),
    }
}

/// The elements of a list or vector, copied.
fn vec_of(v: &MalType) -> (r: Option<Vec<MalType>>)
    ensures
        r is Some <==> seq_of(v.view()) is Some,
        r is Some ==> view_seq(r->Some_0@) == seq_of(v.view())->Some_0,
{
    v.list_value()
}

/// `(do expr ... last)`: every expression but the last evaluated for effect,
/// the last left to evaluate in tail position.
fn eval_do(heap: &mut Heap, items: &Vec<MalType>, env: Env, f: u64) -> (r: Step)
    requires
        old(heap).wf(),
    ensures
        final(heap).wf(),
        (final(heap).view(), step_view(r)) == special_step(
            old(heap).view(),
            Special::Do,
            view_seq(items@),
            env.id as nat,
            f as nat,
        ),
    decreases f, 8int, 0int,
{
    proof {
        lemma_view_seq(items@);
    }
    if items.len() < 2 {
        return Step::Done(Err(MalError::wrong_arguments("do needs a form")));
    }
    match eval_seq(heap, items, 1, items.len() - 1, env, f) {
        Ok(_) => Step::Next(items[items.len() - 1].deep_copy(), env),
        Err(e) => Step::Done(Err(e)),
    }
}

/// `(if cond then else?)`: the branch to evaluate in tail position.
fn eval_if(heap: &mut Heap, items: &Vec<MalType>, env: Env, f: u64) -> (r: Step)
    requires
        old(heap).wf(),
    ensures
        final(heap).wf(),
        (final(heap).view(), step_view(r)) == special_step(
            old(heap).view(),
            Special::If,
            view_seq(items@),
            env.id as nat,
            f as nat,
        ),
    decreases f, 8int, 0int,
{
    proof {
        lemma_view_seq(items@);
    }
    if items.len() < 3 {
        return Step::Done(Err(MalError::unknown()));
    }
    let condition = match eval(heap, items[1].deep_copy(), env, f) {
        Ok(c) => c,
        Err(e) => return Step::Done(Err(e)),
    };
    if condition.is_truthy() {
        Step::Next(items[2].deep_copy(), env)
    } else if items.len() > 3 {
        Step::Next(items[3].deep_copy(), env)
    } else {
        Step::Done(Ok(MalType::Nil))
    }
}

/// `(fn* params body)`: a closure over `env`.
fn eval_fn_star(heap: &Heap, items: &Vec<MalType>, env: Env) -> (r: Step)
    ensures
        forall|f: nat|
            (heap.view(), step_view(r)) == #[trigger] special_step(
                heap.view(),
                Special::Fn,
                view_seq(items@),
                env.id as nat,
                f,
            ),
{
    proof {
        lemma_view_seq(items@);
    }
    if items.len() < 3 {
        return Step::Done(Err(MalError::generic("Not enough args to fn*, expecting 2")));
    }
    match vec_of(&items[1]) {
        Some(args) => {
            let body = items[2].deep_copy();
            Step::Done(Ok(MalType::Lambda(MalLambda { env, args, body: Box::new(body) })))
        },
        None => Step::Done(Err(MalError::generic("Expecting a list or vector of parameters"))),
    }
}

/// `(quote x)` and `(quasiquote x)`.
fn eval_quote(items: &Vec<MalType>, k: Special, env: Env) -> (r: Step)
    requires
        k == Special::Quote || k == Special::Quasiquote,
    ensures
        forall|h: HeapView, f: nat|
            (h, step_view(r)) == #[trigger] special_step(h, k, view_seq(items@), env.id as nat, f),
{
    proof {
        lemma_view_seq(items@);
    }
    if k == Special::Quote {
        if items.len() < 2 {
            return Step::Done(Err(MalError::wrong_arguments("Missing argument for quote")));
        }
        Step::Done(Ok(items[1].deep_copy()))
    } else {
        if items.len() < 2 {
            let empty: Vec<MalType> = Vec::new();
            proof {
                lemma_view_seq(empty@);
                assert(view_seq(empty@) =~= Seq::<Val>::empty());
            }
            return Step::Next(MalType::List(empty), env);
        }
        match quasiquote_value(&items[1]) {
            Ok(e) => Step::Next(e, env),
            Err(e) => Step::Done(Err(e)),
        }
    }
}

/// The names of the symbols in a parameter list.
fn param_names(params: &Vec<MalType>) -> (r: Vec<String>)
    ensures
        r@.map_values(|s: String| s@) == symbols_of(view_seq(params@)),
{
    let ghost s = view_seq(params@);
    proof {
        lemma_view_seq(params@);
    }
    let mut out: Vec<String> = Vec::new();
    let mut i: usize = 0;
    assert(s.subrange(0, 0) =~= Seq::<Val>::empty());
    assert(out@.map_values(|x: String| x@) =~= Seq::<Seq<char>>::empty());
    while i < params.len()
        invariant
            i <= params@.len(),
            s == view_seq(params@),
            s.len() == params@.len(),
            forall|j: int| 0 <= j < params@.len() ==> #[trigger] s[j] == params@[j].view(),
            out@.map_values(|x: String| x@) == symbols_of(s.subrange(0, i as int)),
        decreases params@.len() - i,
    {
        let ghost before = out@;
        assert(s.subrange(0, i + 1).drop_last() =~= s.subrange(0, i as int));
        match params[i].symbol_value() {
            Some(name) => {
                let ghost nv = name@;
                out.push(name);
                assert(out@.map_values(|x: String| x@) =~= before.map_values(|x: String| x@).push(
                    nv,
                ));
            },
            None => {},
        }
        i = i + 1;
    }
    assert(s.subrange(0, i as int) =~= s);
    out
}

/// A call: the evaluated head applied to the evaluated arguments. A closure
/// body is left to evaluate in tail position.
fn eval_call(heap: &mut Heap, items: &Vec<MalType>, env: Env, f: u64) -> (r: Step)
    requires
        old(heap).wf(),
    ensures
        final(heap).wf(),
        (final(heap).view(), step_view(r)) == call_step(
            old(heap).view(),
            view_seq(items@),
            env.id as nat,
            f as nat,
        ),
    decreases f, 7int, 0int,
{
    proof {
        lemma_view_seq(items@);
    }
    let mut list = match eval_seq(heap, items, 0, items.len(), env, f) {
        Ok(vs) => vs,
        Err(e) => return Step::Done(Err(e)),
    };
    proof {
        lemma_view_seq(list@);
    }
    if list.len() == 0 {
        return Step::Done(Err(MalError::not_a_function()));
    }
    let ghost vals = view_seq(list@);
    let head = list.remove(0);
    proof {
        lemma_view_seq(list@);
        assert(view_seq(list@) =~= vals.drop_first());
    }
    match head {
        MalType::Function(MalFunc { func, env: fe }) => Step::Done(call_builtin(heap, func, fe, list, f)),
        MalType::Lambda(MalLambda { env: l_env, args, body }) => {
            if l_env.id >= heap.envs.len() || heap.envs.len() >= usize::MAX {
                return Step::Done(Err(MalError::generic("Unknown environment")));
            }
            let binds = param_names(&args);
            let new_env = Env::new_with_bindings(heap, Some(l_env), binds, list);
            Step::Next(*body, new_env)
        },
        _ => Step::Done(Err(MalError::not_a_function())),
    }
}

/// A primitive applied to `args`, as `apply_builtin` says.
pub fn call_builtin(heap: &mut Heap, func: Builtin, fe: Option<Env>, args: Vec<MalType>, f: u64) -> (r:
    MalResult)
    requires
        old(heap).wf(),
    ensures
        final(heap).wf(),
        (final(heap).view(), res_view(r)) == apply_builtin(
            old(heap).view(),
            func,
            crate::env::env_id(fe),
            view_seq(args@),
            f as nat,
        ),
    decreases f, 3int, 0int,
{
    let mut args = args;
    match func {
        Builtin::Plus => plus(&mut args, fe),
        Builtin::Minus => minus(&mut args, fe),
        Builtin::Multiply => multiply(&mut args, fe),
        Builtin::Divide => divide(&mut args, fe),
        Builtin::List => list(&mut args, fe),
        Builtin::IsList => is_list(&mut args, fe),
        Builtin::IsEmpty => is_empty(&mut args, fe),
        Builtin::Count => count(&mut args, fe),
        Builtin::Equal => equal(&mut args, fe),
        Builtin::LessThan => less_than(&mut args, fe),
        Builtin::LessThanOrEq => less_than_or_eq(&mut args, fe),
        Builtin::GreaterThan => greater_than(&mut args, fe),
        Builtin::GreaterThanOrEq => greater_than_or_eq(&mut args, fe),
        Builtin::Prn => prn(heap, &mut args, fe),
        Builtin::Println => crate::builtins::println(heap, &mut args, fe),
        Builtin::PrStr => pr_str(&mut args, fe),
        Builtin::Str => str(&mut args, fe),
        Builtin::ReadString => read_string(&mut args, fe),
        Builtin::Slurp => slurp(heap, &mut args, fe),
        Builtin::Atom => atom(heap, &mut args, fe),
        Builtin::IsAtom => is_atom(&mut args, fe),
        Builtin::Deref => deref(heap, &mut args, fe),
        Builtin::Reset => reset(heap, &mut args, fe),
        Builtin::Swap => swap(heap, &mut args, fe, f),
        Builtin::Cons => cons(&mut args, fe),
        Builtin::Concat => concat(&mut args, fe),
        Builtin::Eval => eval_fn(heap, &mut args, fe, f),
    }
}

/// `(eval form)`: `form` evaluated in the scope the primitive was installed
/// with.
fn eval_fn(heap: &mut Heap, args: &mut Vec<MalType>, fe: Option<Env>, f: u64) -> (r: MalResult)
    requires
        old(heap).wf(),
    ensures
        final(heap).wf(),
        (final(heap).view(), res_view(r)) == apply_builtin(
            old(heap).view(),
            Builtin::Eval,
            crate::env::env_id(fe),
            view_seq(old(args)@),
            f as nat,
        ),
    decreases f, 2int, 0int,
{
    proof {
        lemma_view_seq(args@);
    }
    if args.len() < 1 {
        return Err(MalError::generic("Not enough arguments"));
    }
    match fe {
        Some(e) => {
            if e.id < heap.envs.len() {
                eval(heap, args[0].deep_copy(), e, f)
            } else {
                Err(MalError::generic("Unknown environment"))
            }
        },
        None => Err(MalError::generic("No environment to evaluate in")),
    }
}

/// `(swap! atom f args...)`: the cell's value becomes `f` applied to it and
/// to `args`.
pub fn swap(heap: &mut Heap, args: &mut Vec<MalType>, _env: Option<Env>, f: u64) -> (r: MalResult)
    requires
        old(heap).wf(),
    ensures
        final(heap).wf(),
        final(args)@ == old(args)@,
        (final(heap).view(), res_view(r)) == apply_builtin(
            old(heap).view(),
            Builtin::Swap,
            crate::env::env_id(_env),
            view_seq(old(args)@),
            f as nat,
        ),
    decreases f, 2int, 0int,
{
    proof {
        lemma_view_seq(args@);
    }
    if args.len() < 2 {
        return Err(MalError::wrong_arguments("Wrong number of args, expected 2"));
    }
    let mut atom = args[0].deep_copy();
    let func = args[1].deep_copy();
    let mut rest = copy_range(args, 2, args.len());
    proof {
        lemma_view_seq(args@.subrange(2, args@.len() as int));
        assert(seq![atom.view(), func.view()] + view_seq(rest@) =~= view_seq(args@));
    }
    atom.swap(heap, func, &mut rest, f)
}

impl MalType {
    /// For a reference cell: its value becomes `func` applied to the value
    /// and to `args`, and that value is returned.
    pub fn swap(&mut self, heap: &mut Heap, func: MalType, args: &mut Vec<MalType>, f: u64) -> (r:
        MalResult)
        requires
            old(heap).wf(),
        ensures
            final(heap).wf(),
            final(self).view() == old(self).view(),
            !(old(self).view() is Atom) ==> final(args)@ == old(args)@,
            (final(heap).view(), res_view(r)) == apply_builtin(
                old(heap).view(),
                Builtin::Swap,
                None,
                seq![old(self).view(), func.view()] + view_seq(old(args)@),
                f as nat,
            ),
        decreases f, 1int, 0int,
    {
        let ghost all = seq![self.view(), func.view()] + view_seq(args@);
        proof {
            lemma_view_seq(args@);
            assert(all.subrange(2, all.len() as int) =~= view_seq(args@));
        }
        let i = match self {
            MalType::Atom(i) => *i,
            _ => return Err(MalError::wrong_arguments("Not an atom")),
        };
        proof {
            lemma_view_seq(heap.atoms@);
        }
        if i >= heap.atoms.len() {
            return Err(MalError::generic("Unknown atom"));
        }
        if f == 0 {
            return Err(MalError::generic("Evaluation step limit reached"));
        }
        let ghost old_args = view_seq(args@);
        args.insert(0, heap.atoms[i].deep_copy());
        proof {
            lemma_view_seq(args@);
            assert(view_seq(args@) =~= seq![heap.view().atoms[i as int]] + old_args);
        }
        let call_args = copy_range(args, 0, args.len());
        proof {
            assert(args@.subrange(0, args@.len() as int) =~= args@);
        }
        let result = match eval_func(heap, func, call_args, f - 1) {
            Ok(v) => v,
            Err(e) => return Err(e),
        };
        proof {
            lemma_view_seq(heap.atoms@);
        }
        if i >= heap.atoms.len() {
            return Err(MalError::generic("Unknown atom"));
        }
        let stored = result.deep_copy();
        replace_atom(heap, i, stored);
        Ok(result)
    }
}

/// A procedure or closure applied to `args`, as `apply_fn` says.
pub fn eval_func(heap: &mut Heap, func: MalType, args: Vec<MalType>, f: u64) -> (r: MalResult)
    requires
        old(heap).wf(),
    ensures
        final(heap).wf(),
        (final(heap).view(), res_view(r)) == apply_fn(
            old(heap).view(),
            func.view(),
            view_seq(args@),
            f as nat,
        ),
    decreases f, 4int, 0int,
{
    match func {
        MalType::Function(MalFunc { func, env }) => call_builtin(heap, func, env, args, f),
        MalType::Lambda(MalLambda { env, args: binds, body }) => {
            if env.id >= heap.envs.len() || heap.envs.len() >= usize::MAX {
                return Err(MalError::generic("Unknown environment"));
            }
            let names = param_names(&binds);
            let inner_env = Env::new_with_bindings(heap, Some(env), names, args);
            eval(heap, *body, inner_env, f)
        },
        _ => Err(MalError::wrong_arguments("Not a function")),
    }
}

/// One turn of the evaluation loop, as `step` says.
fn eval_step(heap: &mut Heap, input: MalType, env: Env, f: u64) -> (r: Step)
    requires
        old(heap).wf(),
    ensures
        final(heap).wf(),
        (final(heap).view(), step_view(r)) == step(old(heap).view(), input.view(), env.id as nat, f as nat),
    decreases f, 9int, 0int,
{
    match input {
        MalType::List(items) => {
            proof {
                lemma_view_seq(items@);
            }
            if items.len() == 0 {
                return Step::Done(Ok(MalType::List(items)));
            }
            let ghost iv = view_seq(items@);
            let ghost h0 = heap.view();
            assert(input.view() == Val::List(iv));
            let k = special_of(&items[0]);
            match k {
                Some(Special::Def) => def(heap, &items, env, f),
                Some(Special::Let) => let_star_env(heap, &items, env, f),
                Some(Special::Do) => eval_do(heap, &items, env, f),
                Some(Special::If) => eval_if(heap, &items, env, f),
                Some(Special::Fn) => {
                    let r = eval_fn_star(heap, &items, env);
                    assert((h0, step_view(r)) == special_step(h0, Special::Fn, iv, env.id as nat, f as nat));
                    r
                },
                Some(Special::Quote) => {
                    let r = eval_quote(&items, Special::Quote, env);
                    assert((h0, step_view(r)) == special_step(h0, Special::Quote, iv, env.id as nat, f as nat));
                    r
                },
                Some(Special::Quasiquote) => {
                    let r = eval_quote(&items, Special::Quasiquote, env);
                    assert((h0, step_view(r)) == special_step(h0, Special::Quasiquote, iv, env.id as nat, f as nat));
                    r
                },
                None => eval_call(heap, &items, env, f),
            }
        },
        other => Step::Done(eval_ast(heap, &other, env, f)),
    }
}

/// Evaluates `ast` in scope `env`, as `ev` says: at most `fuel` turns of the
/// loop, tail positions continuing the loop rather than nesting.
pub fn eval(heap: &mut Heap, ast: MalType, env: Env, fuel: u64) -> (r: MalResult)
    requires
        old(heap).wf(),
    ensures
        final(heap).wf(),
        (final(heap).view(), res_view(r)) == ev(old(heap).view(), ast.view(), env.id as nat, fuel as nat),
    decreases fuel, 0int, 0int,
{
    let ghost want = ev(old(heap).view(), ast.view(), env.id as nat, fuel as nat);
    let mut input = ast;
    let mut cur: Env = env;
    let mut left: u64 = fuel;
    loop
        invariant
            heap.wf(),
            left <= fuel,
            want == ev(heap.view(), input.view(), cur.id as nat, left as nat),
            want == ev(old(heap).view(), ast.view(), env.id as nat, fuel as nat),
        decreases left,
    {
        if left == 0 {
            return Err(MalError::generic("Evaluation step limit reached"));
        }
        left = left - 1;
        match eval_step(heap, input, cur, left) {
            Step::Done(r) => return r,
            Step::Next(e, next_env) => {
                input = e;
                cur = next_env;
            },
        }
    }
}

/// The largest step budget: evaluation is then limited by memory and the
/// native stack only.
pub const STEP_LIMIT: u64 = 18446744073709551615;

/// The bindings of the root scope `root`: every primitive, and `eval`, which
/// evaluates in the root scope.
pub open spec fn root_bindings(root: nat) -> Seq<(Seq<char>, Val)> {
    seq![
        ("+"@, Val::Function(Builtin::Plus, None)),
        ("-"@, Val::Function(Builtin::Minus, None)),
        ("*"@, Val::Function(Builtin::Multiply, None)),
        ("/"@, Val::Function(Builtin::Divide, None)),
        ("list"@, Val::Function(Builtin::List, None)),
        ("list?"@, Val::Function(Builtin::IsList, None)),
        ("empty?"@, Val::Function(Builtin::IsEmpty, None)),
        ("count"@, Val::Function(Builtin::Count, None)),
        ("="@, Val::Function(Builtin::Equal, None)),
        ("<"@, Val::Function(Builtin::LessThan, None)),
        ("<="@, Val::Function(Builtin::LessThanOrEq, None)),
        (">"@, Val::Function(Builtin::GreaterThan, None)),
        (">="@, Val::Function(Builtin::GreaterThanOrEq, None)),
        ("prn"@, Val::Function(Builtin::Prn, None)),
        ("println"@, Val::Function(Builtin::Println, None)),
        ("pr-str"@, Val::Function(Builtin::PrStr, None)),
        ("str"@, Val::Function(Builtin::Str, None)),
        ("read-string"@, Val::Function(Builtin::ReadString, None)),
        ("slurp"@, Val::Function(Builtin::Slurp, None)),
        ("atom"@, Val::Function(Builtin::Atom, None)),
        ("atom?"@, Val::Function(Builtin::IsAtom, None)),
        ("deref"@, Val::Function(Builtin::Deref, None)),
        ("reset!"@, Val::Function(Builtin::Reset, None)),
        ("swap!"@, Val::Function(Builtin::Swap, None)),
        ("cons"@, Val::Function(Builtin::Cons, None)),
        ("concat"@, Val::Function(Builtin::Concat, None)),
        ("eval"@, Val::Function(Builtin::Eval, Some(root))),
    ]
}

fn push_entry(data: &mut Vec<(String, MalType)>, name: &str, b: Builtin, env: Option<Env>)
    ensures
        crate::env::frame_view(final(data)@) == crate::env::frame_view(old(data)@).push(
            (name@, Val::Function(b, crate::env::env_id(env))),
        ),
{
    let ghost before = crate::env::frame_view(data@);
    data.push((name.to_owned(), MalType::Function(MalFunc { func: b, env })));
    assert(crate::env::frame_view(data@) =~= before.push(
        (name@, Val::Function(b, crate::env::env_id(env))),
    ));
}

/// A new scope with no parent holding the primitives.
pub fn new_root(heap: &mut Heap) -> (r: Env)
    requires
        old(heap).wf(),
        old(heap).view().envs.len() < usize::MAX,
    ensures
        final(heap).wf(),
        r.id == old(heap).view().envs.len(),
        final(heap).view() == old(heap).view().push_frame(root_bindings(r.id as nat), None),
{
    let root = Env { id: heap.envs.len() };
    let mut data: Vec<(String, MalType)> = Vec::new();
    assert(crate::env::frame_view(data@) =~= Seq::<(Seq<char>, Val)>::empty());
    push_entry(&mut data, "+", Builtin::Plus, None);
    push_entry(&mut data, "-", Builtin::Minus, None);
    push_entry(&mut data, "*", Builtin::Multiply, None);
    push_entry(&mut data, "/", Builtin::Divide, None);
    push_entry(&mut data, "list", Builtin::List, None);
    push_entry(&mut data, "list?", Builtin::IsList, None);
    push_entry(&mut data, "empty?", Builtin::IsEmpty, None);
    push_entry(&mut data, "count", Builtin::Count, None);
    push_entry(&mut data, "=", Builtin::Equal, None);
    push_entry(&mut data, "<", Builtin::LessThan, None);
    push_entry(&mut data, "<=", Builtin::LessThanOrEq, None);
    push_entry(&mut data, ">", Builtin::GreaterThan, None);
    push_entry(&mut data, ">=", Builtin::GreaterThanOrEq, None);
    push_entry(&mut data, "prn", Builtin::Prn, None);
    push_entry(&mut data, "println", Builtin::Println, None);
    push_entry(&mut data, "pr-str", Builtin::PrStr, None);
    push_entry(&mut data, "str", Builtin::Str, None);
    push_entry(&mut data, "read-string", Builtin::ReadString, None);
    push_entry(&mut data, "slurp", Builtin::Slurp, None);
    push_entry(&mut data, "atom", Builtin::Atom, None);
    push_entry(&mut data, "atom?", Builtin::IsAtom, None);
    push_entry(&mut data, "deref", Builtin::Deref, None);
    push_entry(&mut data, "reset!", Builtin::Reset, None);
    push_entry(&mut data, "swap!", Builtin::Swap, None);
    push_entry(&mut data, "cons", Builtin::Cons, None);
    push_entry(&mut data, "concat", Builtin::Concat, None);
    push_entry(&mut data, "eval", Builtin::Eval, Some(root));
    assert(crate::env::frame_view(data@) =~= root_bindings(root.id as nat));
    crate::env::push_scope(heap, data, None)
}

/// What reading, evaluating and printing `input` gives.
pub open spec fn rep_spec(h: HeapView, input: Seq<char>, env: nat, fuel: nat) -> (
    HeapView,
    Result<Seq<char>, ErrKind>,
) {
    match read_spec(input) {
        Err(e) => (
            h,
            Err(
                match e {
                    crate::reader::ReadErr::Blank => ErrKind::BlankLine,
                    crate::reader::ReadErr::Eof => ErrKind::Eof,
                    crate::reader::ReadErr::EndOfString => ErrKind::EndOfString,
                },
            ),
        ),
        Ok(v) => {
            let (h1, r) = ev(h, v, env, fuel);
            match r {
                Ok(x) => (h1, Ok(print_spec(x, true))),
                Err(k) => (h1, Err(k)),
            }
        },
    }
}

/// Reads `input`, evaluates it in `env` and prints the result readably.
pub fn rep(heap: &mut Heap, input: String, env: Env, fuel: u64) -> (r: Result<String, MalError>)
    requires
        old(heap).wf(),
    ensures
        final(heap).wf(),
        (final(heap).view(), match r {
            Ok(s) => Ok::<Seq<char>, ErrKind>(s@),
            Err(e) => Err(e.reason.kind()),
        }) == rep_spec(old(heap).view(), input@, env.id as nat, fuel as nat),
{
    let ast = match read_str(input) {
        Ok(v) => v,
        Err(e) => return Err(e),
    };
    let value = match eval(heap, ast, env, fuel) {
        Ok(v) => v,
        Err(e) => return Err(e),
    };
    Ok(print_str(&value, true))
}

} // verus!
