use vstd::prelude::*;

use crate::env::{Env, Heap, HeapView};
use crate::printer::{join, join_spec};
use crate::reader::{read_spec, read_str, ReadErr};
use crate::types::{
    bool_val, copy_values, lemma_view_seq, res_view, seq_of, view_seq, ErrKind,
    MalError, MalResult, MalType, Val,
};

verus! {

broadcast use vstd::std_specs::vec::group_vec_axioms;

// ---------------------------------------------------------------------------
// Models of the primitives
// ---------------------------------------------------------------------------

/// The numbers among `args`, when every argument is one.
pub open spec fn nums(args: Seq<Val>) -> Option<Seq<i64>>
    decreases args.len(),
{
    if args.len() == 0 {
        Some(Seq::empty())
    } else {
        match (nums(args.drop_last()), args.last()) {
            (Some(ns), Val::Number(n)) => Some(ns.push(n as i64)),
            _ => None,
        }
    }
}

/// The exact sum of the numbers.
pub open spec fn sum_of(ns: Seq<i64>) -> int
    decreases ns.len(),
{
    if ns.len() == 0 {
        0
    } else {
        sum_of(ns.drop_last()) + ns.last()
    }
}

/// The exact product of the numbers.
pub open spec fn product_of(ns: Seq<i64>) -> int
    decreases ns.len(),
{
    if ns.len() == 0 {
        1
    } else {
        product_of(ns.drop_last()) * ns.last()
    }
}

/// Division rounding toward zero, as Rust's integer `/` does.
pub open spec fn tdiv(x: int, d: int) -> int {
    if x == 0 {
        0
    } else if x > 0 && d > 0 {
        x / d
    } else if x < 0 && d < 0 {
        (x * -1) / (d * -1)
    } else if x < 0 {
        ((x * -1) / d) * -1
    } else {
        (x / (d * -1)) * -1
    }
}

/// The first number divided, rounding toward zero, by each of the others in
/// turn; `None` when a divisor is zero.
pub open spec fn quotient_of(ns: Seq<i64>) -> Option<int>
    decreases ns.len(),
{
    if ns.len() <= 1 {
        if ns.len() == 1 {
            Some(ns[0] as int)
        } else {
            None
        }
    } else {
        match quotient_of(ns.drop_last()) {
            Some(a) => if ns.last() == 0 {
                None
            } else {
                Some(tdiv(a, ns.last() as int))
            },
            None => None,
        }
    }
}

pub open spec fn fits_i64(v: int) -> bool {
    i64::MIN <= v <= i64::MAX
}

/// An exact result: the number when it fits in 64 bits, an overflow error
/// otherwise.
pub open spec fn number_result(v: int) -> Result<Val, ErrKind> {
    if fits_i64(v) {
        Ok(Val::Number(v))
    } else {
        Err(ErrKind::Generic("Integer overflow"@))
    }
}

pub open spec fn plus_spec(args: Seq<Val>) -> Result<Val, ErrKind> {
    match nums(args) {
        None => Err(ErrKind::NotANumber),
        Some(ns) => number_result(sum_of(ns)),
    }
}

pub open spec fn multiply_spec(args: Seq<Val>) -> Result<Val, ErrKind> {
    match nums(args) {
        None => Err(ErrKind::NotANumber),
        Some(ns) => number_result(product_of(ns)),
    }
}

pub open spec fn minus_spec(args: Seq<Val>) -> Result<Val, ErrKind> {
    if args.len() == 0 {
        Err(ErrKind::WrongArguments("Expected at least one number"@))
    } else {
        match nums(args) {
            None => Err(ErrKind::NotANumber),
            Some(ns) => number_result(ns[0] - sum_of(ns.drop_first())),
        }
    }
}

pub open spec fn divide_spec(args: Seq<Val>) -> Result<Val, ErrKind> {
    if args.len() == 0 {
        Err(ErrKind::WrongArguments("Expected at least one number"@))
    } else {
        match nums(args) {
            None => Err(ErrKind::NotANumber),
            Some(ns) => match quotient_of(ns) {
                Some(q) => number_result(q),
                None => Err(ErrKind::Generic("Division by zero"@)),
            },
        }
    }
}

pub open spec fn is_list_spec(args: Seq<Val>) -> Result<Val, ErrKind> {
    if args.len() == 0 {
        Ok(Val::False)
    } else {
        Ok(bool_val(args[0] is List))
    }
}

pub open spec fn is_empty_spec(args: Seq<Val>) -> Result<Val, ErrKind> {
    if args.len() < 1 {
        Err(ErrKind::WrongArguments("Wrong number of args, expected 1"@))
    } else {
        match seq_of(args[0]) {
            Some(s) => Ok(bool_val(s.len() == 0)),
            None => Err(ErrKind::WrongArguments("Not a list"@)),
        }
    }
}

pub open spec fn count_spec(args: Seq<Val>) -> Result<Val, ErrKind> {
    if args.len() < 1 {
        Err(ErrKind::WrongArguments("Wrong number of args, expected 1"@))
    } else if args[0] is Nil {
        Ok(Val::Number(0))
    } else {
        match seq_of(args[0]) {
            Some(s) => if s.len() <= i64::MAX {
                Ok(Val::Number(s.len() as int))
            } else {
                Err(ErrKind::Generic("List too long to count"@))
            },
            None => Err(ErrKind::WrongArguments("Not a list"@)),
        }
    }
}

/// Structural equality: lists and vectors compare element by element
/// whatever their kinds, maps compare their flat sequences; procedures,
/// closures and reference cells equal nothing.
pub open spec fn values_equal_spec(a: Val, b: Val) -> bool
    decreases a,
{
    match (a, b) {
        (Val::Nil, Val::Nil) => true,
        (Val::True, Val::True) => true,
        (Val::False, Val::False) => true,
        (Val::Symbol(x), Val::Symbol(y)) => x == y,
        (Val::Number(x), Val::Number(y)) => x == y,
        (Val::Str(x), Val::Str(y)) => x == y,
        (Val::Keyword(x), Val::Keyword(y)) => x == y,
        (Val::List(x), Val::List(y)) => list_equal_spec(x, y),
        (Val::List(x), Val::Vector(y)) => list_equal_spec(x, y),
        (Val::Vector(x), Val::List(y)) => list_equal_spec(x, y),
        (Val::Vector(x), Val::Vector(y)) => list_equal_spec(x, y),
        (Val::HashMap(x), Val::HashMap(y)) => list_equal_spec(x, y),
        _ => false,
    }
}

pub open spec fn list_equal_spec(a: Seq<Val>, b: Seq<Val>) -> bool
    decreases a,
{
    if a.len() != b.len() {
        false
    } else if a.len() == 0 {
        true
    } else {
        list_equal_spec(a.subrange(0, a.len() - 1), b.subrange(0, b.len() - 1))
            && values_equal_spec(a[a.len() - 1], b[b.len() - 1])
    }
}

pub open spec fn equal_spec(args: Seq<Val>) -> Result<Val, ErrKind> {
    if args.len() < 2 {
        Err(ErrKind::WrongArguments("Wrong number of args, expected 2"@))
    } else {
        Ok(bool_val(values_equal_spec(args[0], args[1])))
    }
}

/// How two numbers are compared.
pub enum Cmp {
    Lt,
    Le,
    Gt,
    Ge,
}

pub open spec fn cmp_holds(c: Cmp, a: int, b: int) -> bool {
    match c {
        Cmp::Lt => a < b,
        Cmp::Le => a <= b,
        Cmp::Gt => a > b,
        Cmp::Ge => a >= b,
    }
}

pub open spec fn compare_spec(args: Seq<Val>, c: Cmp) -> Result<Val, ErrKind> {
    if args.len() < 2 {
        Err(ErrKind::WrongArguments("Wrong number of args, expected 2"@))
    } else {
        match (args[0], args[1]) {
            (Val::Number(a), Val::Number(b)) => Ok(bool_val(cmp_holds(c, a, b))),
            _ => Err(ErrKind::NotANumber),
        }
    }
}

pub open spec fn read_string_spec(args: Seq<Val>) -> Result<Val, ErrKind> {
    if args.len() < 1 {
        Err(ErrKind::WrongArguments("Wrong number of args, expected 1"@))
    } else {
        match args[0] {
            Val::Str(s) => match read_spec(s) {
                Ok(v) => Ok(v),
                Err(ReadErr::Blank) => Err(ErrKind::BlankLine),
                Err(ReadErr::Eof) => Err(ErrKind::Eof),
                Err(ReadErr::EndOfString) => Err(ErrKind::EndOfString),
            },
            _ => Err(ErrKind::Generic("Not a string"@)),
        }
    }
}

pub open spec fn is_atom_spec(args: Seq<Val>) -> Result<Val, ErrKind> {
    if args.len() < 1 {
        Err(ErrKind::WrongArguments("Wrong number of args, expected 1"@))
    } else {
        Ok(bool_val(args[0] is Atom))
    }
}

pub open spec fn cons_spec(args: Seq<Val>) -> Result<Val, ErrKind> {
    if args.len() < 2 {
        Err(ErrKind::WrongArguments("Wrong number of args, expected 2"@))
    } else {
        match seq_of(args[1]) {
            Some(s) => Ok(Val::List(seq![args[0]] + s)),
            None => Err(ErrKind::WrongArguments("2nd argument was not a list"@)),
        }
    }
}

/// The elements of all the arguments, in order, when each is a list or a
/// vector.
pub open spec fn concat_seq(args: Seq<Val>) -> Option<Seq<Val>>
    decreases args.len(),
{
    if args.len() == 0 {
        Some(Seq::empty())
    } else {
        match (concat_seq(args.drop_last()), seq_of(args.last())) {
            (Some(a), Some(b)) => Some(a + b),
            _ => None,
        }
    }
}

pub open spec fn concat_spec(args: Seq<Val>) -> Result<Val, ErrKind> {
    match concat_seq(args) {
        Some(s) => Ok(Val::List(s)),
        None => Err(ErrKind::WrongArguments("Expected a list or vector"@)),
    }
}

/// The contents of the first file registered under `path`.
pub open spec fn file_lookup(files: Seq<(Seq<char>, Seq<char>)>, path: Seq<char>) -> Option<
    Seq<char>,
>
    decreases files.len(),
{
    if files.len() == 0 {
        None
    } else if files[0].0 == path {
        Some(files[0].1)
    } else {
        file_lookup(files.drop_first(), path)
    }
}

pub open spec fn slurp_spec(h: HeapView, args: Seq<Val>) -> Result<Val, ErrKind> {
    if args.len() < 1 {
        Err(ErrKind::WrongArguments("Wrong number of args, expected 1"@))
    } else {
        match args[0] {
            Val::Str(p) => match file_lookup(h.files, p) {
                Some(c) => Ok(Val::Str(c)),
                None => Err(ErrKind::Generic("File not found"@)),
            },
            _ => Err(ErrKind::Generic("Not a string"@)),
        }
    }
}

pub open spec fn atom_spec(h: HeapView, args: Seq<Val>) -> (HeapView, Result<Val, ErrKind>) {
    if args.len() < 1 {
        (h, Err(ErrKind::WrongArguments("Wrong number of args, expected 1"@)))
    } else {
        (h.push_atom(args[0]), Ok(Val::Atom(h.atoms.len())))
    }
}

pub open spec fn deref_spec(h: HeapView, args: Seq<Val>) -> Result<Val, ErrKind> {
    if args.len() < 1 {
        Err(ErrKind::WrongArguments("Wrong number of args, expected 1"@))
    } else {
        match args[0] {
            Val::Atom(i) => if i < h.atoms.len() {
                Ok(h.atoms[i as int])
            } else {
                Err(ErrKind::Generic("Unknown atom"@))
            },
            _ => Err(ErrKind::WrongArguments("Not an atom"@)),
        }
    }
}

pub open spec fn reset_spec(h: HeapView, args: Seq<Val>) -> (HeapView, Result<Val, ErrKind>) {
    if args.len() < 2 {
        (h, Err(ErrKind::WrongArguments("Wrong number of args, expected 2"@)))
    } else {
        match args[0] {
            Val::Atom(i) => if i < h.atoms.len() {
                (h.set_atom(i as int, args[1]), Ok(args[1]))
            } else {
                (h, Err(ErrKind::Generic("Unknown atom"@)))
            },
            _ => (h, Err(ErrKind::WrongArguments("Not an atom"@))),
        }
    }
}

// ---------------------------------------------------------------------------
// Primitives
// ---------------------------------------------------------------------------

/// The bound `2^63` on the size of a 64-bit number.
pub open spec fn big() -> int {
    0x8000_0000_0000_0000
}

pub open spec fn abs(v: int) -> int {
    if v < 0 {
        -v
    } else {
        v
    }
}

/// The exact result held in an `i128` as a number, or an overflow error.
fn finish(acc: i128) -> (r: MalResult)
    ensures
        res_view(r) == number_result(acc as int),
{
    if acc >= -0x8000_0000_0000_0000i128 && acc <= 0x7fff_ffff_ffff_ffffi128 {
        Ok(MalType::Number(acc as i64))
    } else {
        Err(MalError::generic("Integer overflow"))
    }
}

pub fn plus(args: &mut Vec<MalType>, _env: Option<Env>) -> (r: MalResult)
    ensures
        final(args)@ == old(args)@,
        res_view(r) == plus_spec(view_seq(old(args)@)),
{
    let ns = match to_numbers(args) {
        Ok(ns) => ns,
        Err(e) => return Err(e),
    };
    let mut acc: i128 = 0;
    let mut i: usize = 0;
    assert(ns@.subrange(0, 0) =~= Seq::<i64>::empty());
    while i < ns.len()
        invariant
            i <= ns.len(),
            acc as int == sum_of(ns@.subrange(0, i as int)),
            -(i as int) * big() <= acc <= (i as int) * big(),
            nums(view_seq(args@)) == Some(ns@),
        decreases ns.len() - i,
    {
        assert(ns@.subrange(0, i + 1).drop_last() =~= ns@.subrange(0, i as int));
        assert((i as int) + 1 <= 0xffff_ffff_ffff_ffff);
        acc = acc + ns[i] as i128;
        i = i + 1;
    }
    assert(ns@.subrange(0, i as int) =~= ns@);
    finish(acc)
}

pub fn minus(args: &mut Vec<MalType>, _env: Option<Env>) -> (r: MalResult)
    ensures
        final(args)@ == old(args)@,
        res_view(r) == minus_spec(view_seq(old(args)@)),
{
    proof {
        lemma_view_seq(args@);
    }
    if args.len() == 0 {
        return Err(MalError::wrong_arguments("Expected at least one number"));
    }
    let ns = match to_numbers(args) {
        Ok(ns) => ns,
        Err(e) => return Err(e),
    };
    let ghost rest = ns@.drop_first();
    let mut acc: i128 = ns[0] as i128;
    let mut i: usize = 1;
    assert(rest.subrange(0, 0) =~= Seq::<i64>::empty());
    while i < ns.len()
        invariant
            1 <= i <= ns.len(),
            rest == ns@.drop_first(),
            acc as int == ns@[0] - sum_of(rest.subrange(0, i - 1)),
            -(i as int) * big() <= acc <= (i as int) * big(),
            nums(view_seq(args@)) == Some(ns@),
        decreases ns.len() - i,
    {
        assert(rest.subrange(0, i as int).drop_last() =~= rest.subrange(0, i - 1));
        assert(rest[i - 1] == ns@[i as int]);
        assert((i as int) + 1 <= 0xffff_ffff_ffff_ffff);
        acc = acc - ns[i] as i128;
        i = i + 1;
    }
    assert(rest.subrange(0, i - 1) =~= rest);
    finish(acc)
}

/// A zero factor makes the product zero.
proof fn lemma_zero_factor(ns: Seq<i64>, j: int)
    requires
        0 <= j < ns.len(),
        ns[j] == 0,
    ensures
        product_of(ns) == 0,
    decreases ns.len(),
{
    if j < ns.len() - 1 {
        lemma_zero_factor(ns.drop_last(), j);
    }
}

/// Without zero factors, a product is at least as large as the product of
/// any prefix.
proof fn lemma_product_grows(ns: Seq<i64>, k: int)
    requires
        0 <= k <= ns.len(),
        forall|j: int| 0 <= j < ns.len() ==> ns[j] != 0,
    ensures
        abs(product_of(ns.subrange(0, k))) <= abs(product_of(ns)),
    decreases ns.len() - k,
{
    if k < ns.len() {
        lemma_product_grows(ns, k + 1);
        let p = product_of(ns.subrange(0, k));
        let x = ns[k] as int;
        assert(ns.subrange(0, k + 1).drop_last() =~= ns.subrange(0, k));
        assert(product_of(ns.subrange(0, k + 1)) == p * x);
        assert(abs(p) <= abs(p * x)) by (nonlinear_arith)
            requires
                x != 0,
        ;
    } else {
        assert(ns.subrange(0, k) =~= ns);
    }
}

pub fn multiply(args: &mut Vec<MalType>, _env: Option<Env>) -> (r: MalResult)
    ensures
        final(args)@ == old(args)@,
        res_view(r) == multiply_spec(view_seq(old(args)@)),
{
    let ns = match to_numbers(args) {
        Ok(ns) => ns,
        Err(e) => return Err(e),
    };
    let mut j: usize = 0;
    while j < ns.len()
        invariant
            j <= ns.len(),
            forall|x: int| 0 <= x < j ==> ns@[x] != 0,
            nums(view_seq(args@)) == Some(ns@),
        decreases ns.len() - j,
    {
        if ns[j] == 0 {
            proof {
                lemma_zero_factor(ns@, j as int);
            }
            return Ok(MalType::Number(0));
        }
        j = j + 1;
    }
    let mut acc: i128 = 1;
    let mut i: usize = 0;
    assert(ns@.subrange(0, 0) =~= Seq::<i64>::empty());
    while i < ns.len()
        invariant
            i <= ns.len(),
            forall|x: int| 0 <= x < ns.len() ==> ns@[x] != 0,
            acc as int == product_of(ns@.subrange(0, i as int)),
            -big() <= acc <= big(),
            nums(view_seq(args@)) == Some(ns@),
        decreases ns.len() - i,
    {
        assert(ns@.subrange(0, i + 1).drop_last() =~= ns@.subrange(0, i as int));
        let x = ns[i] as i128;
        assert(-big() * big() <= acc * x <= big() * big()) by (nonlinear_arith)
            requires
                -big() <= acc <= big(),
                -big() <= x <= big(),
        ;
        acc = acc * x;
        i = i + 1;
        if acc < -0x8000_0000_0000_0000i128 || acc > 0x8000_0000_0000_0000i128 {
            proof {
                lemma_product_grows(ns@, i as int);
            }
            return Err(MalError::generic("Integer overflow"));
        }
    }
    assert(ns@.subrange(0, i as int) =~= ns@);
    finish(acc)
}

/// Dividing, rounding toward zero, by a non-zero number never makes a
/// number larger.
proof fn lemma_tdiv_bound(a: int, d: int)
    requires
        d != 0,
    ensures
        abs(tdiv(a, d)) <= abs(a),
{
    if a > 0 && d > 0 {
        assert(0 <= a / d <= a) by (nonlinear_arith)
            requires
                a > 0,
                d > 0,
        ;
    } else if a < 0 && d < 0 {
        assert(0 <= (a * -1) / (d * -1) <= a * -1) by (nonlinear_arith)
            requires
                a < 0,
                d < 0,
        ;
    } else if a < 0 {
        assert(0 <= (a * -1) / d <= a * -1) by (nonlinear_arith)
            requires
                a < 0,
                d > 0,
        ;
    } else if a > 0 {
        assert(0 <= a / (d * -1) <= a) by (nonlinear_arith)
            requires
                a > 0,
                d < 0,
        ;
    }
}

/// Once a divisor is zero, every longer run of divisions fails.
proof fn lemma_quotient_none_extends(ns: Seq<i64>, k: int)
    requires
        0 < k <= ns.len(),
        quotient_of(ns.subrange(0, k)) is None,
    ensures
        quotient_of(ns) is None,
    decreases ns.len() - k,
{
    if k < ns.len() {
        assert(ns.subrange(0, k + 1).drop_last() =~= ns.subrange(0, k));
        lemma_quotient_none_extends(ns, k + 1);
    } else {
        assert(ns.subrange(0, k) =~= ns);
    }
}

pub fn divide(args: &mut Vec<MalType>, _env: Option<Env>) -> (r: MalResult)
    ensures
        final(args)@ == old(args)@,
        res_view(r) == divide_spec(view_seq(old(args)@)),
{
    proof {
        lemma_view_seq(args@);
    }
    if args.len() == 0 {
        return Err(MalError::wrong_arguments("Expected at least one number"));
    }
    let ns = match to_numbers(args) {
        Ok(ns) => ns,
        Err(e) => return Err(e),
    };
    let mut acc: i128 = ns[0] as i128;
    let mut i: usize = 1;
    assert(ns@.subrange(0, 1) =~= seq![ns@[0]]);
    while i < ns.len()
        invariant
            1 <= i <= ns.len(),
            quotient_of(ns@.subrange(0, i as int)) == Some(acc as int),
            -big() <= acc <= big(),
            nums(view_seq(args@)) == Some(ns@),
        decreases ns.len() - i,
    {
        assert(ns@.subrange(0, i + 1).drop_last() =~= ns@.subrange(0, i as int));
        if ns[i] == 0 {
            proof {
                lemma_quotient_none_extends(ns@, i + 1);
            }
            return Err(MalError::generic("Division by zero"));
        }
        proof {
            lemma_tdiv_bound(acc as int, ns[i as int] as int);
        }
        match acc.checked_div(ns[i] as i128) {
            Some(q) => acc = q,
            None => {
                proof {
                    assert(false);
                }
                return Err(MalError::generic("Division by zero"));
            },
        }
        i = i + 1;
    }
    assert(ns@.subrange(0, i as int) =~= ns@);
    finish(acc)
}

pub fn list(args: &mut Vec<MalType>, _env: Option<Env>) -> (r: MalResult)
    ensures
        final(args)@ == old(args)@,
        res_view(r) == Ok::<Val, ErrKind>(Val::List(view_seq(old(args)@))),
{
    Ok(MalType::List(copy_values(args)))
}

pub fn is_list(args: &mut Vec<MalType>, _env: Option<Env>) -> (r: MalResult)
    ensures
        final(args)@ == old(args)@,
        res_view(r) == is_list_spec(view_seq(old(args)@)),
{
    proof {
        lemma_view_seq(args@);
    }
    if args.len() == 0 {
        return Ok(MalType::False);
    }
    Ok(MalType::to_bool(args[0].is_list()))
}

pub fn is_empty(args: &mut Vec<MalType>, _env: Option<Env>) -> (r: MalResult)
    ensures
        final(args)@ == old(args)@,
        res_view(r) == is_empty_spec(view_seq(old(args)@)),
{
    proof {
        lemma_view_seq(args@);
    }
    if args.len() < 1 {
        return Err(MalError::wrong_arguments("Wrong number of args, expected 1"));
    }
    match args[0].list_value() {
        Some(list) => {
            proof {
                lemma_view_seq(list@);
            }
            Ok(MalType::to_bool(list.len() == 0))
        },
        None => Err(MalError::wrong_arguments("Not a list")),
    }
}

pub fn count(args: &mut Vec<MalType>, _env: Option<Env>) -> (r: MalResult)
    ensures
        final(args)@ == old(args)@,
        res_view(r) == count_spec(view_seq(old(args)@)),
{
    proof {
        lemma_view_seq(args@);
    }
    if args.len() < 1 {
        return Err(MalError::wrong_arguments("Wrong number of args, expected 1"));
    }
    if args[0].is_nil() {
        return Ok(MalType::Number(0));
    }
    match args[0].list_value() {
        Some(list) => {
            proof {
                lemma_view_seq(list@);
            }
            let n: usize = list.len();
            if (n as u64) <= 9223372036854775807u64 {
                Ok(MalType::Number(n as i64))
            } else {
                Err(MalError::generic("List too long to count"))
            }
        },
        None => Err(MalError::wrong_arguments("Not a list")),
    }
}

pub fn equal(args: &mut Vec<MalType>, _env: Option<Env>) -> (r: MalResult)
    ensures
        final(args)@ == old(args)@,
        res_view(r) == equal_spec(view_seq(old(args)@)),
{
    proof {
        lemma_view_seq(args@);
    }
    if args.len() < 2 {
        return Err(MalError::wrong_arguments("Wrong number of args, expected 2"));
    }
    Ok(MalType::to_bool(values_equal(&args[0], &args[1])))
}

fn compare(args: &Vec<MalType>, c: Cmp) -> (r: MalResult)
    ensures
        res_view(r) == compare_spec(view_seq(args@), c),
{
    proof {
        lemma_view_seq(args@);
    }
    if args.len() < 2 {
        return Err(MalError::wrong_arguments("Wrong number of args, expected 2"));
    }
    let first = match get_number(&args[0]) {
        Ok(n) => n,
        Err(e) => return Err(e),
    };
    let second = match get_number(&args[1]) {
        Ok(n) => n,
        Err(e) => return Err(e),
    };
    let holds = match c {
        Cmp::Lt => first < second,
        Cmp::Le => first <= second,
        Cmp::Gt => first > second,
        Cmp::Ge => first >= second,
    };
    Ok(MalType::to_bool(holds))
}

pub fn less_than(args: &mut Vec<MalType>, _env: Option<Env>) -> (r: MalResult)
    ensures
        final(args)@ == old(args)@,
        res_view(r) == compare_spec(view_seq(old(args)@), Cmp::Lt),
{
    compare(args, Cmp::Lt)
}

pub fn less_than_or_eq(args: &mut Vec<MalType>, _env: Option<Env>) -> (r: MalResult)
    ensures
        final(args)@ == old(args)@,
        res_view(r) == compare_spec(view_seq(old(args)@), Cmp::Le),
{
    compare(args, Cmp::Le)
}

pub fn greater_than(args: &mut Vec<MalType>, _env: Option<Env>) -> (r: MalResult)
    ensures
        final(args)@ == old(args)@,
        res_view(r) == compare_spec(view_seq(old(args)@), Cmp::Gt),
{
    compare(args, Cmp::Gt)
}

pub fn greater_than_or_eq(args: &mut Vec<MalType>, _env: Option<Env>) -> (r: MalResult)
    ensures
        final(args)@ == old(args)@,
        res_view(r) == compare_spec(view_seq(old(args)@), Cmp::Ge),
{
    compare(args, Cmp::Ge)
}

/// Records the arguments, printed readably and separated by spaces, as one
/// line of output.
pub fn prn(heap: &mut Heap, args: &mut Vec<MalType>, _env: Option<Env>) -> (r: MalResult)
    requires
        old(heap).wf(),
    ensures
        final(heap).wf(),
        final(args)@ == old(args)@,
        final(heap).view() == old(heap).view().print_line(
            join_spec(view_seq(old(args)@), seq![' '], true),
        ),
        res_view(r) == Ok::<Val, ErrKind>(Val::Nil),
{
    print(heap, args, true)
}

/// Records the arguments, printed as they are and separated by spaces, as
/// one line of output.
pub fn println(heap: &mut Heap, args: &mut Vec<MalType>, _env: Option<Env>) -> (r: MalResult)
    requires
        old(heap).wf(),
    ensures
        final(heap).wf(),
        final(args)@ == old(args)@,
        final(heap).view() == old(heap).view().print_line(
            join_spec(view_seq(old(args)@), seq![' '], false),
        ),
        res_view(r) == Ok::<Val, ErrKind>(Val::Nil),
{
    print(heap, args, false)
}

fn print(heap: &mut Heap, args: &Vec<MalType>, readable: bool) -> (r: MalResult)
    requires
        old(heap).wf(),
    ensures
        final(heap).wf(),
        final(heap).view() == old(heap).view().print_line(
            join_spec(view_seq(args@), seq![' '], readable),
        ),
        res_view(r) == Ok::<Val, ErrKind>(Val::Nil),
{
    proof {
        reveal_strlit(" ");
        assert(" "@ =~= seq![' ']);
    }
    let ghost old_view = heap.view();
    let joined = join(args, " ", readable);
    heap.output.push(joined);
    assert(heap.view().output =~= old_view.output.push(joined@));
    assert(heap.view().envs =~= old_view.envs);
    assert(heap.view() == old_view.print_line(joined@));
    Ok(MalType::Nil)
}

pub fn pr_str(args: &mut Vec<MalType>, _env: Option<Env>) -> (r: MalResult)
    ensures
        final(args)@ == old(args)@,
        res_view(r) == Ok::<Val, ErrKind>(
            Val::Str(join_spec(view_seq(old(args)@), seq![' '], true)),
        ),
{
    proof {
        reveal_strlit(" ");
        assert(" "@ =~= seq![' ']);
    }
    Ok(MalType::String(join(args, " ", true)))
}

pub fn str(args: &mut Vec<MalType>, _env: Option<Env>) -> (r: MalResult)
    ensures
        final(args)@ == old(args)@,
        res_view(r) == Ok::<Val, ErrKind>(
            Val::Str(join_spec(view_seq(old(args)@), Seq::empty(), false)),
        ),
{
    proof {
        reveal_strlit("");
        assert(""@ =~= Seq::<char>::empty());
    }
    Ok(MalType::String(join(args, "", false)))
}

pub fn read_string(args: &mut Vec<MalType>, _env: Option<Env>) -> (r: MalResult)
    ensures
        final(args)@ == old(args)@,
        res_view(r) == read_string_spec(view_seq(old(args)@)),
{
    proof {
        lemma_view_seq(args@);
    }
    if args.len() < 1 {
        return Err(MalError::wrong_arguments("Wrong number of args, expected 1"));
    }
    match args[0].string_value() {
        Some(s) => read_str(s),
        None => Err(MalError::generic("Not a string")),
    }
}

/// The contents of a file the host has registered under the given path.
pub fn slurp(heap: &Heap, args: &mut Vec<MalType>, _env: Option<Env>) -> (r: MalResult)
    ensures
        final(args)@ == old(args)@,
        res_view(r) == slurp_spec(heap.view(), view_seq(old(args)@)),
{
    proof {
        lemma_view_seq(args@);
    }
    if args.len() < 1 {
        return Err(MalError::wrong_arguments("Wrong number of args, expected 1"));
    }
    let path = match args[0].string_value() {
        Some(p) => p,
        None => return Err(MalError::generic("Not a string")),
    };
    let ghost files = heap.view().files;
    let ghost want = slurp_spec(heap.view(), view_seq(args@));
    assert(files.subrange(0, files.len() as int) =~= files);
    let mut i: usize = 0;
    while i < heap.files.len()
        invariant
            i <= heap.files.len(),
            files == heap.view().files,
            files.len() == heap.files@.len(),
            want == match file_lookup(files, path@) {
                Some(c) => Ok(Val::Str(c)),
                None => Err(ErrKind::Generic("File not found"@)),
            },
            want == slurp_spec(heap.view(), view_seq(args@)),
            file_lookup(files, path@) == file_lookup(files.subrange(i as int, files.len() as int), path@),
        decreases heap.files.len() - i,
    {
        let ghost rest = files.subrange(i as int, files.len() as int);
        assert(rest.drop_first() =~= files.subrange(i + 1, files.len() as int));
        assert(rest[0] == (heap.files@[i as int].0@, heap.files@[i as int].1@));
        if heap.files[i].0 == path {
            return Ok(MalType::String(heap.files[i].1.clone()));
        }
        i = i + 1;
    }
    Err(MalError::generic("File not found"))
}

pub fn atom(heap: &mut Heap, args: &mut Vec<MalType>, _env: Option<Env>) -> (r: MalResult)
    requires
        old(heap).wf(),
    ensures
        final(heap).wf(),
        final(args)@ == old(args)@,
        (final(heap).view(), res_view(r)) == atom_spec(old(heap).view(), view_seq(old(args)@)),
{
    proof {
        lemma_view_seq(args@);
    }
    if args.len() < 1 {
        return Err(MalError::wrong_arguments("Wrong number of args, expected 1"));
    }
    let v = args[0].deep_copy();
    Ok(MalType::atom(heap, v))
}

pub fn is_atom(args: &mut Vec<MalType>, _env: Option<Env>) -> (r: MalResult)
    ensures
        final(args)@ == old(args)@,
        res_view(r) == is_atom_spec(view_seq(old(args)@)),
{
    proof {
        lemma_view_seq(args@);
    }
    if args.len() < 1 {
        return Err(MalError::wrong_arguments("Wrong number of args, expected 1"));
    }
    Ok(MalType::to_bool(args[0].is_atom()))
}

pub fn deref(heap: &Heap, args: &mut Vec<MalType>, _env: Option<Env>) -> (r: MalResult)
    ensures
        final(args)@ == old(args)@,
        res_view(r) == deref_spec(heap.view(), view_seq(old(args)@)),
{
    proof {
        lemma_view_seq(args@);
        lemma_view_seq(heap.atoms@);
    }
    if args.len() < 1 {
        return Err(MalError::wrong_arguments("Wrong number of args, expected 1"));
    }
    match &args[0] {
        MalType::Atom(i) => {
            if *i < heap.atoms.len() {
                Ok(heap.atoms[*i].deep_copy())
            } else {
                Err(MalError::generic("Unknown atom"))
            }
        },
        _ => Err(MalError::wrong_arguments("Not an atom")),
    }
}

/// Puts `value` into reference cell `i`.
pub(crate) fn replace_atom(heap: &mut Heap, i: usize, value: MalType)
    requires
        old(heap).wf(),
        i < old(heap).view().atoms.len(),
    ensures
        final(heap).wf(),
        final(heap).view() == old(heap).view().set_atom(i as int, value.view()),
{
    let ghost old_view = heap.view();
    let ghost v = value.view();
    proof {
        lemma_view_seq(heap.atoms@);
    }
    heap.atoms.set(i, value);
    proof {
        lemma_view_seq(heap.atoms@);
        assert(heap.view().atoms =~= old_view.atoms.update(i as int, v));
        assert(heap.view().envs =~= old_view.envs);
    }
}

pub fn reset(heap: &mut Heap, args: &mut Vec<MalType>, _env: Option<Env>) -> (r: MalResult)
    requires
        old(heap).wf(),
    ensures
        final(heap).wf(),
        final(args)@ == old(args)@,
        (final(heap).view(), res_view(r)) == reset_spec(old(heap).view(), view_seq(old(args)@)),
{
    proof {
        lemma_view_seq(args@);
        lemma_view_seq(heap.atoms@);
    }
    if args.len() < 2 {
        return Err(MalError::wrong_arguments("Wrong number of args, expected 2"));
    }
    let i = match &args[0] {
        MalType::Atom(i) => *i,
        _ => return Err(MalError::wrong_arguments("Not an atom")),
    };
    if i >= heap.atoms.len() {
        return Err(MalError::generic("Unknown atom"));
    }
    let value = args[1].deep_copy();
    let result = args[1].deep_copy();
    replace_atom(heap, i, value);
    Ok(result)
}

pub fn cons(args: &mut Vec<MalType>, _env: Option<Env>) -> (r: MalResult)
    ensures
        final(args)@ == old(args)@,
        res_view(r) == cons_spec(view_seq(old(args)@)),
{
    proof {
        lemma_view_seq(args@);
    }
    if args.len() < 2 {
        return Err(MalError::wrong_arguments("Wrong number of args, expected 2"));
    }
    match args[1].list_value() {
        Some(mut list) => {
            let ghost tail = list@;
            list.insert(0, args[0].deep_copy());
            proof {
                lemma_view_seq(list@);
                lemma_view_seq(tail);
                assert(view_seq(list@) =~= seq![view_seq(args@)[0]] + view_seq(tail));
            }
            Ok(MalType::List(list))
        },
        None => Err(MalError::wrong_arguments("2nd argument was not a list")),
    }
}

pub fn concat(args: &mut Vec<MalType>, _env: Option<Env>) -> (r: MalResult)
    ensures
        final(args)@ == old(args)@,
        res_view(r) == concat_spec(view_seq(old(args)@)),
{
    let ghost s = view_seq(args@);
    proof {
        lemma_view_seq(args@);
    }
    let mut outlist: Vec<MalType> = Vec::new();
    let mut i: usize = 0;
    while i < args.len()
        invariant
            i <= args.len(),
            s == view_seq(args@),
            s.len() == args@.len(),
            forall|j: int| 0 <= j < args@.len() ==> #[trigger] s[j] == args@[j].view(),
            concat_seq(s.subrange(0, i as int)) == Some(view_seq(outlist@)),
        decreases args.len() - i,
    {
        assert(s.subrange(0, i + 1).drop_last() =~= s.subrange(0, i as int));
        let mut list = match vec_value(&args[i]) {
            Ok(l) => l,
            Err(e) => {
                proof {
                    lemma_concat_none_extends(s, i + 1);
                }
                return Err(e);
            },
        };
        let ghost before = outlist@;
        let ghost added = list@;
        outlist.append(&mut list);
        proof {
            lemma_view_seq(outlist@);
            lemma_view_seq(before);
            lemma_view_seq(added);
            assert(view_seq(outlist@) =~= view_seq(before) + view_seq(added));
        }
        i = i + 1;
    }
    assert(s.subrange(0, i as int) =~= s);
    Ok(MalType::List(outlist))
}

proof fn lemma_concat_none_extends(s: Seq<Val>, k: int)
    requires
        0 < k <= s.len(),
        concat_seq(s.subrange(0, k)) is None,
    ensures
        concat_seq(s) is None,
    decreases s.len() - k,
{
    if k < s.len() {
        assert(s.subrange(0, k + 1).drop_last() =~= s.subrange(0, k));
        lemma_concat_none_extends(s, k + 1);
    } else {
        assert(s.subrange(0, k) =~= s);
    }
}

// ---------------------------------------------------------------------------
// Utilities
// ---------------------------------------------------------------------------

fn to_numbers(args: &Vec<MalType>) -> (r: Result<Vec<i64>, MalError>)
    ensures
        match nums(view_seq(args@)) {
            Some(ns) => r is Ok && r->Ok_0@ == ns,
            None => r is Err && r->Err_0.reason is NotANumber,
        },
{
    let ghost s = view_seq(args@);
    proof {
        lemma_view_seq(args@);
    }
    let mut results: Vec<i64> = Vec::new();
    let mut i: usize = 0;
    while i < args.len()
        invariant
            i <= args.len(),
            s == view_seq(args@),
            s.len() == args@.len(),
            forall|j: int| 0 <= j < args@.len() ==> #[trigger] s[j] == args@[j].view(),
            nums(s.subrange(0, i as int)) == Some(results@),
        decreases args.len() - i,
    {
        assert(s.subrange(0, i + 1).drop_last() =~= s.subrange(0, i as int));
        match args[i].number_value() {
            Some(val) => {
                results.push(val);
            },
            None => {
                proof {
                    lemma_nums_none_extends(s, i + 1);
                }
                return Err(MalError::not_a_number());
            },
        }
        i = i + 1;
    }
    assert(s.subrange(0, i as int) =~= s);
    Ok(results)
}

proof fn lemma_nums_none_extends(s: Seq<Val>, k: int)
    requires
        0 < k <= s.len(),
        nums(s.subrange(0, k)) is None,
    ensures
        nums(s) is None,
    decreases s.len() - k,
{
    if k < s.len() {
        assert(s.subrange(0, k + 1).drop_last() =~= s.subrange(0, k));
        lemma_nums_none_extends(s, k + 1);
    } else {
        assert(s.subrange(0, k) =~= s);
    }
}

fn get_number(arg: &MalType) -> (r: Result<i64, MalError>)
    ensures
        match arg.view() {
            Val::Number(n) => r == Ok::<i64, MalError>(n as i64) && n == r->Ok_0 as int,
            _ => r is Err && r->Err_0.reason is NotANumber,
        },
{
    match arg.number_value() {
        Some(i) => Ok(i),
        None => Err(MalError::not_a_number()),
    }
}

/// Structural equality of two values, as `values_equal_spec` says.
pub fn values_equal(first: &MalType, second: &MalType) -> (r: bool)
    ensures
        r == values_equal_spec(first.view(), second.view()),
    decreases *first, 1nat,
{
    match first {
        MalType::Nil => second.is_nil(),
        MalType::True => match second {
            MalType::True => true,
            _ => false,
        },
        MalType::False => match second {
            MalType::False => true,
            _ => false,
        },
        MalType::Symbol(a) => match second {
            MalType::Symbol(b) => a.eq(b),
            _ => false,
        },
        MalType::Number(a) => match second {
            MalType::Number(b) => *a == *b,
            _ => false,
        },
        MalType::String(a) => match second {
            MalType::String(b) => a.eq(b),
            _ => false,
        },
        MalType::Keyword(a) => match second {
            MalType::Keyword(b) => a.eq(b),
            _ => false,
        },
        MalType::List(_) | MalType::Vector(_) => match second {
            MalType::List(b) => list_equal(first, b),
            MalType::Vector(b) => list_equal(first, b),
            _ => false,
        },
        MalType::HashMap(_) => match second {
            MalType::HashMap(b) => list_equal(first, b),
            _ => false,
        },
        _ => false,
    }
}

/// Element-by-element equality of the elements of `first` (a list, vector
/// or map) with `second`.
fn list_equal(first: &MalType, second: &Vec<MalType>) -> (r: bool)
    requires
        first is List || first is Vector || first is HashMap,
    ensures
        first is List ==> r == list_equal_spec(view_seq(first->List_0@), view_seq(second@)),
        first is Vector ==> r == list_equal_spec(view_seq(first->Vector_0@), view_seq(second@)),
        first is HashMap ==> r == list_equal_spec(view_seq(first->HashMap_0@), view_seq(second@)),
    decreases *first, 0nat,
{
    let items: &Vec<MalType> = match first {
        MalType::List(l) => l,
        MalType::Vector(l) => l,
        MalType::HashMap(l) => l,
        _ => {
            proof {
                assert(false);
            }
            return false;
        },
    };
    let ghost a = view_seq(items@);
    let ghost b = view_seq(second@);
    proof {
        lemma_view_seq(items@);
        lemma_view_seq(second@);
    }
    if items.len() != second.len() {
        return false;
    }
    let mut result = true;
    let mut i: usize = 0;
    assert(a.subrange(0, 0) =~= Seq::<Val>::empty());
    assert(b.subrange(0, 0) =~= Seq::<Val>::empty());
    while i < items.len()
        invariant
            i <= items.len(),
            items.len() == second.len(),
            first is List ==> *items == first->List_0,
            first is Vector ==> *items == first->Vector_0,
            first is HashMap ==> *items == first->HashMap_0,
            first is List || first is Vector || first is HashMap,
            a == view_seq(items@),
            b == view_seq(second@),
            a.len() == items@.len(),
            b.len() == second@.len(),
            forall|j: int| 0 <= j < items@.len() ==> #[trigger] a[j] == items@[j].view(),
            forall|j: int| 0 <= j < second@.len() ==> #[trigger] b[j] == second@[j].view(),
            result == list_equal_spec(a.subrange(0, i as int), b.subrange(0, i as int)),
        decreases items.len() - i,
    {
        proof {
            if first is List {
                assert(decreases_to!(*first => first->List_0));
                assert(decreases_to!(first->List_0 => first->List_0[i as int]));
            } else if first is Vector {
                assert(decreases_to!(*first => first->Vector_0));
                assert(decreases_to!(first->Vector_0 => first->Vector_0[i as int]));
            } else {
                assert(decreases_to!(*first => first->HashMap_0));
                assert(decreases_to!(first->HashMap_0 => first->HashMap_0[i as int]));
            }
        }
        let e = values_equal(&items[i], &second[i]);
        proof {
            let a2 = a.subrange(0, i + 1);
            let b2 = b.subrange(0, i + 1);
            assert(a2.subrange(0, a2.len() - 1) =~= a.subrange(0, i as int));
            assert(b2.subrange(0, b2.len() - 1) =~= b.subrange(0, i as int));
        }
        if !e {
            result = false;
        }
        i = i + 1;
    }
    assert(a.subrange(0, i as int) =~= a);
    assert(b.subrange(0, i as int) =~= b);
    result
}

/// The elements of a list or vector, or an error naming what was given.
fn vec_value(arg: &MalType) -> (r: Result<Vec<MalType>, MalError>)
    ensures
        match seq_of(arg.view()) {
            Some(s) => r is Ok && view_seq(r->Ok_0@) == s,
            None => r is Err && r->Err_0.reason.kind() == ErrKind::WrongArguments(
                "Expected a list or vector"@,
            ),
        },
{
    match arg.list_value() {
        Some(v) => Ok(v),
        None => Err(MalError::wrong_arguments("Expected a list or vector")),
    }
}

} // verus!
