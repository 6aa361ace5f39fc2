use vstd::prelude::*;

use crate::env::{Env, Heap};
use crate::text::{push_str, string_from_chars};

verus! {

broadcast use vstd::std_specs::vec::group_vec_axioms;

/// The native operations that the root environment offers.
#[derive(Clone, Copy, Debug, PartialEq, Eq, Structural)]
pub enum Builtin {
    Plus,
    Minus,
    Multiply,
    Divide,
    List,
    IsList,
    IsEmpty,
    Count,
    Equal,
    LessThan,
    LessThanOrEq,
    GreaterThan,
    GreaterThanOrEq,
    Prn,
    Println,
    PrStr,
    Str,
    ReadString,
    Slurp,
    Atom,
    IsAtom,
    Deref,
    Reset,
    Swap,
    Cons,
    Concat,
    Eval,
}

/// A runtime value.  Environments and reference cells are handles into a
/// `Heap`; everything else is plain data.
#[derive(Debug)]
pub enum MalType {
    Nil,
    True,
    False,
    Symbol(String),
    Number(i64),
    String(String),
    Keyword(String),
    List(Vec<MalType>),
    Vector(Vec<MalType>),
    HashMap(Vec<MalType>),
    Function(MalFunc),
    Lambda(MalLambda),
    Atom(usize),
}

/// A native procedure together with the environment it was installed with.
#[derive(Clone, Debug)]
pub struct MalFunc {
    pub func: Builtin,
    pub env: Option<Env>,
}

/// A user closure: its defining environment, its parameter list and its body.
#[derive(Debug)]
pub struct MalLambda {
    pub env: Env,
    pub args: Vec<MalType>,
    pub body: Box<MalType>,
}

impl Clone for MalType {
    /// A copy with the same model.
    fn clone(&self) -> (r: Self)
        ensures
            r.view() == self.view(),
    {
        self.deep_copy()
    }
}

impl Clone for MalLambda {
    /// A copy with the same model.
    fn clone(&self) -> (r: Self)
        ensures
            r.env == self.env,
            view_seq(r.args@) == view_seq(self.args@),
            (*r.body).view() == (*self.body).view(),
    {
        MalLambda {
            env: self.env,
            args: copy_values(&self.args),
            body: Box::new((*self.body).deep_copy()),
        }
    }
}

pub type MalResult = Result<MalType, MalError>;

/// The mathematical model of a value.
pub enum Val {
    Nil,
    True,
    False,
    Symbol(Seq<char>),
    Number(int),
    Str(Seq<char>),
    Keyword(Seq<char>),
    List(Seq<Val>),
    Vector(Seq<Val>),
    HashMap(Seq<Val>),
    Function(Builtin, Option<nat>),
    Lambda(nat, Seq<Val>, Box<Val>),
    Atom(nat),
}

impl MalType {
    pub open spec fn view(self) -> Val
        decreases self,
    {
        match self {
            MalType::Nil => Val::Nil,
            MalType::True => Val::True,
            MalType::False => Val::False,
            MalType::Symbol(s) => Val::Symbol(s@),
            MalType::Number(n) => Val::Number(n as int),
            MalType::String(s) => Val::Str(s@),
            MalType::Keyword(s) => Val::Keyword(s@),
            MalType::List(v) => Val::List(view_seq(v@)),
            MalType::Vector(v) => Val::Vector(view_seq(v@)),
            MalType::HashMap(v) => Val::HashMap(view_seq(v@)),
            MalType::Function(f) => Val::Function(
                f.func,
                match f.env {
                    Some(e) => Some(e.id as nat),
                    None => None,
                },
            ),
            MalType::Lambda(l) => Val::Lambda(
                l.env.id as nat,
                view_seq(l.args@),
                Box::new((*l.body).view()),
            ),
            MalType::Atom(a) => Val::Atom(a as nat),
        }
    }
}

/// The models of a sequence of values, element by element.
pub open spec fn view_seq(s: Seq<MalType>) -> Seq<Val>
    decreases s,
{
    if s.len() == 0 {
        Seq::empty()
    } else {
        view_seq(s.drop_last()).push(s.last().view())
    }
}

pub broadcast proof fn lemma_view_seq(s: Seq<MalType>)
    ensures
        #[trigger] view_seq(s).len() == s.len(),
        forall|i: int| 0 <= i < s.len() ==> #[trigger] view_seq(s)[i] == s[i].view(),
    decreases s.len(),
{
    if s.len() > 0 {
        lemma_view_seq(s.drop_last());
    }
}

/// Two sequences of values have the same models exactly when they agree
/// element by element.
pub proof fn lemma_view_seq_ext(a: Seq<MalType>, b: Seq<Val>)
    requires
        a.len() == b.len(),
        forall|i: int| 0 <= i < a.len() ==> #[trigger] a[i].view() == b[i],
    ensures
        view_seq(a) == b,
{
    lemma_view_seq(a);
    assert(view_seq(a) =~= b);
}

/// Falsy values are exactly `nil` and `false`.
pub open spec fn truthy(v: Val) -> bool {
    !(v is Nil || v is False)
}

pub open spec fn bool_val(b: bool) -> Val {
    if b {
        Val::True
    } else {
        Val::False
    }
}

/// The elements of a list or a vector.
pub open spec fn seq_of(v: Val) -> Option<Seq<Val>> {
    match v {
        Val::List(s) => Some(s),
        Val::Vector(s) => Some(s),
        _ => None,
    }
}

/// A list or vector with at least one element.
pub open spec fn is_pair(v: Val) -> bool {
    match seq_of(v) {
        Some(s) => s.len() > 0,
        None => false,
    }
}

/// Copies the values of a vector one by one.
pub fn copy_values(items: &Vec<MalType>) -> (r: Vec<MalType>)
    ensures
        view_seq(r@) == view_seq(items@),
{
    assert(items@.subrange(0, items@.len() as int) =~= items@);
    copy_range(items, 0, items.len())
}

/// Copies the values of `items[lo..hi]`.
pub fn copy_range(items: &Vec<MalType>, lo: usize, hi: usize) -> (r: Vec<MalType>)
    requires
        lo <= hi <= items.len(),
    ensures
        view_seq(r@) == view_seq(items@.subrange(lo as int, hi as int)),
{
    let mut out: Vec<MalType> = Vec::new();
    let mut i: usize = lo;
    while i < hi
        invariant
            lo <= i <= hi <= items.len(),
            out@.len() == i - lo,
            forall|j: int| 0 <= j < i - lo ==> (#[trigger] out@[j]).view() == items@[lo + j].view(),
        decreases hi - i,
    {
        let c = items[i].deep_copy();
        out.push(c);
        i = i + 1;
    }
    proof {
        lemma_view_seq(items@.subrange(lo as int, hi as int));
        lemma_view_seq_ext(out@, view_seq(items@.subrange(lo as int, hi as int)));
    }
    out
}

impl MalType {
    /// A copy of the value that has the same model.
    pub fn deep_copy(&self) -> (r: MalType)
        ensures
            r.view() == self.view(),
        decreases *self,
    {
        match self {
            MalType::Nil => MalType::Nil,
            MalType::True => MalType::True,
            MalType::False => MalType::False,
            MalType::Symbol(s) => MalType::Symbol(s.clone()),
            MalType::Number(n) => MalType::Number(*n),
            MalType::String(s) => MalType::String(s.clone()),
            MalType::Keyword(s) => MalType::Keyword(s.clone()),
            MalType::List(items) => MalType::List(copy_seq_of(self)),
            MalType::Vector(items) => MalType::Vector(copy_seq_of(self)),
            MalType::HashMap(items) => MalType::HashMap(copy_seq_of(self)),
            MalType::Function(f) => MalType::Function(MalFunc { func: f.func, env: f.env }),
            MalType::Lambda(l) => {
                proof {
                    assert(decreases_to!(*self => self->Lambda_0));
                }
                let args = copy_lambda_args(self);
                let body = (*l.body).deep_copy();
                MalType::Lambda(MalLambda { env: l.env, args, body: Box::new(body) })
            },
            MalType::Atom(a) => MalType::Atom(*a),
        }
    }

    /// A fresh reference cell holding `value`.
    pub fn atom(heap: &mut Heap, value: MalType) -> (r: MalType)
        requires
            old(heap).wf(),
        ensures
            final(heap).wf(),
            r.view() == Val::Atom(old(heap).view().atoms.len()),
            final(heap).view() == old(heap).view().push_atom(value.view()),
    {
        let ghost old_view = heap.view();
        let ghost v = value.view();
        let id = heap.atoms.len();
        heap.atoms.push(value);
        proof {
            lemma_view_seq(heap.atoms@);
            lemma_view_seq(old(heap).atoms@);
            assert(heap.view().atoms =~= old_view.atoms.push(v));
            assert(heap.view().envs =~= old_view.envs);
            assert(heap.view() == old_view.push_atom(v));
        }
        MalType::Atom(id)
    }

    pub fn is_list(&self) -> (r: bool)
        ensures
            r == (self.view() is List),
    {
        match self {
            MalType::List(_) => true,
            _ => false,
        }
    }

    pub fn is_list_or_vector(&self) -> (r: bool)
        ensures
            r == (seq_of(self.view()) is Some),
    {
        match self {
            MalType::List(_) => true,
            MalType::Vector(_) => true,
            _ => false,
        }
    }

    pub fn is_map(&self) -> (r: bool)
        ensures
            r == (self.view() is HashMap),
    {
        match self {
            MalType::HashMap(_) => true,
            _ => false,
        }
    }

    pub fn is_truthy(&self) -> (r: bool)
        ensures
            r == truthy(self.view()),
    {
        match self {
            MalType::False => false,
            MalType::Nil => false,
            _ => true,
        }
    }

    pub fn is_nil(&self) -> (r: bool)
        ensures
            r == (self.view() is Nil),
    {
        match self {
            MalType::Nil => true,
            _ => false,
        }
    }

    pub fn is_atom(&self) -> (r: bool)
        ensures
            r == (self.view() is Atom),
    {
        match self {
            MalType::Atom(_) => true,
            _ => false,
        }
    }

    /// The elements of a list or vector, copied.
    pub fn list_value(&self) -> (r: Option<Vec<MalType>>)
        ensures
            r is Some <==> seq_of(self.view()) is Some,
            r is Some ==> view_seq(r->Some_0@) == seq_of(self.view())->Some_0,
    {
        match self {
            MalType::List(list) => Some(copy_values(list)),
            MalType::Vector(list) => Some(copy_values(list)),
            _ => None,
        }
    }

    pub fn number_value(&self) -> (r: Option<i64>)
        ensures
            r is Some <==> self.view() is Number,
            r is Some ==> self.view() == Val::Number(r->Some_0 as int),
    {
        match self {
            MalType::Number(n) => Some(*n),
            _ => None,
        }
    }

    pub fn symbol_value(&self) -> (r: Option<String>)
        ensures
            r is Some <==> self.view() is Symbol,
            r is Some ==> self.view() == Val::Symbol(r->Some_0@),
    {
        match self {
            MalType::Symbol(s) => Some(s.clone()),
            _ => None,
        }
    }

    pub fn string_value(&self) -> (r: Option<String>)
        ensures
            r is Some <==> self.view() is Str,
            r is Some ==> self.view() == Val::Str(r->Some_0@),
    {
        match self {
            MalType::String(s) => Some(s.clone()),
            _ => None,
        }
    }

    pub fn function_value(&self) -> (r: Option<MalFunc>)
        ensures
            r is Some <==> self.view() is Function,
            r is Some ==> self.view() == MalType::Function(r->Some_0).view(),
    {
        match self {
            MalType::Function(func) => Some(MalFunc { func: func.func, env: func.env }),
            _ => None,
        }
    }

    pub fn to_bool(val: bool) -> (r: MalType)
        ensures
            r.view() == bool_val(val),
    {
        if val {
            MalType::True
        } else {
            MalType::False
        }
    }
}

/// Copies the elements of a list, vector or map value.
fn copy_seq_of(v: &MalType) -> (r: Vec<MalType>)
    requires
        v is List || v is Vector || v is HashMap,
    ensures
        v is List ==> view_seq(r@) == view_seq(v->List_0@),
        v is Vector ==> view_seq(r@) == view_seq(v->Vector_0@),
        v is HashMap ==> view_seq(r@) == view_seq(v->HashMap_0@),
    decreases *v, 0nat,
{
    let items: &Vec<MalType> = match v {
        MalType::List(items) => items,
        MalType::Vector(items) => items,
        MalType::HashMap(items) => items,
        _ => {
            proof {
                assert(false);
            }
            return Vec::new();
        },
    };
    let mut out: Vec<MalType> = Vec::new();
    let mut i: usize = 0;
    while i < items.len()
        invariant
            i <= items.len(),
            v is List ==> *items == v->List_0,
            v is Vector ==> *items == v->Vector_0,
            v is HashMap ==> *items == v->HashMap_0,
            v is List || v is Vector || v is HashMap,
            out@.len() == i,
            forall|j: int| 0 <= j < i ==> (#[trigger] out@[j]).view() == items@[j].view(),
        decreases items.len() - i,
    {
        proof {
            if v is List {
                assert(decreases_to!(*v => v->List_0));
                assert(decreases_to!(v->List_0 => v->List_0[i as int]));
            } else if v is Vector {
                assert(decreases_to!(*v => v->Vector_0));
                assert(decreases_to!(v->Vector_0 => v->Vector_0[i as int]));
            } else {
                assert(decreases_to!(*v => v->HashMap_0));
                assert(decreases_to!(v->HashMap_0 => v->HashMap_0[i as int]));
            }
        }
        let c = items[i].deep_copy();
        out.push(c);
        i = i + 1;
    }
    proof {
        lemma_view_seq(items@);
        lemma_view_seq_ext(out@, view_seq(items@));
    }
    out
}

/// Copies the parameter list of a closure value.
fn copy_lambda_args(v: &MalType) -> (r: Vec<MalType>)
    requires
        v is Lambda,
    ensures
        view_seq(r@) == view_seq(v->Lambda_0.args@),
    decreases *v, 0nat,
{
    let l: &MalLambda = match v {
        MalType::Lambda(l) => l,
        _ => {
            proof {
                assert(false);
            }
            return Vec::new();
        },
    };
    let mut out: Vec<MalType> = Vec::new();
    let mut i: usize = 0;
    while i < l.args.len()
        invariant
            i <= l.args.len(),
            v is Lambda,
            *l == v->Lambda_0,
            out@.len() == i,
            forall|j: int| 0 <= j < i ==> (#[trigger] out@[j]).view() == l.args@[j].view(),
        decreases l.args.len() - i,
    {
        proof {
            assert(decreases_to!(*v => v->Lambda_0));
            assert(decreases_to!(v->Lambda_0 => v->Lambda_0.args));
            assert(decreases_to!(v->Lambda_0.args => v->Lambda_0.args[i as int]));
        }
        let c = l.args[i].deep_copy();
        out.push(c);
        i = i + 1;
    }
    proof {
        lemma_view_seq(l.args@);
        lemma_view_seq_ext(out@, view_seq(l.args@));
    }
    out
}

/// Why an operation failed.
#[derive(Clone, Debug)]
pub enum MalErrorReason {
    Unknown,
    UnexpectedEOF,
    UnexpectedEndOfString,
    SymbolNotFound(String),
    NotAFunction,
    NotANumber,
    WrongArguments(String),
    BlankLine,
    Generic(String),
}

/// The model of an error: its kind, with the name of a missing symbol or
/// the detail text.
pub enum ErrKind {
    Unknown,
    Eof,
    EndOfString,
    SymbolNotFound(Seq<char>),
    NotAFunction,
    NotANumber,
    WrongArguments(Seq<char>),
    BlankLine,
    Generic(Seq<char>),
}

impl MalErrorReason {
    pub open spec fn kind(self) -> ErrKind {
        match self {
            MalErrorReason::Unknown => ErrKind::Unknown,
            MalErrorReason::UnexpectedEOF => ErrKind::Eof,
            MalErrorReason::UnexpectedEndOfString => ErrKind::EndOfString,
            MalErrorReason::SymbolNotFound(s) => ErrKind::SymbolNotFound(s@),
            MalErrorReason::NotAFunction => ErrKind::NotAFunction,
            MalErrorReason::NotANumber => ErrKind::NotANumber,
            MalErrorReason::WrongArguments(r) => ErrKind::WrongArguments(r@),
            MalErrorReason::BlankLine => ErrKind::BlankLine,
            MalErrorReason::Generic(r) => ErrKind::Generic(r@),
        }
    }
}

impl MalErrorReason {
    /// The sentence that describes the reason.
    pub open spec fn describe_spec(self) -> Seq<char> {
        match self {
            MalErrorReason::Unknown => "Unknown"@,
            MalErrorReason::UnexpectedEOF => "Unexpected EOF"@,
            MalErrorReason::UnexpectedEndOfString => "Unexpected end of string. Possibly unbalanced quotes"@,
            MalErrorReason::SymbolNotFound(s) => "Symbol '"@ + s@ + "' not found"@,
            MalErrorReason::NotAFunction => "Expected function"@,
            MalErrorReason::NotANumber => "Expected number"@,
            MalErrorReason::WrongArguments(r) => "Wrong arguments - "@ + r@,
            MalErrorReason::BlankLine => Seq::empty(),
            MalErrorReason::Generic(r) => r@,
        }
    }

    /// The sentence that describes the reason.
    pub fn describe(&self) -> (r: String)
        ensures
            r@ == self.describe_spec(),
    {
        let mut out: Vec<char> = Vec::new();
        match self {
            MalErrorReason::Unknown => push_str(&mut out, "Unknown"),
            MalErrorReason::UnexpectedEOF => push_str(&mut out, "Unexpected EOF"),
            MalErrorReason::UnexpectedEndOfString => push_str(
                &mut out,
                "Unexpected end of string. Possibly unbalanced quotes",
            ),
            MalErrorReason::SymbolNotFound(sym) => {
                push_str(&mut out, "Symbol '");
                push_str(&mut out, sym.as_str());
                push_str(&mut out, "' not found");
            },
            MalErrorReason::NotAFunction => push_str(&mut out, "Expected function"),
            MalErrorReason::NotANumber => push_str(&mut out, "Expected number"),
            MalErrorReason::WrongArguments(reason) => {
                push_str(&mut out, "Wrong arguments - ");
                push_str(&mut out, reason.as_str());
            },
            MalErrorReason::BlankLine => {},
            MalErrorReason::Generic(reason) => push_str(&mut out, reason.as_str()),
        }
        assert(out@ =~= self.describe_spec());
        string_from_chars(&out)
    }
}

/// The model of an evaluation result.
pub open spec fn res_view(r: MalResult) -> Result<Val, ErrKind> {
    match r {
        Ok(v) => Ok(v.view()),
        Err(e) => Err(e.reason.kind()),
    }
}

#[derive(Clone, Debug)]
pub struct MalError {
    pub reason: MalErrorReason,
}

impl MalError {
    pub fn unexpected_eof() -> (r: MalError)
        ensures
            r.reason is UnexpectedEOF,
    {
        MalError { reason: MalErrorReason::UnexpectedEOF }
    }

    pub fn unknown() -> (r: MalError)
        ensures
            r.reason is Unknown,
    {
        MalError { reason: MalErrorReason::Unknown }
    }

    pub fn unexpected_end_of_string() -> (r: MalError)
        ensures
            r.reason is UnexpectedEndOfString,
    {
        MalError { reason: MalErrorReason::UnexpectedEndOfString }
    }

    pub fn symbol_not_found(sym: &str) -> (r: MalError)
        ensures
            r.reason is SymbolNotFound,
            r.reason->SymbolNotFound_0@ == sym@,
    {
        MalError { reason: MalErrorReason::SymbolNotFound(sym.to_owned()) }
    }

    pub fn not_a_function() -> (r: MalError)
        ensures
            r.reason is NotAFunction,
    {
        MalError { reason: MalErrorReason::NotAFunction }
    }

    pub fn not_a_number() -> (r: MalError)
        ensures
            r.reason is NotANumber,
    {
        MalError { reason: MalErrorReason::NotANumber }
    }

    pub fn wrong_arguments(reason: &str) -> (r: MalError)
        ensures
            r.reason is WrongArguments,
            r.reason->WrongArguments_0@ == reason@,
    {
        MalError { reason: MalErrorReason::WrongArguments(reason.to_owned()) }
    }

    pub fn blank_line() -> (r: MalError)
        ensures
            r.reason is BlankLine,
    {
        MalError { reason: MalErrorReason::BlankLine }
    }

    pub fn generic(reason: &str) -> (r: MalError)
        ensures
            r.reason is Generic,
            r.reason->Generic_0@ == reason@,
    {
        MalError { reason: MalErrorReason::Generic(reason.to_owned()) }
    }

    /// The error as one line of text.
    pub fn to_text(&self) -> (r: String)
        ensures
            r@ == "Error: "@ + self.reason.describe_spec(),
    {
        let mut out: Vec<char> = Vec::new();
        push_str(&mut out, "Error: ");
        let d = self.reason.describe();
        push_str(&mut out, d.as_str());
        string_from_chars(&out)
    }

    pub fn reason(&self) -> (r: &MalErrorReason)
        ensures
            *r == self.reason,
    {
        &self.reason
    }
}

} // verus!
