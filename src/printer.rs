use vstd::prelude::*;

use crate::text::{chars_of, push_chars, push_str, string_from_chars};
use crate::types::{MalType, Val, lemma_view_seq, view_seq};

verus! {

broadcast use vstd::std_specs::vec::group_vec_axioms;

/// The decimal digit for `d`, which is below ten.
pub open spec fn digit_char(d: int) -> char {
    if d == 0 {
        '0'
    } else if d == 1 {
        '1'
    } else if d == 2 {
        '2'
    } else if d == 3 {
        '3'
    } else if d == 4 {
        '4'
    } else if d == 5 {
        '5'
    } else if d == 6 {
        '6'
    } else if d == 7 {
        '7'
    } else if d == 8 {
        '8'
    } else {
        '9'
    }
}

/// The decimal digits of a natural number, most significant first.
pub open spec fn digits(n: nat) -> Seq<char>
    decreases n,
{
    if n < 10 {
        seq![digit_char(n as int)]
    } else {
        digits(n / 10).push(digit_char((n % 10) as int))
    }
}

/// An integer in decimal, with a leading minus when negative.
pub open spec fn decimal(n: int) -> Seq<char> {
    if n < 0 {
        seq!['-'] + digits((-n) as nat)
    } else {
        digits(n as nat)
    }
}

/// How one character of a string is written in readable mode.
pub open spec fn escape_char(c: char) -> Seq<char> {
    if c == '"' {
        seq!['\\', '"']
    } else if c == '\\' {
        seq!['\\', '\\']
    } else if c == '\n' {
        seq!['\\', 'n']
    } else {
        seq![c]
    }
}

/// The characters of `s`, each written as `escape_char` says.
pub open spec fn escape(s: Seq<char>) -> Seq<char>
    decreases s.len(),
{
    if s.len() == 0 {
        Seq::empty()
    } else {
        escape(s.drop_last()) + escape_char(s.last())
    }
}

/// A string literal that reads back as `s`.
pub open spec fn quoted(s: Seq<char>) -> Seq<char> {
    seq!['"'] + escape(s) + seq!['"']
}

/// The text of a value.
pub open spec fn print_spec(v: Val, readable: bool) -> Seq<char>
    decreases v,
{
    match v {
        Val::Nil => seq!['n', 'i', 'l'],
        Val::True => seq!['t', 'r', 'u', 'e'],
        Val::False => seq!['f', 'a', 'l', 's', 'e'],
        Val::Number(n) => decimal(n),
        Val::Symbol(s) => s,
        Val::Str(s) => if readable {
            quoted(s)
        } else {
            s
        },
        Val::Keyword(s) => seq![':'] + s,
        Val::List(s) => seq!['('] + print_seq(s, readable) + seq![')'],
        Val::Vector(s) => seq!['['] + print_seq(s, readable) + seq![']'],
        Val::HashMap(s) => seq!['{'] + print_seq(s, readable) + seq!['}'],
        Val::Function(_, _) => function_text(),
        Val::Lambda(_, _, _) => function_text(),
        Val::Atom(_) => atom_text(),
    }
}

/// The texts of the values, separated by single spaces.
pub open spec fn print_seq(s: Seq<Val>, readable: bool) -> Seq<char>
    decreases s,
{
    if s.len() == 0 {
        Seq::empty()
    } else if s.len() == 1 {
        print_spec(s[0], readable)
    } else {
        print_seq(s.subrange(0, s.len() - 1), readable) + seq![' '] + print_spec(
            s[s.len() - 1],
            readable,
        )
    }
}

/// The texts of the values, separated by `sep`.
pub open spec fn join_spec(s: Seq<Val>, sep: Seq<char>, readable: bool) -> Seq<char>
    decreases s.len(),
{
    if s.len() == 0 {
        Seq::empty()
    } else if s.len() == 1 {
        print_spec(s[0], readable)
    } else {
        join_spec(s.drop_last(), sep, readable) + sep + print_spec(s.last(), readable)
    }
}

pub open spec fn function_text() -> Seq<char> {
    seq!['#', '<', 'f', 'u', 'n', 'c', 't', 'i', 'o', 'n', '>']
}

pub open spec fn atom_text() -> Seq<char> {
    seq!['#', '<', 'a', 't', 'o', 'm', '>']
}

fn digit_of(d: u64) -> (c: char)
    requires
        d < 10,
    ensures
        c == digit_char(d as int),
{
    if d == 0 {
        '0'
    } else if d == 1 {
        '1'
    } else if d == 2 {
        '2'
    } else if d == 3 {
        '3'
    } else if d == 4 {
        '4'
    } else if d == 5 {
        '5'
    } else if d == 6 {
        '6'
    } else if d == 7 {
        '7'
    } else if d == 8 {
        '8'
    } else {
        '9'
    }
}

fn push_digits(out: &mut Vec<char>, n: u64)
    ensures
        final(out)@ == old(out)@ + digits(n as nat),
    decreases n,
{
    if n >= 10 {
        push_digits(out, n / 10);
    }
    out.push(digit_of(n % 10));
    assert(final(out)@ =~= old(out)@ + digits(n as nat));
}

/// Appends `n` in decimal.
pub(crate) fn push_decimal(out: &mut Vec<char>, n: i64)
    ensures
        final(out)@ == old(out)@ + decimal(n as int),
{
    if n < 0 {
        out.push('-');
        let m: u64 = ((-(n + 1)) as u64) + 1;
        push_digits(out, m);
        assert(final(out)@ =~= old(out)@ + decimal(n as int));
    } else {
        push_digits(out, n as u64);
    }
}

/// Appends `s` with quotes, backslashes and newlines escaped.
fn push_escaped(out: &mut Vec<char>, s: &Vec<char>)
    ensures
        final(out)@ == old(out)@ + escape(s@),
{
    let mut i: usize = 0;
    while i < s.len()
        invariant
            i <= s.len(),
            out@ == old(out)@ + escape(s@.subrange(0, i as int)),
        decreases s.len() - i,
    {
        let c = s[i];
        if c == '"' {
            out.push('\\');
            out.push('"');
        } else if c == '\\' {
            out.push('\\');
            out.push('\\');
        } else if c == '\n' {
            out.push('\\');
            out.push('n');
        } else {
            out.push(c);
        }
        let ghost p = s@.subrange(0, i + 1);
        assert(p.drop_last() =~= s@.subrange(0, i as int));
        i = i + 1;
        assert(out@ =~= old(out)@ + escape(s@.subrange(0, i as int)));
    }
    assert(s@.subrange(0, i as int) =~= s@);
}

/// A string written as a literal that reads back as `input`.
pub fn print_string(input: &str) -> (r: String)
    ensures
        r@ == quoted(input@),
{
    let mut out: Vec<char> = Vec::new();
    out.push('"');
    let cs = chars_of(input);
    push_escaped(&mut out, &cs);
    out.push('"');
    assert(out@ =~= quoted(input@));
    string_from_chars(&out)
}

/// Appends the text of `input`.
pub(crate) fn push_value(out: &mut Vec<char>, input: &MalType, print_readably: bool)
    ensures
        final(out)@ == old(out)@ + print_spec(input.view(), print_readably),
    decreases *input, 1nat,
{
    match input {
        MalType::Nil => {
            out.push('n');
            out.push('i');
            out.push('l');
        },
        MalType::False => {
            out.push('f');
            out.push('a');
            out.push('l');
            out.push('s');
            out.push('e');
        },
        MalType::True => {
            out.push('t');
            out.push('r');
            out.push('u');
            out.push('e');
        },
        MalType::Number(num) => push_decimal(out, *num),
        MalType::Symbol(sym) => push_str(out, sym.as_str()),
        MalType::String(s) => {
            if print_readably {
                out.push('"');
                let cs = chars_of(s.as_str());
                push_escaped(out, &cs);
                out.push('"');
            } else {
                push_str(out, s.as_str());
            }
        },
        MalType::Keyword(s) => {
            out.push(':');
            push_str(out, s.as_str());
        },
        MalType::List(_) => {
            out.push('(');
            print_list_like(out, input, print_readably);
            out.push(')');
        },
        MalType::Vector(_) => {
            out.push('[');
            print_list_like(out, input, print_readably);
            out.push(']');
        },
        MalType::HashMap(_) => {
            out.push('{');
            print_list_like(out, input, print_readably);
            out.push('}');
        },
        MalType::Function(_) | MalType::Lambda(_) => {
            out.push('#');
            out.push('<');
            out.push('f');
            out.push('u');
            out.push('n');
            out.push('c');
            out.push('t');
            out.push('i');
            out.push('o');
            out.push('n');
            out.push('>');
        },
        MalType::Atom(_) => {
            out.push('#');
            out.push('<');
            out.push('a');
            out.push('t');
            out.push('o');
            out.push('m');
            out.push('>');
        },
    }
    assert(final(out)@ =~= old(out)@ + print_spec(input.view(), print_readably));
}

/// Appends the texts of the elements of a list, vector or map, separated by
/// single spaces.
fn print_list_like(out: &mut Vec<char>, input: &MalType, print_readably: bool)
    requires
        input is List || input is Vector || input is HashMap,
    ensures
        input is List ==> final(out)@ == old(out)@ + print_seq(view_seq(input->List_0@), print_readably),
        input is Vector ==> final(out)@ == old(out)@ + print_seq(view_seq(input->Vector_0@), print_readably),
        input is HashMap ==> final(out)@ == old(out)@ + print_seq(view_seq(input->HashMap_0@), print_readably),
    decreases *input, 0nat,
{
    let list: &Vec<MalType> = match input {
        MalType::List(l) => l,
        MalType::Vector(l) => l,
        MalType::HashMap(l) => l,
        _ => {
            proof {
                assert(false);
            }
            return;
        },
    };
    let ghost s = view_seq(list@);
    proof {
        lemma_view_seq(list@);
    }
    let mut i: usize = 0;
    while i < list.len()
        invariant
            i <= list.len(),
            input is List ==> *list == input->List_0,
            input is Vector ==> *list == input->Vector_0,
            input is HashMap ==> *list == input->HashMap_0,
            input is List || input is Vector || input is HashMap,
            s == view_seq(list@),
            s.len() == list@.len(),
            forall|j: int| 0 <= j < list@.len() ==> #[trigger] s[j] == list@[j].view(),
            out@ == old(out)@ + print_seq(s.subrange(0, i as int), print_readably),
        decreases list.len() - i,
    {
        proof {
            if input is List {
                assert(decreases_to!(*input => input->List_0));
                assert(decreases_to!(input->List_0 => input->List_0[i as int]));
            } else if input is Vector {
                assert(decreases_to!(*input => input->Vector_0));
                assert(decreases_to!(input->Vector_0 => input->Vector_0[i as int]));
            } else {
                assert(decreases_to!(*input => input->HashMap_0));
                assert(decreases_to!(input->HashMap_0 => input->HashMap_0[i as int]));
            }
        }
        if i > 0 {
            out.push(' ');
        }
        push_value(out, &list[i], print_readably);
        let ghost p = s.subrange(0, i + 1);
        assert(p.subrange(0, i as int) =~= s.subrange(0, i as int));
        i = i + 1;
        assert(out@ =~= old(out)@ + print_seq(s.subrange(0, i as int), print_readably));
    }
    assert(s.subrange(0, i as int) =~= s);
}

/// The text of a value; in readable mode strings are written so that they
/// read back as themselves.
pub fn print_str(input: &MalType, print_readably: bool) -> (r: String)
    ensures
        r@ == print_spec(input.view(), print_readably),
{
    let mut out: Vec<char> = Vec::new();
    push_value(&mut out, input, print_readably);
    assert(out@ =~= print_spec(input.view(), print_readably));
    string_from_chars(&out)
}

/// The texts of the values, separated by `separator`.
pub fn join(args: &Vec<MalType>, separator: &str, readable: bool) -> (r: String)
    ensures
        r@ == join_spec(view_seq(args@), separator@, readable),
{
    let ghost s = view_seq(args@);
    proof {
        lemma_view_seq(args@);
    }
    let sep = chars_of(separator);
    let mut out: Vec<char> = Vec::new();
    let mut i: usize = 0;
    while i < args.len()
        invariant
            i <= args.len(),
            s == view_seq(args@),
            s.len() == args@.len(),
            sep@ == separator@,
            forall|j: int| 0 <= j < args@.len() ==> #[trigger] s[j] == args@[j].view(),
            out@ == join_spec(s.subrange(0, i as int), separator@, readable),
        decreases args.len() - i,
    {
        if i > 0 {
            push_chars(&mut out, &sep);
        }
        push_value(&mut out, &args[i], readable);
        let ghost p = s.subrange(0, i + 1);
        assert(p.drop_last() =~= s.subrange(0, i as int));
        i = i + 1;
        assert(out@ =~= join_spec(s.subrange(0, i as int), separator@, readable));
    }
    assert(s.subrange(0, i as int) =~= s);
    string_from_chars(&out)
}

} // verus!
