use vstd::prelude::*;

use crate::printer::{
    decimal, digit_char, digits, escape, escape_char, print_seq, print_spec, quoted,
};
use crate::reader::{
    lex, atom_end, string_end, read_spec, all_digits, all_digits_or_dots, atom_value, digits_value, is_atom_char, is_digit,
    is_special, looks_numeric, number_of, parse_form, parse_seq, unescape, unsigned_part,
};
use crate::builtins::{deref_spec, reset_spec};
use crate::env::{frame_get, HeapView};
use crate::evaluator::apply_builtin;
use crate::types::{Builtin, MalType, Val};

verus! {

// ---------------------------------------------------------------------------
// Values that print to text that reads back as themselves
// ---------------------------------------------------------------------------

/// A symbol name that reads back as that symbol: one plain token that no
/// reader rule claims for another kind of value.
pub open spec fn readable_symbol(s: Seq<char>) -> bool {
    &&& s.len() > 0
    &&& forall|i: int| 0 <= i < s.len() ==> is_atom_char(#[trigger] s[i])
    &&& !is_special(s[0])
    &&& s[0] != ':'
    &&& !looks_numeric(s)
    &&& s != seq!['n', 'i', 'l']
    &&& s != seq!['t', 'r', 'u', 'e']
    &&& s != seq!['f', 'a', 'l', 's', 'e']
}

/// A keyword name that reads back as that keyword.
pub open spec fn readable_keyword(s: Seq<char>) -> bool {
    forall|i: int| 0 <= i < s.len() ==> is_atom_char(#[trigger] s[i])
}

/// A value with no procedure, closure or reference cell inside it, whose
/// numbers fit in 64 bits and whose symbols and keywords have readable
/// names.
pub open spec fn literal(v: Val) -> bool
    decreases v, 1int,
{
    match v {
        Val::Nil => true,
        Val::True => true,
        Val::False => true,
        Val::Number(n) => i64::MIN <= n <= i64::MAX,
        Val::Str(_) => true,
        Val::Symbol(s) => readable_symbol(s),
        Val::Keyword(s) => readable_keyword(s),
        Val::List(es) => all_literal(es),
        Val::Vector(es) => all_literal(es),
        Val::HashMap(es) => all_literal(es),
        _ => false,
    }
}

pub open spec fn all_literal(es: Seq<Val>) -> bool
    decreases es, 0int,
{
    if es.len() == 0 {
        true
    } else {
        literal(es[0]) && all_literal(es.subrange(1, es.len() as int))
    }
}

/// The tokens of a literal's printed text.
pub open spec fn print_tokens(v: Val) -> Seq<Seq<char>>
    decreases v, 1int,
{
    match v {
        Val::List(es) => seq![seq!['(']] + tokens_seq(es) + seq![seq![')']],
        Val::Vector(es) => seq![seq!['[']] + tokens_seq(es) + seq![seq![']']],
        Val::HashMap(es) => seq![seq!['{']] + tokens_seq(es) + seq![seq!['}']],
        _ => seq![print_spec(v, true)],
    }
}

pub open spec fn tokens_seq(es: Seq<Val>) -> Seq<Seq<char>>
    decreases es, 0int,
{
    if es.len() == 0 {
        Seq::empty()
    } else {
        print_tokens(es[0]) + tokens_seq(es.subrange(1, es.len() as int))
    }
}

// ---------------------------------------------------------------------------
// Tokens to values
// ---------------------------------------------------------------------------

/// Where `a` stands in `t` at `p`, its pieces stand at the matching places.
proof fn lemma_piece<A>(t: Seq<A>, p: int, a: Seq<A>, i: int, j: int)
    requires
        0 <= p,
        p + a.len() <= t.len(),
        t.subrange(p, p + a.len()) == a,
        0 <= i <= j <= a.len(),
    ensures
        t.subrange(p + i, p + j) == a.subrange(i, j),
        i < a.len() ==> t[p + i] == a[i],
{
    assert(t.subrange(p + i, p + j) =~= a.subrange(i, j));
    if i < a.len() {
        assert(t[p + i] == t.subrange(p, p + a.len())[i]);
    }
}

proof fn lemma_digits_facts(m: nat)
    ensures
        digits(m).len() > 0,
        all_digits(digits(m)),
        digits_value(digits(m)) == m,
    decreases m,
{
    if m >= 10 {
        lemma_digits_facts(m / 10);
        let d = digits(m / 10);
        let c = digit_char((m % 10) as int);
        assert(digits(m) == d.push(c));
        assert(d.push(c).drop_last() =~= d);
        assert(c as int - '0' as int == m % 10);
        assert(digits_value(d.push(c)) == digits_value(d) * 10 + (c as int - '0' as int));
        let q = m / 10;
        let r = m % 10;
        assert(q * 10 + r == m) by (nonlinear_arith)
            requires
                q == m / 10,
                r == m % 10,
        ;
        assert(digits_value(d) == q);
        assert(digits_value(digits(m)) == q * 10 + r);
        assert forall|i: int| 0 <= i < digits(m).len() implies is_digit(#[trigger] digits(m)[i]) by {
            if i < d.len() {
                assert(digits(m)[i] == d[i]);
            }
        }
    } else {
        assert(digits(m) =~= seq![digit_char(m as int)]);
        assert(digits(m).drop_last() =~= Seq::<char>::empty());
        assert(digit_char(m as int) as int - '0' as int == m);
        assert(digits_value(Seq::<char>::empty()) == 0);
        assert(digits_value(digits(m)) == digits_value(digits(m).drop_last()) * 10 + (digits(m).last() as int - '0' as int));
    }
}

/// A number's decimal text reads back as that number.
proof fn lemma_decimal_reads_back(n: int)
    requires
        i64::MIN <= n <= i64::MAX,
    ensures
        atom_value(decimal(n)) == Val::Number(n),
        decimal(n).len() > 0,
        forall|i: int| 0 <= i < decimal(n).len() ==> is_atom_char(#[trigger] decimal(n)[i]),
        decimal(n)[0] == '-' || is_digit(decimal(n)[0]),
{
    let t = decimal(n);
    if n < 0 {
        let m = (-n) as nat;
        lemma_digits_facts(m);
        assert(unsigned_part(t) =~= digits(m));
    } else {
        let m = n as nat;
        lemma_digits_facts(m);
        assert(unsigned_part(t) =~= digits(m));
    }
    let b = unsigned_part(t);
    assert(all_digits_or_dots(b));
    assert(looks_numeric(t));
    assert(number_of(t) == n);
    assert forall|i: int| 0 <= i < t.len() implies is_atom_char(#[trigger] t[i]) by {
        if n < 0 && i > 0 {
            assert(t[i] == b[i - 1]);
        } else if n >= 0 {
            assert(t[i] == b[i]);
        }
    }
    if n >= 0 {
        assert(t[0] == b[0]);
    }
}

/// The escaped text of `s`, written from the front.
proof fn lemma_escape_front(s: Seq<char>)
    requires
        s.len() > 0,
    ensures
        escape(s) == escape_char(s[0]) + escape(s.drop_first()),
    decreases s.len(),
{
    if s.len() == 1 {
        assert(s.drop_last() =~= Seq::<char>::empty());
        assert(s.drop_first() =~= Seq::<char>::empty());
        assert(escape(s) =~= escape_char(s[0]) + escape(s.drop_first()));
    } else {
        lemma_escape_front(s.drop_last());
        assert(s.drop_last().drop_first() =~= s.drop_first().drop_last());
        assert(s.drop_last()[0] == s[0]);
        assert(s.drop_first().last() == s.last());
        assert(escape(s) =~= escape_char(s[0]) + escape(s.drop_first()));
    }
}

/// Unescaping an escaped text that ends with a quote gives the text back.
proof fn lemma_unescape_escape(t: Seq<char>, k: int, s: Seq<char>)
    requires
        0 <= k,
        k + escape(s).len() + 1 <= t.len(),
        t.subrange(k, k + escape(s).len() + 1) == escape(s).push('"'),
    ensures
        unescape(t, k) == Ok::<Seq<char>, crate::reader::ReadErr>(s),
    decreases s.len(),
{
    if s.len() == 0 {
        assert(escape(s) =~= Seq::<char>::empty());
        assert(t[k] == t.subrange(k, k + 1)[0]);
        assert(s =~= Seq::<char>::empty());
    } else {
        lemma_escape_front(s);
        let c = s[0];
        let ec = escape_char(c);
        let rest = s.drop_first();
        let er = escape(rest);
        assert(escape(s) == ec + er);
        let w = t.subrange(k, k + escape(s).len() + 1);
        assert(t[k] == w[0]);
        assert(w[0] == ec[0]);
        if c == '"' || c == '\\' || c == '\n' {
            assert(ec.len() == 2);
            assert(t[k + 1] == w[1]);
            assert(w[1] == ec[1]);
            assert(t.subrange(k + 2, k + 2 + er.len() + 1) =~= w.subrange(2, w.len() as int));
            assert(w.subrange(2, w.len() as int) =~= er.push('"'));
            lemma_unescape_escape(t, k + 2, rest);
            assert(seq![c] + rest =~= s);
        } else {
            assert(ec.len() == 1);
            assert(t.subrange(k + 1, k + 1 + er.len() + 1) =~= w.subrange(1, w.len() as int));
            assert(w.subrange(1, w.len() as int) =~= er.push('"'));
            lemma_unescape_escape(t, k + 1, rest);
            assert(seq![c] + rest =~= s);
        }
    }
}

/// The token of a literal that is not a collection opens no collection and
/// is not empty.
proof fn lemma_leaf_token(v: Val)
    requires
        literal(v),
        !(v is List || v is Vector || v is HashMap),
    ensures
        print_spec(v, true).len() > 0,
        print_spec(v, true)[0] != '(' && print_spec(v, true)[0] != '[' && print_spec(v, true)[0]
            != '{',
        print_spec(v, true)[0] != ')' && print_spec(v, true)[0] != ']' && print_spec(v, true)[0]
            != '}',
        parse_form(seq![print_spec(v, true)], 0) == Ok::<(Val, int), crate::reader::ReadErr>(
            (v, 1),
        ),
{
    let t = print_spec(v, true);
    match v {
        Val::Number(n) => {
            lemma_decimal_reads_back(n);
        },
        Val::Str(s) => {
            let q = quoted(s);
            assert(q == seq!['"'] + escape(s) + seq!['"']);
            assert(q.subrange(1, 1 + escape(s).len() as int + 1) =~= escape(s).push('"'));
            lemma_unescape_escape(q, 1, s);
        },
        Val::Symbol(s) => {},
        Val::Keyword(s) => {
            assert((seq![':'] + s).drop_first() =~= s);
        },
        _ => {},
    }
}

/// A literal's tokens, found at position `p`, parse back to it.
proof fn lemma_parse_literal(v: Val, t: Seq<Seq<char>>, p: int)
    requires
        literal(v),
        0 <= p,
        p + print_tokens(v).len() <= t.len(),
        t.subrange(p, p + print_tokens(v).len()) == print_tokens(v),
    ensures
        parse_form(t, p) == Ok::<(Val, int), crate::reader::ReadErr>(
            (v, p + print_tokens(v).len()),
        ),
        print_tokens(v).len() > 0,
        print_tokens(v)[0].len() > 0,
        print_tokens(v)[0][0] != ')' && print_tokens(v)[0][0] != ']' && print_tokens(v)[0][0]
            != '}',
    decreases v, 1int,
{
    let pt = print_tokens(v);
    lemma_piece(t, p, pt, 0, 0);
    match v {
        Val::List(es) => {
            lemma_collection(es, t, p, '(', ')');
        },
        Val::Vector(es) => {
            lemma_collection(es, t, p, '[', ']');
        },
        Val::HashMap(es) => {
            lemma_collection(es, t, p, '{', '}');
        },
        _ => {
            lemma_leaf_token(v);
            let one = seq![print_spec(v, true)];
            assert(pt == one);
            assert(t[p] == one[0]);
        },
    }
}

proof fn lemma_collection(es: Seq<Val>, t: Seq<Seq<char>>, p: int, open: char, end: char)
    requires
        all_literal(es),
        0 <= p,
        (open == '(' && end == ')') || (open == '[' && end == ']') || (open == '{' && end == '}'),
        p + tokens_seq(es).len() + 2 <= t.len(),
        t.subrange(p, p + tokens_seq(es).len() + 2) == seq![seq![open]] + tokens_seq(es) + seq![
            seq![end],
        ],
    ensures
        parse_form(t, p) == Ok::<(Val, int), crate::reader::ReadErr>(
            (
                if open == '(' {
                    Val::List(es)
                } else if open == '[' {
                    Val::Vector(es)
                } else {
                    Val::HashMap(es)
                },
                p + tokens_seq(es).len() + 2,
            ),
        ),
    decreases es, 1int,
{
    let ts = tokens_seq(es);
    let pt = seq![seq![open]] + ts + seq![seq![end]];
    lemma_piece(t, p, pt, 0, 0);
    lemma_piece(t, p, pt, 1, 1 + ts.len() as int);
    lemma_piece(t, p, pt, 1 + ts.len() as int, 1 + ts.len() as int);
    assert(pt.subrange(1, 1 + ts.len() as int) =~= ts);
    assert(pt[1 + ts.len() as int] == seq![end]);
    assert(t[p][0] == open);
    lemma_parse_items(es, t, p + 1, end);
}

/// The tokens of literals `es`, found at position `p` and followed by a
/// closing token `end`, parse back to `es`.
proof fn lemma_parse_items(es: Seq<Val>, t: Seq<Seq<char>>, p: int, end: char)
    requires
        all_literal(es),
        0 <= p,
        end == ')' || end == ']' || end == '}',
        p + tokens_seq(es).len() < t.len(),
        t.subrange(p, p + tokens_seq(es).len()) == tokens_seq(es),
        t[p + tokens_seq(es).len()] == seq![end],
    ensures
        parse_seq(t, p, end) == Ok::<(Seq<Val>, int), crate::reader::ReadErr>(
            (es, p + tokens_seq(es).len() + 1),
        ),
    decreases es, 0int,
{
    if es.len() == 0 {
        assert(t[p] == seq![end]);
        assert(es =~= Seq::<Val>::empty());
    } else {
        let e0 = es[0];
        let rest = es.subrange(1, es.len() as int);
        let t0 = print_tokens(e0);
        let tr = tokens_seq(rest);
        let ts = tokens_seq(es);
        assert(ts == t0 + tr);
        lemma_piece(t, p, ts, 0, t0.len() as int);
        assert(ts.subrange(0, t0.len() as int) =~= t0);
        lemma_piece(t, p, ts, t0.len() as int, ts.len() as int);
        assert(ts.subrange(t0.len() as int, ts.len() as int) =~= tr);
        lemma_parse_literal(e0, t, p);
        assert(t[p] == t0[0]);
        let q = p + t0.len();
        lemma_parse_items(rest, t, q, end);
        assert(seq![e0] + rest =~= es);
    }
}

/// The parsing half of the round trip: a literal's tokens parse back to it.
pub proof fn lemma_tokens_parse_back(v: Val)
    requires
        literal(v),
    ensures
        parse_form(print_tokens(v), 0) == Ok::<(Val, int), crate::reader::ReadErr>(
            (v, print_tokens(v).len() as int),
        ),
{
    let t = print_tokens(v);
    assert(t.subrange(0, t.len() as int) =~= t);
    lemma_parse_literal(v, t, 0);
}

// ---------------------------------------------------------------------------
// Text to tokens
// ---------------------------------------------------------------------------

/// A run of plain characters from `k` up to a character that is not one, or
/// to the end, is one token.
proof fn lemma_atom_run(s: Seq<char>, k: int, e: int)
    requires
        0 <= k <= e <= s.len(),
        forall|x: int| k <= x < e ==> is_atom_char(#[trigger] s[x]),
        e == s.len() || !is_atom_char(s[e]),
    ensures
        atom_end(s, k) == e,
    decreases e - k,
{
    if k < e {
        lemma_atom_run(s, k + 1, e);
    }
}

/// A string token's end, for an escaped text followed by a quote.
proof fn lemma_string_run(t: Seq<char>, k: int, w: Seq<char>)
    requires
        0 <= k,
        k + escape(w).len() + 1 <= t.len(),
        t.subrange(k, k + escape(w).len() + 1) == escape(w).push('"'),
    ensures
        string_end(t, k) == k + escape(w).len() + 1,
    decreases w.len(),
{
    if w.len() == 0 {
        assert(escape(w) =~= Seq::<char>::empty());
        assert(t[k] == t.subrange(k, k + 1)[0]);
    } else {
        lemma_escape_front(w);
        let c = w[0];
        let ec = escape_char(c);
        let rest = w.drop_first();
        let er = escape(rest);
        let wv = t.subrange(k, k + escape(w).len() + 1);
        assert(t[k] == wv[0]);
        assert(wv[0] == ec[0]);
        if c == '"' || c == '\\' || c == '\n' {
            assert(t.subrange(k + 2, k + 2 + er.len() + 1) =~= wv.subrange(2, wv.len() as int));
            assert(wv.subrange(2, wv.len() as int) =~= er.push('"'));
            lemma_string_run(t, k + 2, rest);
        } else {
            assert(t.subrange(k + 1, k + 1 + er.len() + 1) =~= wv.subrange(1, wv.len() as int));
            assert(wv.subrange(1, wv.len() as int) =~= er.push('"'));
            lemma_string_run(t, k + 1, rest);
        }
    }
}

/// The printed elements of a sequence, written from the front.
proof fn lemma_print_seq_front(es: Seq<Val>)
    requires
        es.len() > 0,
    ensures
        print_seq(es, true) == if es.len() == 1 {
            print_spec(es[0], true)
        } else {
            print_spec(es[0], true) + seq![' '] + print_seq(es.subrange(1, es.len() as int), true)
        },
    decreases es.len(),
{
    if es.len() > 2 {
        let init = es.subrange(0, es.len() - 1);
        lemma_print_seq_front(init);
        assert(init.subrange(1, init.len() as int) =~= es.subrange(1, es.len() as int).subrange(
            0,
            es.len() - 2,
        ));
        let tail = es.subrange(1, es.len() as int);
        assert(tail[tail.len() - 1] == es[es.len() - 1]);
        assert(init[0] == es[0]);
        assert(print_seq(tail, true) == print_seq(tail.subrange(0, tail.len() - 1), true) + seq![
            ' ',
        ] + print_spec(tail[tail.len() - 1], true));
        assert(print_seq(es, true) =~= print_spec(es[0], true) + seq![' '] + print_seq(tail, true));
    } else if es.len() == 2 {
        let init = es.subrange(0, 1);
        let tail = es.subrange(1, 2);
        assert(init[0] == es[0]);
        assert(tail[0] == es[1]);
        assert(print_seq(init, true) == print_spec(es[0], true));
        assert(print_seq(tail, true) == print_spec(es[1], true));
    }
}

/// The printed text of a literal at position `i` lexes into its tokens.
proof fn lemma_lex_literal(v: Val, s: Seq<char>, i: int)
    requires
        literal(v),
        0 <= i,
        i + print_spec(v, true).len() <= s.len(),
        s.subrange(i, i + print_spec(v, true).len()) == print_spec(v, true),
        i + print_spec(v, true).len() == s.len() || !is_atom_char(
            s[i + print_spec(v, true).len()],
        ),
    ensures
        print_spec(v, true).len() > 0,
        lex(s, i) == print_tokens(v) + lex(s, i + print_spec(v, true).len()),
    decreases v, 1int,
{
    let pv = print_spec(v, true);
    match v {
        Val::List(es) => {
            lemma_lex_collection(es, s, i, '(', ')');
        },
        Val::Vector(es) => {
            lemma_lex_collection(es, s, i, '[', ']');
        },
        Val::HashMap(es) => {
            lemma_lex_collection(es, s, i, '{', '}');
        },
        Val::Str(w) => {
            let e = i + pv.len();
            assert(pv == seq!['"'] + escape(w) + seq!['"']);
            lemma_piece(s, i, pv, 0, 0);
            lemma_piece(s, i, pv, 1, pv.len() as int);
            assert(pv.subrange(1, pv.len() as int) =~= escape(w).push('"'));
            lemma_string_run(s, i + 1, w);
            assert(s.subrange(i, e) == pv);
            assert(lex(s, i) =~= seq![pv] + lex(s, e));
        },
        _ => {
            let e = i + pv.len();
            lemma_leaf_chars(v);
            lemma_piece(s, i, pv, 0, 0);
            assert forall|x: int| i <= x < e implies is_atom_char(#[trigger] s[x]) by {
                lemma_piece(s, i, pv, x - i, x - i);
            }
            lemma_atom_run(s, i, e);
            assert(lex(s, i) =~= seq![pv] + lex(s, e));
        },
    }
}

/// The text of a literal that is neither a collection nor a string is a
/// non-empty run of plain characters that the lexer does not treat
/// specially.
proof fn lemma_leaf_chars(v: Val)
    requires
        literal(v),
        !(v is List || v is Vector || v is HashMap || v is Str),
    ensures
        print_spec(v, true).len() > 0,
        forall|x: int|
            0 <= x < print_spec(v, true).len() ==> is_atom_char(#[trigger] print_spec(v, true)[x]),
        !is_special(print_spec(v, true)[0]),
{
    let pv = print_spec(v, true);
    match v {
        Val::Number(n) => {
            lemma_decimal_reads_back(n);
        },
        Val::Keyword(w) => {
            assert forall|x: int| 0 <= x < pv.len() implies is_atom_char(#[trigger] pv[x]) by {
                if x > 0 {
                    assert(pv[x] == w[x - 1]);
                }
            }
        },
        _ => {},
    }
}

/// The printed text of a collection at position `i` lexes into its tokens.
proof fn lemma_lex_collection(es: Seq<Val>, s: Seq<char>, i: int, open: char, end: char)
    requires
        all_literal(es),
        0 <= i,
        (open == '(' && end == ')') || (open == '[' && end == ']') || (open == '{' && end == '}'),
        i + print_seq(es, true).len() + 2 <= s.len(),
        s.subrange(i, i + print_seq(es, true).len() + 2) == seq![open] + print_seq(es, true) + seq![
            end,
        ],
    ensures
        lex(s, i) == seq![seq![open]] + tokens_seq(es) + seq![seq![end]] + lex(
            s,
            i + print_seq(es, true).len() + 2,
        ),
    decreases es, 1int,
{
    let ps = print_seq(es, true);
    let pv = seq![open] + ps + seq![end];
    let e = i + ps.len() + 2;
    lemma_piece(s, i, pv, 0, 0);
    lemma_piece(s, i, pv, 1, 1 + ps.len() as int);
    assert(pv.subrange(1, 1 + ps.len() as int) =~= ps);
    lemma_piece(s, i, pv, 1 + ps.len() as int, 1 + ps.len() as int);
    assert(s[i + 1 + ps.len()] == end);
    lemma_lex_items(es, s, i + 1);
    assert(lex(s, i) == seq![seq![open]] + lex(s, i + 1));
    assert(lex(s, i + 1 + ps.len()) == seq![seq![end]] + lex(s, e));
    assert(lex(s, i) =~= seq![seq![open]] + tokens_seq(es) + seq![seq![end]] + lex(s, e));
}

/// The printed elements of literals `es` at position `k`, followed by a
/// closing character, lex into their tokens.
proof fn lemma_lex_items(es: Seq<Val>, s: Seq<char>, k: int)
    requires
        all_literal(es),
        0 <= k,
        k + print_seq(es, true).len() < s.len(),
        s.subrange(k, k + print_seq(es, true).len()) == print_seq(es, true),
        s[k + print_seq(es, true).len()] == ')' || s[k + print_seq(es, true).len()] == ']' || s[k
            + print_seq(es, true).len()] == '}',
    ensures
        lex(s, k) == tokens_seq(es) + lex(s, k + print_seq(es, true).len()),
    decreases es, 0int,
{
    let ps = print_seq(es, true);
    if es.len() == 0 {
        assert(tokens_seq(es) =~= Seq::<Seq<char>>::empty());
        assert(lex(s, k) =~= tokens_seq(es) + lex(s, k));
    } else {
        lemma_print_seq_front(es);
        let e0 = es[0];
        let first_text = print_spec(e0, true);
        let rest = es.subrange(1, es.len() as int);
        lemma_piece(s, k, ps, 0, first_text.len() as int);
        assert(ps.subrange(0, first_text.len() as int) =~= first_text);
        if es.len() == 1 {
            lemma_lex_literal(e0, s, k);
            assert(rest =~= Seq::<Val>::empty());
            assert(tokens_seq(rest) =~= Seq::<Seq<char>>::empty());
            assert(tokens_seq(es) =~= print_tokens(e0));
        } else {
            let pr = print_seq(rest, true);
            assert(ps == first_text + seq![' '] + pr);
            lemma_piece(s, k, ps, first_text.len() as int, first_text.len() as int);
            assert(s[k + first_text.len()] == ' ');
            lemma_lex_literal(e0, s, k);
            let k2 = k + first_text.len() + 1;
            lemma_piece(s, k, ps, first_text.len() as int + 1, ps.len() as int);
            assert(ps.subrange(first_text.len() as int + 1, ps.len() as int) =~= pr);
            assert(k2 + pr.len() == k + ps.len());
            lemma_lex_items(rest, s, k2);
            assert(lex(s, k + first_text.len()) == lex(s, k2));
            assert(tokens_seq(es) == print_tokens(e0) + tokens_seq(rest));
            assert(lex(s, k) =~= tokens_seq(es) + lex(s, k + ps.len()));
        }
    }
}

/// Printing a literal value readably and reading the text back gives the
/// same value. Symbols and keywords must have names that read back as
/// themselves (`literal`); procedures, closures and reference cells print
/// as placeholders and are left out.
pub proof fn lemma_round_trip(v: MalType)
    requires
        literal(v.view()),
    ensures
        read_spec(print_spec(v.view(), true)) == Ok::<Val, crate::reader::ReadErr>(v.view()),
{
    let m = v.view();
    let text = print_spec(m, true);
    assert(text.subrange(0, text.len() as int) =~= text);
    lemma_lex_literal(m, text, 0);
    assert(lex(text, text.len() as int) =~= Seq::<Seq<char>>::empty());
    assert(lex(text, 0) =~= print_tokens(m));
    lemma_tokens_parse_back(m);
}

// ---------------------------------------------------------------------------
// Scopes and reference cells
// ---------------------------------------------------------------------------

/// Scope `a` is scope `e` or one of its ancestors.
pub open spec fn in_chain(h: HeapView, a: nat, e: nat) -> bool
    decreases e,
{
    if e >= h.envs.len() {
        false
    } else if a == e {
        true
    } else {
        match h.envs[e as int].parent {
            Some(p) => p < e && in_chain(h, a, p),
            None => false,
        }
    }
}

/// Lexical scoping: binding a name in a scope outside the chain of `e`
/// changes the meaning of no name in `e`.
pub proof fn lemma_binding_elsewhere(h: HeapView, e: nat, other: nat, k: Seq<char>, k2: Seq<char>, v: Val)
    requires
        other < h.envs.len(),
        !in_chain(h, other, e),
    ensures
        h.set_binding(other as int, k2, v).lookup(e as int, k) == h.lookup(e as int, k),
    decreases e,
{
    let h2 = h.set_binding(other as int, k2, v);
    if e < h.envs.len() {
        assert(h2.envs[e as int] == h.envs[e as int]);
        if frame_get(h.envs[e as int].data, k) is None {
            match h.envs[e as int].parent {
                Some(p) => if p < e {
                    lemma_binding_elsewhere(h, p, other, k, k2, v);
                },
                None => {},
            }
        }
    }
}

/// Lexical scoping: making a new scope (for a call or a `let*`) changes the
/// meaning of no name in an existing scope.
pub proof fn lemma_new_scope_elsewhere(
    h: HeapView,
    e: nat,
    k: Seq<char>,
    data: Seq<(Seq<char>, Val)>,
    parent: Option<nat>,
)
    requires
        e < h.envs.len(),
    ensures
        h.push_frame(data, parent).lookup(e as int, k) == h.lookup(e as int, k),
    decreases e,
{
    let h2 = h.push_frame(data, parent);
    if e < h.envs.len() {
        assert(h2.envs[e as int] == h.envs[e as int]);
        if frame_get(h.envs[e as int].data, k) is None {
            match h.envs[e as int].parent {
                Some(p) => if p < e {
                    lemma_new_scope_elsewhere(h, p, k, data, parent);
                },
                None => {},
            }
        }
    }
}

/// Reference cells are shared by identity: after `reset!` on cell `i`,
/// every value naming cell `i` dereferences to the new content.
pub proof fn lemma_reset_is_shared(h: HeapView, i: nat, v: Val)
    requires
        i < h.atoms.len(),
    ensures
        reset_spec(h, seq![Val::Atom(i), v]).1 == Ok::<Val, crate::types::ErrKind>(v),
        deref_spec(reset_spec(h, seq![Val::Atom(i), v]).0, seq![Val::Atom(i)]) == Ok::<
            Val,
            crate::types::ErrKind,
        >(v),
{
}

/// Reference cells are shared by identity: when `swap!` on cell `i`
/// succeeds, every value naming cell `i` dereferences to its result.
pub proof fn lemma_swap_is_shared(h: HeapView, fe: Option<nat>, args: Seq<Val>, fuel: nat)
    requires
        args.len() >= 2,
        args[0] is Atom,
        apply_builtin(h, Builtin::Swap, fe, args, fuel).1 is Ok,
    ensures
        deref_spec(apply_builtin(h, Builtin::Swap, fe, args, fuel).0, seq![args[0]]) == Ok::<
            Val,
            crate::types::ErrKind,
        >(apply_builtin(h, Builtin::Swap, fe, args, fuel).1->Ok_0),
{
}

} // verus!
