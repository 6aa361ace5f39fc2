use vstd::prelude::*;

use crate::text::{chars_of, string_from_chars};
use crate::types::{MalError, MalResult, MalType, Val, lemma_view_seq, view_seq};

verus! {

broadcast use vstd::std_specs::vec::group_vec_axioms;

// ---------------------------------------------------------------------------
// Tokens
// ---------------------------------------------------------------------------

/// Characters skipped between tokens: commas and Unicode white space.
pub open spec fn is_blank(c: char) -> bool {
    c == ','
        || ('\u{9}' <= c && c <= '\u{d}')
        || c == '\u{20}'
        || c == '\u{85}'
        || c == '\u{a0}'
        || c == '\u{1680}'
        || ('\u{2000}' <= c && c <= '\u{200a}')
        || ('\u{2028}' <= c && c <= '\u{2029}')
        || c == '\u{202f}'
        || c == '\u{205f}'
        || c == '\u{3000}'
}

/// Characters that are tokens on their own.
pub open spec fn is_special(c: char) -> bool {
    c == '[' || c == ']' || c == '{' || c == '}' || c == '(' || c == ')' || c == '\''
        || c == '`' || c == '~' || c == '^' || c == '@'
}

/// Characters that can continue a plain token.
pub open spec fn is_atom_char(c: char) -> bool {
    !(is_blank(c) || c == '[' || c == ']' || c == '{' || c == '}' || c == '(' || c == ')'
        || c == '\'' || c == '"' || c == '`' || c == ';')
}

/// Where a string token that opened before `k` ends: just after its closing
/// quote, or at the end of the text.
pub open spec fn string_end(s: Seq<char>, k: int) -> int
    decreases s.len() - k,
{
    if k < 0 || k >= s.len() {
        s.len() as int
    } else if s[k] == '"' {
        k + 1
    } else if s[k] == '\\' {
        if k + 1 < s.len() {
            string_end(s, k + 2)
        } else {
            s.len() as int
        }
    } else {
        string_end(s, k + 1)
    }
}

/// The end of the line that holds position `k`.
pub open spec fn line_end(s: Seq<char>, k: int) -> int
    decreases s.len() - k,
{
    if k < 0 || k >= s.len() {
        s.len() as int
    } else if s[k] == '\n' {
        k
    } else {
        line_end(s, k + 1)
    }
}

/// The end of the run of plain-token characters that starts at `k`.
pub open spec fn atom_end(s: Seq<char>, k: int) -> int
    decreases s.len() - k,
{
    if k < 0 || k >= s.len() {
        s.len() as int
    } else if !is_atom_char(s[k]) {
        k
    } else {
        atom_end(s, k + 1)
    }
}

/// The tokens of `s` from position `i` on: `~@`, a special character, a
/// string (its closing quote may be missing), or a maximal run of plain
/// characters; blanks and commas separate tokens and comments run to the end
/// of the line and are dropped.
pub open spec fn lex(s: Seq<char>, i: int) -> Seq<Seq<char>>
    decreases s.len() - i,
{
    if i < 0 || i >= s.len() {
        Seq::empty()
    } else {
        let c = s[i];
        if is_blank(c) {
            lex(s, i + 1)
        } else if c == '~' && i + 1 < s.len() && s[i + 1] == '@' {
            seq![seq!['~', '@']] + lex(s, i + 2)
        } else if is_special(c) {
            seq![seq![c]] + lex(s, i + 1)
        } else if c == '"' {
            let j = string_end(s, i + 1);
            if j <= i || j > s.len() {
                Seq::empty()
            } else {
                seq![s.subrange(i, j)] + lex(s, j)
            }
        } else if c == ';' {
            let j = line_end(s, i);
            if j <= i || j > s.len() {
                Seq::empty()
            } else {
                lex(s, j)
            }
        } else {
            let j = atom_end(s, i);
            if j <= i || j > s.len() {
                Seq::empty()
            } else {
                seq![s.subrange(i, j)] + lex(s, j)
            }
        }
    }
}

proof fn lemma_string_end(s: Seq<char>, k: int)
    requires
        0 <= k,
    ensures
        k <= string_end(s, k) <= s.len() || (k > s.len() && string_end(s, k) == s.len()),
    decreases s.len() - k,
{
    if k < s.len() && s[k] != '"' {
        if s[k] == '\\' {
            if k + 1 < s.len() {
                lemma_string_end(s, k + 2);
            }
        } else {
            lemma_string_end(s, k + 1);
        }
    }
}

proof fn lemma_line_end(s: Seq<char>, k: int)
    requires
        0 <= k <= s.len(),
    ensures
        k <= line_end(s, k) <= s.len(),
    decreases s.len() - k,
{
    if k < s.len() && s[k] != '\n' {
        lemma_line_end(s, k + 1);
    }
}

proof fn lemma_atom_end(s: Seq<char>, k: int)
    requires
        0 <= k <= s.len(),
    ensures
        k <= atom_end(s, k) <= s.len(),
    decreases s.len() - k,
{
    if k < s.len() && is_atom_char(s[k]) {
        lemma_atom_end(s, k + 1);
    }
}

fn is_blank_char(c: char) -> (r: bool)
    ensures
        r == is_blank(c),
{
    c == ','
        || ('\u{9}' <= c && c <= '\u{d}')
        || c == '\u{20}'
        || c == '\u{85}'
        || c == '\u{a0}'
        || c == '\u{1680}'
        || ('\u{2000}' <= c && c <= '\u{200a}')
        || ('\u{2028}' <= c && c <= '\u{2029}')
        || c == '\u{202f}'
        || c == '\u{205f}'
        || c == '\u{3000}'
}

fn is_special_char(c: char) -> (r: bool)
    ensures
        r == is_special(c),
{
    c == '[' || c == ']' || c == '{' || c == '}' || c == '(' || c == ')' || c == '\'' || c
        == '`' || c == '~' || c == '^' || c == '@'
}

fn is_atom_character(c: char) -> (r: bool)
    ensures
        r == is_atom_char(c),
{
    !(is_blank_char(c) || c == '[' || c == ']' || c == '{' || c == '}' || c == '(' || c == ')'
        || c == '\'' || c == '"' || c == '`' || c == ';')
}

fn find_string_end(s: &Vec<char>, k: usize) -> (r: usize)
    requires
        k <= s.len(),
    ensures
        r == string_end(s@, k as int),
{
    let mut j: usize = k;
    while j < s.len()
        invariant
            k <= j <= s.len(),
            string_end(s@, k as int) == string_end(s@, j as int),
        decreases s.len() - j,
    {
        if s[j] == '"' {
            return j + 1;
        } else if s[j] == '\\' {
            if j + 1 < s.len() {
                j = j + 2;
            } else {
                return s.len();
            }
        } else {
            j = j + 1;
        }
    }
    s.len()
}

fn find_line_end(s: &Vec<char>, k: usize) -> (r: usize)
    requires
        k <= s.len(),
    ensures
        r == line_end(s@, k as int),
{
    let mut j: usize = k;
    while j < s.len()
        invariant
            k <= j <= s.len(),
            line_end(s@, k as int) == line_end(s@, j as int),
        decreases s.len() - j,
    {
        if s[j] == '\n' {
            return j;
        }
        j = j + 1;
    }
    s.len()
}

fn find_atom_end(s: &Vec<char>, k: usize) -> (r: usize)
    requires
        k <= s.len(),
    ensures
        r == atom_end(s@, k as int),
{
    let mut j: usize = k;
    while j < s.len()
        invariant
            k <= j <= s.len(),
            atom_end(s@, k as int) == atom_end(s@, j as int),
        decreases s.len() - j,
    {
        if !is_atom_character(s[j]) {
            return j;
        }
        j = j + 1;
    }
    s.len()
}

fn slice_chars(s: &Vec<char>, lo: usize, hi: usize) -> (r: Vec<char>)
    requires
        lo <= hi <= s.len(),
    ensures
        r@ == s@.subrange(lo as int, hi as int),
{
    let mut out: Vec<char> = Vec::new();
    let mut i: usize = lo;
    while i < hi
        invariant
            lo <= i <= hi <= s.len(),
            out@ == s@.subrange(lo as int, i as int),
        decreases hi - i,
    {
        out.push(s[i]);
        i = i + 1;
        assert(out@ =~= s@.subrange(lo as int, i as int));
    }
    out
}

/// The model of a token list.
pub open spec fn tokens_view(t: Seq<String>) -> Seq<Seq<char>> {
    t.map_values(|s: String| s@)
}

/// Splits `input` into tokens as `lex` says.
pub fn tokenize(input: &str) -> (r: Vec<String>)
    ensures
        tokens_view(r@) == lex(input@, 0),
{
    let s = chars_of(input);
    let mut out: Vec<String> = Vec::new();
    let mut i: usize = 0;
    while i < s.len()
        invariant
            i <= s.len(),
            s@ == input@,
            tokens_view(out@) + lex(s@, i as int) == lex(s@, 0),
        decreases s.len() - i,
    {
        let c = s[i];
        let ghost before = tokens_view(out@);
        if is_blank_char(c) {
            i = i + 1;
        } else if c == '~' && i + 1 < s.len() && s[i + 1] == '@' {
            let mut t: Vec<char> = Vec::new();
            t.push('~');
            t.push('@');
            out.push(string_from_chars(&t));
            proof {
                assert(t@ =~= seq!['~', '@']);
                assert(tokens_view(out@) =~= before.push(seq!['~', '@']));
                assert(tokens_view(out@) + lex(s@, i + 2) =~= before + lex(s@, i as int));
            }
            i = i + 2;
        } else if is_special_char(c) {
            let mut t: Vec<char> = Vec::new();
            t.push(c);
            out.push(string_from_chars(&t));
            proof {
                assert(t@ =~= seq![c]);
                assert(tokens_view(out@) =~= before.push(seq![c]));
                assert(tokens_view(out@) + lex(s@, i + 1) =~= before + lex(s@, i as int));
            }
            i = i + 1;
        } else if c == '"' {
            let j = find_string_end(&s, i + 1);
            proof {
                lemma_string_end(s@, i + 1);
            }
            let t = slice_chars(&s, i, j);
            out.push(string_from_chars(&t));
            proof {
                assert(tokens_view(out@) =~= before.push(s@.subrange(i as int, j as int)));
                assert(tokens_view(out@) + lex(s@, j as int) =~= before + lex(s@, i as int));
            }
            i = j;
        } else if c == ';' {
            let j = find_line_end(&s, i);
            proof {
                lemma_line_end(s@, i + 1);
                assert(line_end(s@, i as int) == line_end(s@, i + 1));
            }
            i = j;
        } else {
            let j = find_atom_end(&s, i);
            proof {
                lemma_atom_end(s@, i + 1);
                assert(is_atom_char(c));
                assert(atom_end(s@, i as int) == atom_end(s@, i + 1));
            }
            let t = slice_chars(&s, i, j);
            out.push(string_from_chars(&t));
            proof {
                assert(tokens_view(out@) =~= before.push(s@.subrange(i as int, j as int)));
                assert(tokens_view(out@) + lex(s@, j as int) =~= before + lex(s@, i as int));
            }
            i = j;
        }
    }
    assert(tokens_view(out@) =~= tokens_view(out@) + lex(s@, i as int));
    out
}

// ---------------------------------------------------------------------------
// Forms
// ---------------------------------------------------------------------------

/// Why reading failed.
pub enum ReadErr {
    /// Nothing to read.
    Blank,
    /// The tokens ran out inside a collection.
    Eof,
    /// A string has no closing quote (a final backslash included).
    EndOfString,
}

pub open spec fn is_digit(c: char) -> bool {
    '0' <= c <= '9'
}

/// A token without its leading minus, if any.
pub open spec fn unsigned_part(t: Seq<char>) -> Seq<char> {
    if t.len() > 0 && t[0] == '-' {
        t.drop_first()
    } else {
        t
    }
}

/// Unicode decimal digits (general category Nd).
pub open spec fn is_decimal_digit(c: char) -> bool {
    ('0' <= c && c <= '9')
        || ('\u{660}' <= c && c <= '\u{669}')
        || ('\u{6f0}' <= c && c <= '\u{6f9}')
        || ('\u{7c0}' <= c && c <= '\u{7c9}')
        || ('\u{966}' <= c && c <= '\u{96f}')
        || ('\u{9e6}' <= c && c <= '\u{9ef}')
        || ('\u{a66}' <= c && c <= '\u{a6f}')
        || ('\u{ae6}' <= c && c <= '\u{aef}')
        || ('\u{b66}' <= c && c <= '\u{b6f}')
        || ('\u{be6}' <= c && c <= '\u{bef}')
        || ('\u{c66}' <= c && c <= '\u{c6f}')
        || ('\u{ce6}' <= c && c <= '\u{cef}')
        || ('\u{d66}' <= c && c <= '\u{d6f}')
        || ('\u{de6}' <= c && c <= '\u{def}')
        || ('\u{e50}' <= c && c <= '\u{e59}')
        || ('\u{ed0}' <= c && c <= '\u{ed9}')
        || ('\u{f20}' <= c && c <= '\u{f29}')
        || ('\u{1040}' <= c && c <= '\u{1049}')
        || ('\u{1090}' <= c && c <= '\u{1099}')
        || ('\u{17e0}' <= c && c <= '\u{17e9}')
        || ('\u{1810}' <= c && c <= '\u{1819}')
        || ('\u{1946}' <= c && c <= '\u{194f}')
        || ('\u{19d0}' <= c && c <= '\u{19d9}')
        || ('\u{1a80}' <= c && c <= '\u{1a89}')
        || ('\u{1a90}' <= c && c <= '\u{1a99}')
        || ('\u{1b50}' <= c && c <= '\u{1b59}')
        || ('\u{1bb0}' <= c && c <= '\u{1bb9}')
        || ('\u{1c40}' <= c && c <= '\u{1c49}')
        || ('\u{1c50}' <= c && c <= '\u{1c59}')
        || ('\u{a620}' <= c && c <= '\u{a629}')
        || ('\u{a8d0}' <= c && c <= '\u{a8d9}')
        || ('\u{a900}' <= c && c <= '\u{a909}')
        || ('\u{a9d0}' <= c && c <= '\u{a9d9}')
        || ('\u{a9f0}' <= c && c <= '\u{a9f9}')
        || ('\u{aa50}' <= c && c <= '\u{aa59}')
        || ('\u{abf0}' <= c && c <= '\u{abf9}')
        || ('\u{ff10}' <= c && c <= '\u{ff19}')
        || ('\u{104a0}' <= c && c <= '\u{104a9}')
        || ('\u{10d30}' <= c && c <= '\u{10d39}')
        || ('\u{11066}' <= c && c <= '\u{1106f}')
        || ('\u{110f0}' <= c && c <= '\u{110f9}')
        || ('\u{11136}' <= c && c <= '\u{1113f}')
        || ('\u{111d0}' <= c && c <= '\u{111d9}')
        || ('\u{112f0}' <= c && c <= '\u{112f9}')
        || ('\u{11450}' <= c && c <= '\u{11459}')
        || ('\u{114d0}' <= c && c <= '\u{114d9}')
        || ('\u{11650}' <= c && c <= '\u{11659}')
        || ('\u{116c0}' <= c && c <= '\u{116c9}')
        || ('\u{11730}' <= c && c <= '\u{11739}')
        || ('\u{118e0}' <= c && c <= '\u{118e9}')
        || ('\u{11950}' <= c && c <= '\u{11959}')
        || ('\u{11c50}' <= c && c <= '\u{11c59}')
        || ('\u{11d50}' <= c && c <= '\u{11d59}')
        || ('\u{11da0}' <= c && c <= '\u{11da9}')
        || ('\u{11f50}' <= c && c <= '\u{11f59}')
        || ('\u{16a60}' <= c && c <= '\u{16a69}')
        || ('\u{16ac0}' <= c && c <= '\u{16ac9}')
        || ('\u{16b50}' <= c && c <= '\u{16b59}')
        || ('\u{1d7ce}' <= c && c <= '\u{1d7ff}')
        || ('\u{1e140}' <= c && c <= '\u{1e149}')
        || ('\u{1e2f0}' <= c && c <= '\u{1e2f9}')
        || ('\u{1e4f0}' <= c && c <= '\u{1e4f9}')
        || ('\u{1e950}' <= c && c <= '\u{1e959}')
        || ('\u{1fbf0}' <= c && c <= '\u{1fbf9}')
}

fn is_decimal_digit_char(c: char) -> (r: bool)
    ensures
        r == is_decimal_digit(c),
{
    ('0' <= c && c <= '9')
        || ('\u{660}' <= c && c <= '\u{669}')
        || ('\u{6f0}' <= c && c <= '\u{6f9}')
        || ('\u{7c0}' <= c && c <= '\u{7c9}')
        || ('\u{966}' <= c && c <= '\u{96f}')
        || ('\u{9e6}' <= c && c <= '\u{9ef}')
        || ('\u{a66}' <= c && c <= '\u{a6f}')
        || ('\u{ae6}' <= c && c <= '\u{aef}')
        || ('\u{b66}' <= c && c <= '\u{b6f}')
        || ('\u{be6}' <= c && c <= '\u{bef}')
        || ('\u{c66}' <= c && c <= '\u{c6f}')
        || ('\u{ce6}' <= c && c <= '\u{cef}')
        || ('\u{d66}' <= c && c <= '\u{d6f}')
        || ('\u{de6}' <= c && c <= '\u{def}')
        || ('\u{e50}' <= c && c <= '\u{e59}')
        || ('\u{ed0}' <= c && c <= '\u{ed9}')
        || ('\u{f20}' <= c && c <= '\u{f29}')
        || ('\u{1040}' <= c && c <= '\u{1049}')
        || ('\u{1090}' <= c && c <= '\u{1099}')
        || ('\u{17e0}' <= c && c <= '\u{17e9}')
        || ('\u{1810}' <= c && c <= '\u{1819}')
        || ('\u{1946}' <= c && c <= '\u{194f}')
        || ('\u{19d0}' <= c && c <= '\u{19d9}')
        || ('\u{1a80}' <= c && c <= '\u{1a89}')
        || ('\u{1a90}' <= c && c <= '\u{1a99}')
        || ('\u{1b50}' <= c && c <= '\u{1b59}')
        || ('\u{1bb0}' <= c && c <= '\u{1bb9}')
        || ('\u{1c40}' <= c && c <= '\u{1c49}')
        || ('\u{1c50}' <= c && c <= '\u{1c59}')
        || ('\u{a620}' <= c && c <= '\u{a629}')
        || ('\u{a8d0}' <= c && c <= '\u{a8d9}')
        || ('\u{a900}' <= c && c <= '\u{a909}')
        || ('\u{a9d0}' <= c && c <= '\u{a9d9}')
        || ('\u{a9f0}' <= c && c <= '\u{a9f9}')
        || ('\u{aa50}' <= c && c <= '\u{aa59}')
        || ('\u{abf0}' <= c && c <= '\u{abf9}')
        || ('\u{ff10}' <= c && c <= '\u{ff19}')
        || ('\u{104a0}' <= c && c <= '\u{104a9}')
        || ('\u{10d30}' <= c && c <= '\u{10d39}')
        || ('\u{11066}' <= c && c <= '\u{1106f}')
        || ('\u{110f0}' <= c && c <= '\u{110f9}')
        || ('\u{11136}' <= c && c <= '\u{1113f}')
        || ('\u{111d0}' <= c && c <= '\u{111d9}')
        || ('\u{112f0}' <= c && c <= '\u{112f9}')
        || ('\u{11450}' <= c && c <= '\u{11459}')
        || ('\u{114d0}' <= c && c <= '\u{114d9}')
        || ('\u{11650}' <= c && c <= '\u{11659}')
        || ('\u{116c0}' <= c && c <= '\u{116c9}')
        || ('\u{11730}' <= c && c <= '\u{11739}')
        || ('\u{118e0}' <= c && c <= '\u{118e9}')
        || ('\u{11950}' <= c && c <= '\u{11959}')
        || ('\u{11c50}' <= c && c <= '\u{11c59}')
        || ('\u{11d50}' <= c && c <= '\u{11d59}')
        || ('\u{11da0}' <= c && c <= '\u{11da9}')
        || ('\u{11f50}' <= c && c <= '\u{11f59}')
        || ('\u{16a60}' <= c && c <= '\u{16a69}')
        || ('\u{16ac0}' <= c && c <= '\u{16ac9}')
        || ('\u{16b50}' <= c && c <= '\u{16b59}')
        || ('\u{1d7ce}' <= c && c <= '\u{1d7ff}')
        || ('\u{1e140}' <= c && c <= '\u{1e149}')
        || ('\u{1e2f0}' <= c && c <= '\u{1e2f9}')
        || ('\u{1e4f0}' <= c && c <= '\u{1e4f9}')
        || ('\u{1e950}' <= c && c <= '\u{1e959}')
        || ('\u{1fbf0}' <= c && c <= '\u{1fbf9}')
}

pub open spec fn all_digits_or_dots(b: Seq<char>) -> bool {
    forall|i: int| 0 <= i < b.len() ==> is_decimal_digit(b[i]) || b[i] == '.'
}

pub open spec fn all_digits(b: Seq<char>) -> bool {
    forall|i: int| 0 <= i < b.len() ==> is_digit(b[i])
}

/// Tokens made of an optional leading minus and then decimal digits (of any
/// script) and dots only.
pub open spec fn looks_numeric(t: Seq<char>) -> bool {
    unsigned_part(t).len() > 0 && all_digits_or_dots(unsigned_part(t))
}

/// The value of a string of decimal digits.
pub open spec fn digits_value(d: Seq<char>) -> int
    decreases d.len(),
{
    if d.len() == 0 {
        0
    } else {
        digits_value(d.drop_last()) * 10 + (d.last() as int - '0' as int)
    }
}

/// The number that a numeric-looking token stands for: its value when it is
/// an optional minus and ASCII digits that fit in 64 bits, and zero
/// otherwise.
pub open spec fn number_of(t: Seq<char>) -> int {
    let body = unsigned_part(t);
    let v = if t.len() > 0 && t[0] == '-' {
        -digits_value(body)
    } else {
        digits_value(body)
    };
    if body.len() > 0 && all_digits(body) && i64::MIN <= v <= i64::MAX {
        v
    } else {
        0
    }
}

/// The value of a token that opens no form.
pub open spec fn atom_value(t: Seq<char>) -> Val {
    if looks_numeric(t) {
        Val::Number(number_of(t))
    } else if t == seq!['n', 'i', 'l'] {
        Val::Nil
    } else if t == seq!['t', 'r', 'u', 'e'] {
        Val::True
    } else if t == seq!['f', 'a', 'l', 's', 'e'] {
        Val::False
    } else {
        Val::Symbol(t)
    }
}

/// The contents of a string token from position `k` on: a backslash keeps
/// the next character, turning `n` into a newline; the first quote ends it.
pub open spec fn unescape(t: Seq<char>, k: int) -> Result<Seq<char>, ReadErr>
    decreases t.len() - k,
{
    if k < 0 || k >= t.len() {
        Err(ReadErr::EndOfString)
    } else if t[k] == '"' {
        Ok(Seq::empty())
    } else if t[k] == '\\' {
        if k + 1 >= t.len() {
            Err(ReadErr::EndOfString)
        } else {
            let c = if t[k + 1] == 'n' {
                '\n'
            } else {
                t[k + 1]
            };
            match unescape(t, k + 2) {
                Ok(rest) => Ok(seq![c] + rest),
                Err(e) => Err(e),
            }
        }
    } else {
        match unescape(t, k + 1) {
            Ok(rest) => Ok(seq![t[k]] + rest),
            Err(e) => Err(e),
        }
    }
}

pub open spec fn quote_sym() -> Seq<char> {
    seq!['q', 'u', 'o', 't', 'e']
}

pub open spec fn quasiquote_sym() -> Seq<char> {
    seq!['q', 'u', 'a', 's', 'i', 'q', 'u', 'o', 't', 'e']
}

pub open spec fn deref_sym() -> Seq<char> {
    seq!['d', 'e', 'r', 'e', 'f']
}

pub open spec fn unquote_sym() -> Seq<char> {
    seq!['u', 'n', 'q', 'u', 'o', 't', 'e']
}

pub open spec fn splice_unquote_sym() -> Seq<char> {
    seq!['s', 'p', 'l', 'i', 'c', 'e', '-', 'u', 'n', 'q', 'u', 'o', 't', 'e']
}

pub open spec fn with_meta_sym() -> Seq<char> {
    seq!['w', 'i', 't', 'h', '-', 'm', 'e', 't', 'a']
}

/// The symbol that a reader macro character stands for.
pub open spec fn macro_sym(t: Seq<char>) -> Seq<char> {
    if t[0] == '\'' {
        quote_sym()
    } else if t[0] == '`' {
        quasiquote_sym()
    } else if t[0] == '@' {
        deref_sym()
    } else if t.len() > 1 && t[1] == '@' {
        splice_unquote_sym()
    } else {
        unquote_sym()
    }
}

/// The form that starts at token `p`, and the position after it.
pub open spec fn parse_form(t: Seq<Seq<char>>, p: int) -> Result<(Val, int), ReadErr>
    decreases t.len() - p, 0int,
{
    if p < 0 || p >= t.len() || t[p].len() == 0 {
        Err(ReadErr::Blank)
    } else {
        let c = t[p][0];
        if c == '(' || c == '[' || c == '{' {
            let end = if c == '(' {
                ')'
            } else if c == '[' {
                ']'
            } else {
                '}'
            };
            match parse_seq(t, p + 1, end) {
                Ok((items, q)) => Ok(
                    (
                        if c == '(' {
                            Val::List(items)
                        } else if c == '[' {
                            Val::Vector(items)
                        } else {
                            Val::HashMap(items)
                        },
                        q,
                    ),
                ),
                Err(e) => Err(e),
            }
        } else if c == '"' {
            match unescape(t[p], 1) {
                Ok(s) => Ok((Val::Str(s), p + 1)),
                Err(e) => Err(e),
            }
        } else if c == ':' {
            Ok((Val::Keyword(t[p].drop_first()), p + 1))
        } else if c == '^' {
            match parse_form(t, p + 1) {
                Ok((meta, q)) => if q <= p || q > t.len() {
                    Err(ReadErr::Blank)
                } else {
                    match parse_form(t, q) {
                        Ok((value, q2)) => Ok(
                            (Val::List(seq![Val::Symbol(with_meta_sym()), value, meta]), q2),
                        ),
                        Err(e) => Err(e),
                    }
                },
                Err(e) => Err(e),
            }
        } else if c == '\'' || c == '`' || c == '@' || c == '~' {
            match parse_form(t, p + 1) {
                Ok((v, q)) => Ok((Val::List(seq![Val::Symbol(macro_sym(t[p])), v]), q)),
                Err(e) => Err(e),
            }
        } else if c == ';' {
            Err(ReadErr::Blank)
        } else {
            Ok((atom_value(t[p]), p + 1))
        }
    }
}

/// The forms from token `p` up to the token that starts with `end`, and the
/// position after that token.
pub open spec fn parse_seq(t: Seq<Seq<char>>, p: int, end: char) -> Result<
    (Seq<Val>, int),
    ReadErr,
>
    decreases t.len() - p, 1int,
{
    if p < 0 || p >= t.len() || t[p].len() == 0 {
        Err(ReadErr::Eof)
    } else if t[p][0] == end {
        Ok((Seq::empty(), p + 1))
    } else {
        match parse_form(t, p) {
            Ok((v, q)) => if q <= p || q > t.len() {
                Err(ReadErr::Eof)
            } else {
                match parse_seq(t, q, end) {
                    Ok((rest, q2)) => Ok((seq![v] + rest, q2)),
                    Err(e) => Err(e),
                }
            },
            Err(e) => Err(e),
        }
    }
}

/// What reading `s` gives: its first form.
pub open spec fn read_spec(s: Seq<char>) -> Result<Val, ReadErr> {
    match parse_form(lex(s, 0), 0) {
        Ok((v, _)) => Ok(v),
        Err(e) => Err(e),
    }
}

/// The error a reader failure is reported as.
pub open spec fn read_err_matches(e: MalError, r: ReadErr) -> bool {
    match r {
        ReadErr::Blank => e.reason is BlankLine,
        ReadErr::Eof => e.reason is UnexpectedEOF,
        ReadErr::EndOfString => e.reason is UnexpectedEndOfString,
    }
}

/// A cursor over a list of tokens.
pub struct Reader {
    tokens: Vec<String>,
    position: usize,
}

impl Reader {
    pub closed spec fn toks(&self) -> Seq<Seq<char>> {
        tokens_view(self.tokens@)
    }

    pub closed spec fn pos(&self) -> int {
        self.position as int
    }

    pub fn new(tokens: Vec<String>) -> (r: Reader)
        ensures
            r.toks() == tokens_view(tokens@),
            r.pos() == 0,
            r.pos() <= r.toks().len(),
    {
        Reader { tokens: tokens, position: 0 }
    }

    /// The current token, after which the cursor moves on.
    pub fn next(&mut self) -> (r: Option<String>)
        ensures
            final(self).toks() == old(self).toks(),
            old(self).pos() < old(self).toks().len() ==> r is Some && r->Some_0@ == old(self).toks()[old(self).pos()]
                && final(self).pos() == old(self).pos() + 1,
            old(self).pos() >= old(self).toks().len() ==> r is None && final(self).pos() == old(self).pos(),
    {
        let current = self.peek();
        if self.position < self.tokens.len() {
            self.position += 1;
        }
        current
    }

    /// The current token.
    pub fn peek(&self) -> (r: Option<String>)
        ensures
            self.pos() < self.toks().len() ==> r is Some && r->Some_0@ == self.toks()[self.pos()],
            self.pos() >= self.toks().len() ==> r is None,
    {
        if self.position < self.tokens.len() {
            Some(self.tokens[self.position].clone())
        } else {
            None
        }
    }
}

/// The first form of `input`.
pub fn read_str(input: String) -> (r: MalResult)
    ensures
        match read_spec(input@) {
            Ok(v) => r is Ok && r->Ok_0.view() == v,
            Err(e) => r is Err && read_err_matches(r->Err_0, e),
        },
{
    let mut reader = Reader::new(tokenize(input.as_str()));
    read_form(&mut reader)
}

/// Reads the form at the cursor and moves past it.
fn read_form(reader: &mut Reader) -> (r: MalResult)
    requires
        old(reader).pos() <= old(reader).toks().len(),
    ensures
        final(reader).toks() == old(reader).toks(),
        final(reader).pos() <= final(reader).toks().len(),
        r is Ok ==> final(reader).pos() > old(reader).pos(),
        match parse_form(old(reader).toks(), old(reader).pos()) {
            Ok((v, q)) => r is Ok && r->Ok_0.view() == v && final(reader).pos() == q,
            Err(e) => r is Err && read_err_matches(r->Err_0, e),
        },
    decreases old(reader).toks().len() - old(reader).pos(), 2int,
{
    let token = match reader.peek() {
        Some(tok) => tok,
        None => return Err(MalError::blank_line()),
    };
    let chars = chars_of(token.as_str());
    if chars.len() == 0 {
        return Err(MalError::blank_line());
    }
    let c = chars[0];
    if c == '(' {
        read_list_like(reader, ')')
    } else if c == '[' {
        read_list_like(reader, ']')
    } else if c == '{' {
        read_list_like(reader, '}')
    } else if c == '"' {
        reader.next();
        read_string(&chars)
    } else if c == ':' {
        reader.next();
        read_keyword(&chars)
    } else if c == '^' {
        read_with_meta(reader)
    } else if c == '\'' || c == '`' || c == '@' || c == '~' {
        read_quote(reader, &chars)
    } else if c == ';' {
        reader.next();
        Err(MalError::blank_line())
    } else {
        reader.next();
        Ok(read_atom(&chars))
    }
}

/// Reads a list, vector or map whose opening token is at the cursor.
fn read_list_like(reader: &mut Reader, end: char) -> (r: MalResult)
    requires
        old(reader).pos() < old(reader).toks().len(),
        old(reader).toks()[old(reader).pos()].len() > 0,
        end == ')' ==> old(reader).toks()[old(reader).pos()][0] == '(',
        end == ']' ==> old(reader).toks()[old(reader).pos()][0] == '[',
        end == '}' ==> old(reader).toks()[old(reader).pos()][0] == '{',
        end == ')' || end == ']' || end == '}',
    ensures
        final(reader).toks() == old(reader).toks(),
        final(reader).pos() <= final(reader).toks().len(),
        r is Ok ==> final(reader).pos() > old(reader).pos(),
        match parse_form(old(reader).toks(), old(reader).pos()) {
            Ok((v, q)) => r is Ok && r->Ok_0.view() == v && final(reader).pos() == q,
            Err(e) => r is Err && read_err_matches(r->Err_0, e),
        },
    decreases old(reader).toks().len() - old(reader).pos(), 1int,
{
    reader.next();
    let items = read_inner_list(reader, end);
    match items {
        Ok(list) => {
            if end == ')' {
                Ok(MalType::List(list))
            } else if end == ']' {
                Ok(MalType::Vector(list))
            } else {
                Ok(MalType::HashMap(list))
            }
        },
        Err(e) => Err(e),
    }
}

/// Reads forms up to the token that starts with `end`, and consumes it.
fn read_inner_list(reader: &mut Reader, end: char) -> (r: Result<Vec<MalType>, MalError>)
    requires
        old(reader).pos() <= old(reader).toks().len(),
    ensures
        final(reader).toks() == old(reader).toks(),
        final(reader).pos() <= final(reader).toks().len(),
        r is Ok ==> final(reader).pos() > old(reader).pos(),
        match parse_seq(old(reader).toks(), old(reader).pos(), end) {
            Ok((items, q)) => r is Ok && view_seq(r->Ok_0@) == items && final(reader).pos() == q,
            Err(e) => r is Err && read_err_matches(r->Err_0, e),
        },
    decreases old(reader).toks().len() - old(reader).pos(), 3int,
{
    let token = match reader.peek() {
        Some(t) => t,
        None => return Err(MalError::unexpected_eof()),
    };
    let chars = chars_of(token.as_str());
    if chars.len() == 0 {
        return Err(MalError::unexpected_eof());
    }
    if chars[0] == end {
        reader.next();
        proof {
            lemma_view_seq(Seq::<MalType>::empty());
        }
        return Ok(Vec::new());
    }
    let first = match read_form(reader) {
        Ok(v) => v,
        Err(e) => return Err(e),
    };
    proof {
    }
    let rest = read_inner_list(reader, end);
    match rest {
        Ok(mut items) => {
            let ghost old_items = items@;
            items.insert(0, first);
            proof {
                lemma_view_seq(items@);
                lemma_view_seq(old_items);
                let want = seq![first.view()] + view_seq(old_items);
                assert(view_seq(items@) =~= want);
            }
            Ok(items)
        },
        Err(e) => Err(e),
    }
}

/// The contents of a string token.
fn read_string(chars: &Vec<char>) -> (r: MalResult)
    requires
        chars@.len() > 0,
    ensures
        match unescape(chars@, 1) {
            Ok(s) => r is Ok && r->Ok_0.view() == Val::Str(s),
            Err(e) => r is Err && read_err_matches(r->Err_0, e),
        },
{
    let mut out: Vec<char> = Vec::new();
    let mut k: usize = 1;
    while k < chars.len()
        invariant
            1 <= k,
            unescape(chars@, 1) == match unescape(chars@, k as int) {
                Ok(rest) => Ok(out@ + rest),
                Err(e) => Err(e),
            },
        decreases chars.len() - k,
    {
        let c = chars[k];
        if c == '"' {
            assert(out@ + Seq::<char>::empty() =~= out@);
            let s = string_from_chars(&out);
            return Ok(MalType::String(s));
        } else if c == '\\' {
            if k + 1 >= chars.len() {
                return Err(MalError::unexpected_end_of_string());
            }
            let e = unescape_char(Some(chars[k + 1]));
            match e {
                Ok(u) => {
                    let ghost before = out@;
                    out.push(u);
                    proof {
                        match unescape(chars@, k + 2) {
                            Ok(rest) => {
                                assert(before + (seq![u] + rest) =~= out@ + rest);
                            },
                            Err(_) => {},
                        }
                    }
                    k = k + 2;
                },
                Err(err) => return Err(err),
            }
        } else {
            let ghost before = out@;
            out.push(c);
            proof {
                match unescape(chars@, k + 1) {
                    Ok(rest) => {
                        assert(before + (seq![c] + rest) =~= out@ + rest);
                    },
                    Err(_) => {},
                }
            }
            k = k + 1;
        }
    }
    Err(MalError::unexpected_end_of_string())
}

/// The character that a backslash escape stands for.
fn unescape_char(input: Option<char>) -> (r: Result<char, MalError>)
    ensures
        match input {
            Some(c) => r == Ok::<char, MalError>(if c == 'n' {
                '\n'
            } else {
                c
            }),
            None => r is Err && r->Err_0.reason is UnexpectedEOF,
        },
{
    match input {
        Some('n') => Ok('\n'),
        Some(c) => Ok(c),
        None => Err(MalError::unexpected_eof()),
    }
}

/// A keyword token without its leading colon.
fn read_keyword(chars: &Vec<char>) -> (r: MalResult)
    requires
        chars@.len() > 0,
    ensures
        r is Ok && r->Ok_0.view() == Val::Keyword(chars@.drop_first()),
{
    let rest = slice_chars(chars, 1, chars.len());
    Ok(MalType::Keyword(string_from_chars(&rest)))
}

/// Reads `(sym form)` for a reader macro character at the cursor.
fn read_quote(reader: &mut Reader, chars: &Vec<char>) -> (r: MalResult)
    requires
        old(reader).pos() < old(reader).toks().len(),
        old(reader).toks()[old(reader).pos()] == chars@,
        chars@.len() > 0,
        chars@[0] == '\'' || chars@[0] == '`' || chars@[0] == '@' || chars@[0] == '~',
    ensures
        final(reader).toks() == old(reader).toks(),
        final(reader).pos() <= final(reader).toks().len(),
        r is Ok ==> final(reader).pos() > old(reader).pos(),
        match parse_form(old(reader).toks(), old(reader).pos()) {
            Ok((v, q)) => r is Ok && r->Ok_0.view() == v && final(reader).pos() == q,
            Err(e) => r is Err && read_err_matches(r->Err_0, e),
        },
    decreases old(reader).toks().len() - old(reader).pos(), 1int,
{
    reader.next();
    let label = macro_label(chars);
    let v = match read_form(reader) {
        Ok(v) => v,
        Err(e) => return Err(e),
    };
    let mut list: Vec<MalType> = Vec::new();
    list.push(MalType::Symbol(label));
    list.push(v);
    proof {
        lemma_view_seq(list@);
        assert(view_seq(list@) =~= seq![Val::Symbol(macro_sym(chars@)), list@[1].view()]);
    }
    Ok(MalType::List(list))
}

/// The symbol name that a reader macro token stands for.
fn macro_label(chars: &Vec<char>) -> (r: String)
    requires
        chars@.len() > 0,
    ensures
        r@ == macro_sym(chars@),
{
    let mut out: Vec<char> = Vec::new();
    if chars[0] == '\'' {
        out.push('q');
        out.push('u');
        out.push('o');
        out.push('t');
        out.push('e');
    } else if chars[0] == '`' {
        out.push('q');
        out.push('u');
        out.push('a');
        out.push('s');
        out.push('i');
        out.push('q');
        out.push('u');
        out.push('o');
        out.push('t');
        out.push('e');
    } else if chars[0] == '@' {
        out.push('d');
        out.push('e');
        out.push('r');
        out.push('e');
        out.push('f');
    } else {
        if chars.len() > 1 && chars[1] == '@' {
            out.push('s');
            out.push('p');
            out.push('l');
            out.push('i');
            out.push('c');
            out.push('e');
            out.push('-');
        }
        out.push('u');
        out.push('n');
        out.push('q');
        out.push('u');
        out.push('o');
        out.push('t');
        out.push('e');
    }
    assert(out@ =~= macro_sym(chars@));
    string_from_chars(&out)
}

/// Reads `^meta value` at the cursor as `(with-meta value meta)`.
fn read_with_meta(reader: &mut Reader) -> (r: MalResult)
    requires
        old(reader).pos() < old(reader).toks().len(),
        old(reader).toks()[old(reader).pos()].len() > 0,
        old(reader).toks()[old(reader).pos()][0] == '^',
    ensures
        final(reader).toks() == old(reader).toks(),
        final(reader).pos() <= final(reader).toks().len(),
        r is Ok ==> final(reader).pos() > old(reader).pos(),
        match parse_form(old(reader).toks(), old(reader).pos()) {
            Ok((v, q)) => r is Ok && r->Ok_0.view() == v && final(reader).pos() == q,
            Err(e) => r is Err && read_err_matches(r->Err_0, e),
        },
    decreases old(reader).toks().len() - old(reader).pos(), 1int,
{
    reader.next();
    let metadata = match read_form(reader) {
        Ok(v) => v,
        Err(e) => return Err(e),
    };
    proof {
    }
    let value = match read_form(reader) {
        Ok(v) => v,
        Err(e) => return Err(e),
    };
    let mut name: Vec<char> = Vec::new();
    name.push('w');
    name.push('i');
    name.push('t');
    name.push('h');
    name.push('-');
    name.push('m');
    name.push('e');
    name.push('t');
    name.push('a');
    assert(name@ =~= with_meta_sym());
    let mut list: Vec<MalType> = Vec::new();
    list.push(MalType::Symbol(string_from_chars(&name)));
    list.push(value);
    list.push(metadata);
    proof {
        lemma_view_seq(list@);
        assert(view_seq(list@) =~= seq![Val::Symbol(with_meta_sym()), list@[1].view(), list@[2].view()]);
    }
    Ok(MalType::List(list))
}

/// The value of a plain token.
fn read_atom(chars: &Vec<char>) -> (r: MalType)
    ensures
        r.view() == atom_value(chars@),
{
    if is_numeric(chars) {
        MalType::Number(parse_number(chars))
    } else if chars.len() == 3 && chars[0] == 'n' && chars[1] == 'i' && chars[2] == 'l' {
        assert(chars@ =~= seq!['n', 'i', 'l']);
        MalType::Nil
    } else if chars.len() == 4 && chars[0] == 't' && chars[1] == 'r' && chars[2] == 'u' && chars[3]
        == 'e' {
        assert(chars@ =~= seq!['t', 'r', 'u', 'e']);
        MalType::True
    } else if chars.len() == 5 && chars[0] == 'f' && chars[1] == 'a' && chars[2] == 'l' && chars[3]
        == 's' && chars[4] == 'e' {
        assert(chars@ =~= seq!['f', 'a', 'l', 's', 'e']);
        MalType::False
    } else {
        MalType::Symbol(string_from_chars(chars))
    }
}

fn is_numeric(chars: &Vec<char>) -> (r: bool)
    ensures
        r == looks_numeric(chars@),
{
    let neg = chars.len() > 0 && chars[0] == '-';
    let start: usize = if neg {
        1
    } else {
        0
    };
    assert(unsigned_part(chars@) =~= chars@.subrange(start as int, chars@.len() as int));
    if start >= chars.len() {
        return false;
    }
    digits_or_dots_from(chars, start)
}

/// Whether every character from `start` on is a decimal digit or a dot.
fn digits_or_dots_from(chars: &Vec<char>, start: usize) -> (r: bool)
    requires
        start <= chars.len(),
    ensures
        r == all_digits_or_dots(chars@.subrange(start as int, chars@.len() as int)),
{
    let ghost body = chars@.subrange(start as int, chars@.len() as int);
    let mut i: usize = start;
    while i < chars.len()
        invariant
            start <= i <= chars.len(),
            body == chars@.subrange(start as int, chars@.len() as int),
            forall|j: int| 0 <= j < i - start ==> #[trigger] body[j] == '.' || is_decimal_digit(body[j]),
        decreases chars.len() - i,
    {
        let c = chars[i];
        if !(is_decimal_digit_char(c) || c == '.') {
            assert(body[i - start] == c);
            return false;
        }
        i = i + 1;
    }
    true
}

proof fn lemma_digits_value_step(d: Seq<char>, i: int)
    requires
        0 <= i < d.len(),
    ensures
        digits_value(d.subrange(0, i + 1)) == digits_value(d.subrange(0, i)) * 10 + (d[i] as int
            - '0' as int),
{
    assert(d.subrange(0, i + 1).drop_last() =~= d.subrange(0, i));
}

proof fn lemma_digits_value_nonneg(d: Seq<char>)
    requires
        forall|i: int| 0 <= i < d.len() ==> is_digit(d[i]),
    ensures
        digits_value(d) >= 0,
    decreases d.len(),
{
    if d.len() > 0 {
        lemma_digits_value_nonneg(d.drop_last());
    }
}

proof fn lemma_digits_value_grows(d: Seq<char>, i: int)
    requires
        0 <= i <= d.len(),
        forall|j: int| 0 <= j < d.len() ==> is_digit(d[j]),
    ensures
        digits_value(d.subrange(0, i)) <= digits_value(d),
    decreases d.len() - i,
{
    if i < d.len() {
        lemma_digits_value_grows(d, i + 1);
        lemma_digits_value_step(d, i);
        lemma_digits_value_nonneg(d.subrange(0, i));
    } else {
        assert(d.subrange(0, i) =~= d);
    }
}

/// Whether every character from `start` on is a decimal digit.
fn digits_from(chars: &Vec<char>, start: usize) -> (r: bool)
    requires
        start <= chars.len(),
    ensures
        r == all_digits(chars@.subrange(start as int, chars@.len() as int)),
{
    let ghost body = chars@.subrange(start as int, chars@.len() as int);
    let mut i: usize = start;
    while i < chars.len()
        invariant
            start <= i <= chars.len(),
            body == chars@.subrange(start as int, chars@.len() as int),
            forall|j: int| 0 <= j < i - start ==> is_digit(#[trigger] body[j]),
        decreases chars.len() - i,
    {
        let c = chars[i];
        if !('0' <= c && c <= '9') {
            assert(body[i - start] == c);
            return false;
        }
        i = i + 1;
    }
    true
}

/// The number a numeric-looking token stands for, as `number_of` says.
fn parse_number(chars: &Vec<char>) -> (r: i64)
    ensures
        r as int == number_of(chars@),
{
    let neg = chars.len() > 0 && chars[0] == '-';
    let start: usize = if neg {
        1
    } else {
        0
    };
    let ghost body = chars@.subrange(start as int, chars@.len() as int);
    assert(body =~= if neg {
        chars@.drop_first()
    } else {
        chars@
    });
    if start >= chars.len() {
        return 0;
    }
    if !digits_from(chars, start) {
        return 0;
    }
    // the magnitude may reach one past the largest positive value when the
    // token is negative
    let limit: u64 = if neg {
        9223372036854775808u64
    } else {
        9223372036854775807u64
    };
    let mut mag: u64 = 0;
    let mut k: usize = start;
    while k < chars.len()
        invariant
            start <= k <= chars.len(),
            body == chars@.subrange(start as int, chars@.len() as int),
            body == unsigned_part(chars@),
            neg == (chars@.len() > 0 && chars@[0] == '-'),
            forall|j: int| 0 <= j < body.len() ==> is_digit(body[j]),
            mag as int == digits_value(body.subrange(0, k - start)),
            mag <= limit,
            limit == if neg {
                9223372036854775808u64
            } else {
                9223372036854775807u64
            },
        decreases chars.len() - k,
    {
        assert(is_digit(body[k - start]));
        let d: u64 = (chars[k] as u32 - '0' as u32) as u64;
        proof {
            lemma_digits_value_step(body, k - start);
            lemma_digits_value_grows(body, k - start + 1);
        }
        if mag > (limit - d) / 10 {
            proof {
                let q = (limit - d) / 10;
                assert(mag * 10 + d > limit) by (nonlinear_arith)
                    requires
                        mag > q,
                        q == (limit - d) / 10,
                        d < 10,
                        d <= limit,
                ;
                assert(body.subrange(0, body.len() as int) =~= body);
                assert(digits_value(body) > limit);
                assert(body == unsigned_part(chars@));
                if neg {
                    assert(-digits_value(body) < i64::MIN);
                } else {
                    assert(digits_value(body) > i64::MAX);
                }
            }
            return 0;
        }
        proof {
            let q = (limit - d) / 10;
            assert(mag * 10 + d <= limit) by (nonlinear_arith)
                requires
                    mag <= q,
                    q == (limit - d) / 10,
                    d < 10,
                    d <= limit,
            ;
        }
        mag = mag * 10 + d;
        k = k + 1;
    }
    assert(body.subrange(0, body.len() as int) =~= body);
    if neg {
        if mag == 9223372036854775808u64 {
            i64::MIN
        } else {
            -(mag as i64)
        }
    } else {
        mag as i64
    }
}

} // verus!
