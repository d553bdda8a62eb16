//! The reader: text to tokens, tokens to objects.
use std::rc::Rc;
use vstd::prelude::*;

use crate::errors::{ErrorCause, LispError, ParserError};
use crate::object::{chars_to_list, datum, lemma_datum_unfold, string_datum, string_of, Datum, Object};

verus! {

/// Unicode white space (the `White_Space` property).
pub open spec fn is_space(c: char) -> bool {
    ('\u{9}' <= c && c <= '\u{d}') || c == ' ' || c == '\u{85}' || c == '\u{a0}' || c
        == '\u{1680}' || ('\u{2000}' <= c && c <= '\u{200a}') || c == '\u{2028}' || c
        == '\u{2029}' || c == '\u{202f}' || c == '\u{205f}' || c == '\u{3000}'
}

/// A character that ends an atom.
pub open spec fn is_delim(c: char) -> bool {
    is_space(c) || c == '(' || c == ')'
}

/// Where the run of atom characters that starts at `i` ends.
pub open spec fn atom_end(s: Seq<char>, i: int) -> int
    recommends
        0 <= i,
    decreases s.len() - i,
{
    if i < 0 || i >= s.len() || is_delim(s[i]) {
        i
    } else {
        atom_end(s, i + 1)
    }
}

/// Where a line comment whose text starts at `i` ends: at the next newline.
pub open spec fn comment_end(s: Seq<char>, i: int) -> int
    decreases s.len() - i,
{
    if i < 0 || i >= s.len() || s[i] == '\n' {
        i
    } else {
        comment_end(s, i + 1)
    }
}

/// For a string literal whose contents start at `i`: the index just past its
/// closing quote, if it is closed. A backslash takes the next character with
/// it, unless that is a newline.
pub open spec fn string_end(s: Seq<char>, i: int) -> Option<int>
    decreases s.len() - i,
{
    if i < 0 || i >= s.len() {
        None
    } else if s[i] == '"' {
        Some(i + 1)
    } else if s[i] == '\\' {
        if i + 1 < s.len() && s[i + 1] != '\n' {
            string_end(s, i + 2)
        } else {
            None
        }
    } else {
        string_end(s, i + 1)
    }
}

/// Where the token that starts at `i` ends: a parenthesis or a quote stands
/// alone, a closed string literal runs to its closing quote, anything else
/// runs to the next delimiter.
pub open spec fn token_end(s: Seq<char>, i: int) -> int {
    if s[i] == '(' || s[i] == ')' || s[i] == '\'' {
        i + 1
    } else if s[i] == '"' && string_end(s, i + 1) is Some {
        string_end(s, i + 1)->0
    } else {
        atom_end(s, i)
    }
}

/// The tokens of `s` from `i` on; white space and comments are dropped.
pub open spec fn tokens_from(s: Seq<char>, i: int) -> Seq<Seq<char>>
    decreases s.len() - i,
{
    if i < 0 || i >= s.len() {
        Seq::empty()
    } else if is_space(s[i]) {
        tokens_from(s, i + 1)
    } else if s[i] == ';' {
        let j = comment_end(s, i + 1);
        if j <= i || j > s.len() {
            Seq::empty()
        } else {
            tokens_from(s, j)
        }
    } else {
        let j = token_end(s, i);
        if j <= i || j > s.len() {
            Seq::empty()
        } else {
            seq![s.subrange(i, j)] + tokens_from(s, j)
        }
    }
}

/// The tokens of a text.
pub open spec fn tokens(s: Seq<char>) -> Seq<Seq<char>> {
    tokens_from(s, 0)
}

proof fn lemma_atom_end(s: Seq<char>, i: int)
    requires
        0 <= i <= s.len(),
    ensures
        i <= atom_end(s, i) <= s.len(),
        i < s.len() && !is_delim(s[i]) ==> i < atom_end(s, i),
        forall|k: int| i <= k < atom_end(s, i) ==> !is_delim(#[trigger] s[k]),
    decreases s.len() - i,
{
    if i < s.len() && !is_delim(s[i]) {
        lemma_atom_end(s, i + 1);
    }
}

proof fn lemma_comment_end(s: Seq<char>, i: int)
    requires
        0 <= i <= s.len(),
    ensures
        i <= comment_end(s, i) <= s.len(),
    decreases s.len() - i,
{
    if i < s.len() && s[i] != '\n' {
        lemma_comment_end(s, i + 1);
    }
}

proof fn lemma_string_end(s: Seq<char>, i: int)
    requires
        0 <= i,
    ensures
        string_end(s, i) is Some ==> i < string_end(s, i)->0 <= s.len(),
    decreases s.len() - i,
{
    if 0 <= i < s.len() && s[i] != '"' {
        if s[i] == '\\' {
            if i + 1 < s.len() && s[i + 1] != '\n' {
                lemma_string_end(s, i + 2);
            }
        } else {
            lemma_string_end(s, i + 1);
        }
    }
}

fn is_space_char(c: char) -> (r: bool)
    ensures
        r == is_space(c),
{
    ('\u{9}' <= c && c <= '\u{d}') || c == ' ' || c == '\u{85}' || c == '\u{a0}' || c
        == '\u{1680}' || ('\u{2000}' <= c && c <= '\u{200a}') || c == '\u{2028}' || c
        == '\u{2029}' || c == '\u{202f}' || c == '\u{205f}' || c == '\u{3000}'
}

fn find_atom_end(s: &Vec<char>, i: usize) -> (r: usize)
    requires
        i <= s.len(),
    ensures
        r == atom_end(s@, i as int),
{
    let mut k = i;
    while k < s.len() && !(is_space_char(s[k]) || s[k] == '(' || s[k] == ')')
        invariant
            i <= k <= s.len(),
            atom_end(s@, i as int) == atom_end(s@, k as int),
        decreases s.len() - k,
    {
        k = k + 1;
    }
    k
}

fn find_comment_end(s: &Vec<char>, i: usize) -> (r: usize)
    requires
        i <= s.len(),
    ensures
        r == comment_end(s@, i as int),
{
    let mut k = i;
    while k < s.len() && s[k] != '\n'
        invariant
            i <= k <= s.len(),
            comment_end(s@, i as int) == comment_end(s@, k as int),
        decreases s.len() - k,
    {
        k = k + 1;
    }
    k
}

fn find_string_end(s: &Vec<char>, i: usize) -> (r: Option<usize>)
    requires
        i <= s.len(),
    ensures
        r matches Some(j) ==> string_end(s@, i as int) == Some(j as int),
        r is None ==> string_end(s@, i as int) is None,
{
    let mut k = i;
    while k < s.len()
        invariant
            i <= k <= s.len(),
            string_end(s@, i as int) == string_end(s@, k as int),
        decreases s.len() - k,
    {
        if s[k] == '"' {
            return Some(k + 1);
        } else if s[k] == '\\' {
            if k + 1 < s.len() && s[k + 1] != '\n' {
                k = k + 2;
            } else {
                return None;
            }
        } else {
            k = k + 1;
        }
    }
    None
}

/// The characters `s[i..j]` as a string.
fn substring(s: &Vec<char>, i: usize, j: usize) -> (r: String)
    requires
        i <= j <= s.len(),
    ensures
        r@ == s@.subrange(i as int, j as int),
{
    let mut out = String::new();
    let mut k = i;
    while k < j
        invariant
            i <= k <= j <= s.len(),
            out@ == s@.subrange(i as int, k as int),
        decreases j - k,
    {
        out.push(s[k]);
        k = k + 1;
        assert(out@ =~= s@.subrange(i as int, k as int));
    }
    out
}

/// Splits a text into tokens: line comments (`;` to the end of the line)
/// and white space are dropped; `(`, `)` and `'` stand alone; a closed
/// double-quoted string is one token; any other run of characters up to
/// white space or a parenthesis is one token.
pub fn split_into_strings(input: &str) -> (r: Vec<String>)
    ensures
        r@.map_values(|t: String| t@) == tokens(input@),
{
    let s = crate::object::chars_of(input);
    let mut out: Vec<String> = Vec::new();
    let mut i: usize = 0;
    while i < s.len()
        invariant
            i <= s.len(),
            s@ == input@,
            out@.map_values(|t: String| t@) + tokens_from(s@, i as int) == tokens(input@),
        decreases s.len() - i,
    {
        let c = s[i];
        if is_space_char(c) {
            i = i + 1;
        } else if c == ';' {
            let j = find_comment_end(&s, i + 1);
            proof {
                lemma_comment_end(s@, i + 1);
            }
            i = j;
        } else {
            let j = if c == '(' || c == ')' || c == '\'' {
                i + 1
            } else if c == '"' {
                match find_string_end(&s, i + 1) {
                    Some(e) => e,
                    None => find_atom_end(&s, i),
                }
            } else {
                find_atom_end(&s, i)
            };
            proof {
                lemma_atom_end(s@, i as int);
                lemma_string_end(s@, i + 1);
                assert(j == token_end(s@, i as int));
            }
            let t = substring(&s, i, j);
            assert(tokens_from(s@, i as int) == seq![s@.subrange(i as int, j as int)] + tokens_from(
                s@,
                j as int,
            ));
            let ghost before = out@.map_values(|t: String| t@);
            out.push(t);
            assert(out@.map_values(|t: String| t@) =~= before.push(s@.subrange(i as int, j as int)));
            assert(before + tokens_from(s@, i as int) =~= out@.map_values(|t: String| t@)
                + tokens_from(s@, j as int));
            i = j;
        }
    }
    assert(out@.map_values(|t: String| t@) + Seq::<Seq<char>>::empty() =~= out@.map_values(|t: String| t@));
    out
}

/// A token as the parser takes it: its text, and the number it denotes,
/// if its text is a number literal.
pub struct Token {
    pub text: String,
    pub number: Option<u32>,
}

impl Token {
    pub fn new(text: String, number: Option<u32>) -> (r: Token)
        ensures
            r.text@ == text@,
            r.number == number,
    {
        Token { text, number }
    }
}

/// A token's text and number.
pub open spec fn tok_view(t: Token) -> (Seq<char>, Option<u32>) {
    (t.text@, t.number)
}

pub open spec fn toks(v: Seq<Token>) -> Seq<(Seq<char>, Option<u32>)> {
    v.map_values(|t: Token| tok_view(t))
}

/// The value of a reader error.
pub enum ParseFault {
    UnmatchedToken(char),
    InvalidToken(Seq<char>),
    UnparsableAtom(Seq<char>),
    EmptyQuote,
}

pub open spec fn fault_of(e: ParserError) -> ParseFault {
    match e {
        ParserError::UnmatchedToken(c) => ParseFault::UnmatchedToken(c),
        ParserError::InvalidToken(s) => ParseFault::InvalidToken(s@),
        ParserError::UnparsableAtom(s) => ParseFault::UnparsableAtom(s@),
        ParserError::EmptyQuote => ParseFault::EmptyQuote,
    }
}

/// The token is the one-character text `c`.
pub open spec fn is_tok(t: (Seq<char>, Option<u32>), c: char) -> bool {
    t.0 == seq![c]
}

/// The character a backslash escape in a string literal stands for.
pub open spec fn escaped(c: char) -> Option<char> {
    if c == '\\' {
        Some('\\')
    } else if c == '"' {
        Some('"')
    } else if c == 't' {
        Some('\t')
    } else if c == 'r' {
        Some('\r')
    } else if c == 'n' {
        Some('\n')
    } else if c == '0' {
        Some('\0')
    } else {
        None
    }
}

/// The characters a string literal's contents stand for: each of the
/// escapes `\\ \" \t \r \n \0` is one character; any other character,
/// a backslash included, stands for itself.
pub open spec fn unescape(s: Seq<char>) -> Seq<char>
    decreases s.len(),
{
    if s.len() == 0 {
        s
    } else if s[0] == '\\' && s.len() >= 2 && escaped(s[1]) is Some {
        seq![escaped(s[1])->0] + unescape(s.skip(2))
    } else {
        seq![s[0]] + unescape(s.skip(1))
    }
}

/// The atom a token stands for: a number; a character `\c`; a string
/// literal, as the list of its characters; else a symbol.
pub open spec fn atom(t: (Seq<char>, Option<u32>)) -> Result<Datum, ParseFault> {
    let s = t.0;
    if t.1 is Some {
        Ok(Datum::Number(t.1->0))
    } else if s.len() == 2 && s[0] == '\\' {
        Ok(Datum::Character(s[1]))
    } else if s.len() >= 2 && s[0] == '"' && s[s.len() - 1] == '"' {
        Ok(string_datum(unescape(s.subrange(1, s.len() - 1))))
    } else if s.len() > 0 {
        Ok(Datum::Symbol(s))
    } else {
        Err(ParseFault::UnparsableAtom(s))
    }
}

pub open spec fn unmatched() -> ParseFault {
    ParseFault::UnmatchedToken('(')
}

/// The datum that starts at token `i`, and the index of the token after it.
pub open spec fn parse_datum(ts: Seq<(Seq<char>, Option<u32>)>, i: int) -> Result<(Datum, int), ParseFault>
    decreases ts.len() - i, 0int,
{
    if i < 0 || i >= ts.len() {
        Err(unmatched())
    } else if is_tok(ts[i], '(') {
        parse_items(ts, i + 1, false)
    } else if is_tok(ts[i], ')') || is_tok(ts[i], '.') {
        Err(ParseFault::InvalidToken(ts[i].0))
    } else if is_tok(ts[i], '\'') {
        if i + 1 >= ts.len() || is_tok(ts[i + 1], ')') {
            Err(ParseFault::EmptyQuote)
        } else {
            match parse_datum(ts, i + 1) {
                Ok((d, j)) => Ok((Datum::Quoted(Box::new(d)), j)),
                Err(e) => Err(e),
            }
        }
    } else {
        match atom(ts[i]) {
            Ok(d) => Ok((d, i + 1)),
            Err(e) => Err(e),
        }
    }
}

/// The rest of a list from token `i` on, up to and with its closing
/// parenthesis; `started` when an element came before.
pub open spec fn parse_items(ts: Seq<(Seq<char>, Option<u32>)>, i: int, started: bool) -> Result<(Datum, int), ParseFault>
    decreases ts.len() - i, 1int,
{
    if i < 0 || i >= ts.len() {
        Err(unmatched())
    } else if is_tok(ts[i], ')') {
        Ok((Datum::Nil, i + 1))
    } else if is_tok(ts[i], '.') {
        if started {
            parse_tail(ts, i + 1)
        } else {
            Err(ParseFault::InvalidToken(ts[i].0))
        }
    } else {
        match parse_datum(ts, i) {
            Ok((h, j)) => if j <= i || j > ts.len() {
                Err(unmatched())
            } else {
                match parse_items(ts, j, true) {
                    Ok((t, k)) => Ok((Datum::Pair(Box::new(h), Box::new(t)), k)),
                    Err(e) => Err(e),
                }
            },
            Err(e) => Err(e),
        }
    }
}

/// The tail of a dotted list, after its dot: one atom or one list, then the
/// closing parenthesis.
pub open spec fn parse_tail(ts: Seq<(Seq<char>, Option<u32>)>, i: int) -> Result<(Datum, int), ParseFault>
    decreases ts.len() - i, 1int,
{
    if i < 0 || i >= ts.len() {
        Err(unmatched())
    } else if is_tok(ts[i], '(') {
        match parse_items(ts, i + 1, false) {
            Ok((d, j)) => if j < 0 || j >= ts.len() {
                Err(unmatched())
            } else if is_tok(ts[j], ')') {
                Ok((d, j + 1))
            } else {
                Err(ParseFault::InvalidToken(ts[j].0))
            },
            Err(e) => Err(e),
        }
    } else if is_tok(ts[i], ')') || is_tok(ts[i], '.') || is_tok(ts[i], '\'') {
        Err(ParseFault::InvalidToken(ts[i].0))
    } else if i + 1 >= ts.len() {
        Err(unmatched())
    } else if is_tok(ts[i + 1], ')') {
        match atom(ts[i]) {
            Ok(d) => Ok((d, i + 2)),
            Err(e) => Err(e),
        }
    } else {
        Err(ParseFault::InvalidToken(ts[i].0))
    }
}

/// The data of the tokens from `i` on.
pub open spec fn parse_program(ts: Seq<(Seq<char>, Option<u32>)>, i: int) -> Result<Seq<Datum>, ParseFault>
    decreases ts.len() - i,
{
    if i < 0 || i >= ts.len() {
        Ok(Seq::empty())
    } else {
        match parse_datum(ts, i) {
            Ok((d, j)) => if j <= i || j > ts.len() {
                Err(unmatched())
            } else {
                match parse_program(ts, j) {
                    Ok(rest) => Ok(seq![d] + rest),
                    Err(e) => Err(e),
                }
            },
            Err(e) => Err(e),
        }
    }
}

/// What the reader makes of a token sequence.
pub open spec fn read_tokens(ts: Seq<(Seq<char>, Option<u32>)>) -> Result<Seq<Datum>, ParseFault> {
    parse_program(ts, 0)
}

type Toks = Vec<(Vec<char>, Option<u32>)>;

pub open spec fn tv(ts: Seq<(Vec<char>, Option<u32>)>) -> Seq<(Seq<char>, Option<u32>)> {
    ts.map_values(|p: (Vec<char>, Option<u32>)| (p.0@, p.1))
}

/// An exec parse result agrees with a spec one.
pub open spec fn parsed(r: Result<(Object, usize), ParserError>, s: Result<(Datum, int), ParseFault>) -> bool {
    match r {
        Ok((o, j)) => s == Ok::<(Datum, int), ParseFault>((datum(o), j as int)),
        Err(e) => s == Err::<(Datum, int), ParseFault>(fault_of(e)),
    }
}

fn tok_is(t: &Vec<char>, c: char) -> (r: bool)
    ensures
        r == (t@ == seq![c]),
{
    let r = t.len() == 1 && t[0] == c;
    proof {
        if t.len() == 1 && t@[0] == c {
            assert(t@ =~= seq![c]);
        }
    }
    r
}

fn escape_of(c: char) -> (r: Option<char>)
    ensures
        r == escaped(c),
{
    if c == '\\' {
        Some('\\')
    } else if c == '"' {
        Some('"')
    } else if c == 't' {
        Some('\t')
    } else if c == 'r' {
        Some('\r')
    } else if c == 'n' {
        Some('\n')
    } else if c == '0' {
        Some('\0')
    } else {
        None
    }
}

/// The characters that `s[b..e]`, a string literal's contents, stand for.
fn unescape_range(s: &Vec<char>, b: usize, e: usize) -> (r: Vec<char>)
    requires
        b <= e <= s.len(),
    ensures
        r@ == unescape(s@.subrange(b as int, e as int)),
{
    let mut out: Vec<char> = Vec::new();
    let mut k = b;
    while k < e
        invariant
            b <= k <= e <= s.len(),
            out@ + unescape(s@.subrange(k as int, e as int)) == unescape(s@.subrange(b as int, e as int)),
        decreases e - k,
    {
        let ghost rest = s@.subrange(k as int, e as int);
        let c = s[k];
        if c == '\\' && k + 1 < e && escape_of(s[k + 1]).is_some() {
            let x = escape_of(s[k + 1]).unwrap();
            assert(rest.skip(2) =~= s@.subrange(k + 2, e as int));
            assert(unescape(rest) == seq![x] + unescape(rest.skip(2)));
            out.push(x);
            assert(out@ + unescape(s@.subrange(k + 2, e as int)) =~= out@.drop_last() + unescape(rest));
            k = k + 2;
        } else {
            assert(rest.skip(1) =~= s@.subrange(k + 1, e as int));
            assert(unescape(rest) == seq![c] + unescape(rest.skip(1)));
            out.push(c);
            assert(out@ + unescape(s@.subrange(k + 1, e as int)) =~= out@.drop_last() + unescape(rest));
            k = k + 1;
        }
    }
    assert(out@ + unescape(s@.subrange(e as int, e as int)) =~= out@);
    out
}

/// The atom a token stands for.
fn parse_atom(text: &Vec<char>, number: Option<u32>) -> (r: Result<Object, ParserError>)
    ensures
        match r {
            Ok(o) => atom((text@, number)) == Ok::<Datum, ParseFault>(datum(o)),
            Err(e) => atom((text@, number)) == Err::<Datum, ParseFault>(fault_of(e)),
        },
{
    let n = text.len();
    match number {
        Some(b) => {
            let o = Object::Number(b);
            proof {
                lemma_datum_unfold(o);
            }
            return Ok(o);
        },
        None => {},
    }
    if n == 2 && text[0] == '\\' {
        let o = Object::Character(text[1]);
        proof {
            lemma_datum_unfold(o);
        }
        Ok(o)
    } else if n >= 2 && text[0] == '"' && text[n - 1] == '"' {
        let chars = unescape_range(text, 1, n - 1);
        Ok(chars_to_list(&chars))
    } else if n > 0 {
        let o = Object::Symbol(string_of(text));
        proof {
            lemma_datum_unfold(o);
        }
        Ok(o)
    } else {
        Err(ParserError::UnparsableAtom(string_of(text)))
    }
}

fn invalid(t: &Vec<char>) -> (r: ParserError)
    ensures
        fault_of(r) == ParseFault::InvalidToken(t@),
{
    ParserError::InvalidToken(string_of(t))
}

/// Reads the datum that starts at token `i`.
fn parse_string(ts: &Toks, i: usize) -> (r: Result<(Object, usize), ParserError>)
    requires
        i <= ts.len(),
    ensures
        parsed(r, parse_datum(tv(ts@), i as int)),
        r matches Ok((_, j)) ==> i < j <= ts.len(),
    decreases ts.len() - i, 0int,
{
    if i >= ts.len() {
        return Err(ParserError::UnmatchedToken('('));
    }
    let t = &ts[i].0;
    if tok_is(t, '(') {
        iter_to_object(ts, i + 1, false)
    } else if tok_is(t, ')') || tok_is(t, '.') {
        Err(invalid(t))
    } else if tok_is(t, '\'') {
        if i + 1 >= ts.len() || tok_is(&ts[i + 1].0, ')') {
            Err(ParserError::EmptyQuote)
        } else {
            match parse_string(ts, i + 1) {
                Ok((d, j)) => {
                    let o = Object::Quoted(Rc::new(d));
                    proof {
                        lemma_datum_unfold(o);
                    }
                    Ok((o, j))
                },
                Err(e) => Err(e),
            }
        }
    } else {
        match parse_atom(t, ts[i].1) {
            Ok(o) => Ok((o, i + 1)),
            Err(e) => Err(e),
        }
    }
}

/// Reads the rest of a list from token `i` on, through its closing
/// parenthesis; `started` when an element came before.
fn iter_to_object(ts: &Toks, i: usize, started: bool) -> (r: Result<(Object, usize), ParserError>)
    requires
        i <= ts.len(),
    ensures
        parsed(r, parse_items(tv(ts@), i as int, started)),
        r matches Ok((_, j)) ==> i < j <= ts.len(),
    decreases ts.len() - i, 1int,
{
    if i >= ts.len() {
        return Err(ParserError::UnmatchedToken('('));
    }
    let t = &ts[i].0;
    if tok_is(t, ')') {
        let o = Object::Nil;
        proof {
            lemma_datum_unfold(o);
        }
        Ok((o, i + 1))
    } else if tok_is(t, '.') {
        if started {
            parse_dotted_tail(ts, i + 1)
        } else {
            Err(invalid(t))
        }
    } else {
        match parse_string(ts, i) {
            Ok((h, j)) => match iter_to_object(ts, j, true) {
                Ok((tail, k)) => {
                    let o = Object::Pair(Rc::new(h), Rc::new(tail));
                    proof {
                        lemma_datum_unfold(o);
                    }
                    Ok((o, k))
                },
                Err(e) => Err(e),
            },
            Err(e) => Err(e),
        }
    }
}

/// Reads the tail of a dotted list, from the token after the dot.
fn parse_dotted_tail(ts: &Toks, i: usize) -> (r: Result<(Object, usize), ParserError>)
    requires
        i <= ts.len(),
    ensures
        parsed(r, parse_tail(tv(ts@), i as int)),
        r matches Ok((_, j)) ==> i < j <= ts.len(),
    decreases ts.len() - i, 1int,
{
    if i >= ts.len() {
        return Err(ParserError::UnmatchedToken('('));
    }
    let t = &ts[i].0;
    if tok_is(t, '(') {
        match iter_to_object(ts, i + 1, false) {
            Ok((d, j)) => if j >= ts.len() {
                Err(ParserError::UnmatchedToken('('))
            } else if tok_is(&ts[j].0, ')') {
                Ok((d, j + 1))
            } else {
                Err(invalid(&ts[j].0))
            },
            Err(e) => Err(e),
        }
    } else if tok_is(t, ')') || tok_is(t, '.') || tok_is(t, '\'') {
        Err(invalid(t))
    } else if i + 1 >= ts.len() {
        Err(ParserError::UnmatchedToken('('))
    } else if tok_is(&ts[i + 1].0, ')') {
        match parse_atom(t, ts[i].1) {
            Ok(o) => Ok((o, i + 2)),
            Err(e) => Err(e),
        }
    } else {
        Err(invalid(t))
    }
}

/// Reads every datum of a token sequence.
fn eval_strings(ts: &Toks) -> (r: Result<Vec<Object>, ParserError>)
    ensures
        match r {
            Ok(v) => read_tokens(tv(ts@)) == Ok::<Seq<Datum>, ParseFault>(v@.map_values(|o: Object| datum(o))),
            Err(e) => read_tokens(tv(ts@)) == Err::<Seq<Datum>, ParseFault>(fault_of(e)),
        },
{
    let mut out: Vec<Object> = Vec::new();
    let mut i: usize = 0;
    while i < ts.len()
        invariant
            i <= ts.len(),
            match parse_program(tv(ts@), i as int) {
                Ok(rest) => read_tokens(tv(ts@)) == Ok::<Seq<Datum>, ParseFault>(out@.map_values(|o: Object| datum(o)) + rest),
                Err(e) => read_tokens(tv(ts@)) == Err::<Seq<Datum>, ParseFault>(e),
            },
        decreases ts.len() - i,
    {
        match parse_string(ts, i) {
            Ok((o, j)) => {
                let ghost before = out@.map_values(|o: Object| datum(o));
                let ghost d = datum(o);
                out.push(o);
                assert(out@.map_values(|o: Object| datum(o)) =~= before.push(d));
                proof {
                    match parse_program(tv(ts@), j as int) {
                        Ok(rest) => {
                            assert(before + (seq![d] + rest) =~= before.push(d) + rest);
                        },
                        Err(e) => {},
                    }
                }
                i = j;
            },
            Err(e) => {
                return Err(e);
            },
        }
    }
    assert(out@.map_values(|o: Object| datum(o)) + Seq::<Datum>::empty() =~= out@.map_values(|o: Object| datum(o)));
    Ok(out)
}

impl Object {
    /// Reads the objects that a token sequence writes, in order.
    pub fn eval(tokens: &Vec<Token>) -> (r: Result<Vec<Object>, LispError>)
        ensures
            match r {
                Ok(v) => read_tokens(toks(tokens@)) == Ok::<Seq<Datum>, ParseFault>(v@.map_values(|o: Object| datum(o))),
                Err(e) => e.kind == crate::errors::LispErrorKind::Parser && (e.error matches ErrorCause::Parser(pe)
                    && read_tokens(toks(tokens@)) == Err::<Seq<Datum>, ParseFault>(fault_of(pe))),
            },
    {
        let mut ts: Toks = Vec::new();
        let mut k: usize = 0;
        while k < tokens.len()
            invariant
                k <= tokens.len(),
                tv(ts@) == toks(tokens@).take(k as int),
            decreases tokens.len() - k,
        {
            let text = crate::object::chars_of(tokens[k].text.as_str());
            assert(text@ == tokens@[k as int].text@);
            let ghost before = tv(ts@);
            ts.push((text, tokens[k].number));
            assert(tv(ts@) =~= before.push((text@, tokens@[k as int].number)));
            k = k + 1;
            assert(tv(ts@) =~= toks(tokens@).take(k as int));
        }
        assert(toks(tokens@).take(k as int) =~= toks(tokens@));
        match eval_strings(&ts) {
            Ok(v) => Ok(v),
            Err(e) => Err(LispError::parser(e)),
        }
    }
}

} // verus!
