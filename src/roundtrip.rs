//! Printing and reading back: the tokens of a printed value read back to
//! the value, for every value the reader makes.
use vstd::prelude::*;

use crate::object::{char_list, chars_data, list_of, string_datum, Datum};
use crate::printer::{escape, escape_char, show, show_items, Shown};
use crate::reader::{
    atom, atom_end, escaped, is_delim, is_space, is_tok, parse_datum, parse_items, parse_program, parse_tail,
    read_tokens, string_end, token_end, tokens, tokens_from, unescape,
};

verus! {

/// A token as the reader takes it: its text and the number it denotes.
pub type Tok = (Seq<char>, Option<u32>);

/// One of the texts the reader gives a structure to.
pub open spec fn is_structural(s: Seq<char>) -> bool {
    s == seq!['('] || s == seq![')'] || s == seq!['.'] || s == seq!['\'']
}

/// A symbol's name that reads back as that symbol.
pub open spec fn symbol_ok(s: Seq<char>) -> bool {
    &&& s.len() > 0
    &&& !is_structural(s)
    &&& !(s.len() == 2 && s[0] == '\\')
    &&& !(s.len() >= 2 && s[0] == '"' && s[s.len() - 1] == '"')
}

/// The shapes of value the reader makes: lists, possibly dotted, whose
/// dotted tail is no quotation; symbols, numbers, characters and
/// quotations.
pub open spec fn readable(d: Datum) -> bool
    decreases d, 0int,
{
    match d {
        Datum::Nil => true,
        Datum::Number(_) => true,
        Datum::Character(_) => true,
        Datum::Symbol(s) => symbol_ok(s),
        Datum::Quoted(x) => readable(*x),
        Datum::Pair(h, t) => readable(*h) && readable_tail(*t),
        _ => false,
    }
}

/// What may follow the first element of a list read: more elements, the
/// end, or a dotted tail.
pub open spec fn readable_tail(d: Datum) -> bool
    decreases d, 1int,
{
    match d {
        Datum::Pair(h, t) => readable(*h) && readable_tail(*t),
        Datum::Quoted(_) => false,
        _ => readable(d),
    }
}

pub open spec fn tok(s: Seq<char>) -> Tok {
    (s, None)
}

/// The tokens of a printed value, white space aside. A number is one
/// token, with the text `nt` gives it and its own bits.
pub open spec fn print_tokens(d: Datum, nt: spec_fn(u32) -> Seq<char>) -> Seq<Tok>
    decreases d, 1int,
{
    match d {
        Datum::Nil => seq![tok(seq!['(']), tok(seq![')'])],
        Datum::True => seq![tok(seq!['t'])],
        Datum::Symbol(s) => seq![tok(s)],
        Datum::Number(n) => seq![(nt(n), Some(n))],
        Datum::Character(c) => seq![tok(seq!['\\', c])],
        Datum::Quoted(x) => seq![tok(seq!['\''])] + print_tokens(*x, nt),
        Datum::Pair(_, _) => match char_list(d) {
            Some(cs) => seq![tok(seq!['"'] + escape(cs) + seq!['"'])],
            None => seq![tok(seq!['('])] + print_item_tokens(d, nt) + seq![tok(seq![')'])],
        },
        _ => seq![tok(seq!['#'])],
    }
}

/// The tokens of a list's elements and of its dotted tail.
pub open spec fn print_item_tokens(d: Datum, nt: spec_fn(u32) -> Seq<char>) -> Seq<Tok>
    decreases d, 0int,
{
    match d {
        Datum::Pair(h, t) => print_tokens(*h, nt) + match *t {
            Datum::Nil => Seq::empty(),
            Datum::Pair(_, _) => print_item_tokens(*t, nt),
            _ => seq![tok(seq!['.'])] + print_tokens(*t, nt),
        },
        _ => Seq::empty(),
    }
}

/// Number texts that the reader does not take for structure.
pub open spec fn numbers_plain(nt: spec_fn(u32) -> Seq<char>) -> bool {
    forall|n: u32| !is_structural(#[trigger] nt(n))
}

proof fn lemma_unescape_escape(cs: Seq<char>)
    ensures
        unescape(escape(cs)) == cs,
    decreases cs.len(),
{
    if cs.len() > 0 {
        let c = cs[0];
        let rest = escape(cs.skip(1));
        lemma_unescape_escape(cs.skip(1));
        let e = escape_char(c) + rest;
        assert(escape(cs) == e);
        if escape_char(c).len() == 2 {
            assert(e[0] == '\\');
            assert(escaped(e[1]) == Some(c));
            assert(e.skip(2) =~= rest);
        } else {
            assert(e[0] == c);
            assert(c != '\\');
            assert(e.skip(1) =~= rest);
        }
        assert(seq![c] + cs.skip(1) =~= cs);
    } else {
        assert(escape(cs) == cs);
    }
}

proof fn lemma_char_list_string(d: Datum)
    requires
        char_list(d) is Some,
    ensures
        d == string_datum(char_list(d)->0),
    decreases d,
{
    match d {
        Datum::Pair(h, t) => {
            lemma_char_list_string(*t);
            let cs = char_list(d)->0;
            assert(chars_data(cs).drop_first() =~= chars_data(char_list(*t)->0));
        },
        _ => {
            assert(chars_data(Seq::<char>::empty()) =~= Seq::<Datum>::empty());
        },
    }
}

proof fn lemma_not_char(s: Seq<char>, c: char)
    requires
        s.len() != 1 || s[0] != c,
    ensures
        s != seq![c],
{
    if s.len() == 1 {
        assert(seq![c][0] == c);
    }
}

/// A printed readable value starts with a token that is neither `)` nor
/// `.`, and reads, as an atom, as itself where it is one token.
proof fn lemma_first_token(d: Datum, nt: spec_fn(u32) -> Seq<char>)
    requires
        readable(d),
        numbers_plain(nt),
    ensures
        print_tokens(d, nt).len() > 0,
        !is_tok(print_tokens(d, nt)[0], ')'),
        !is_tok(print_tokens(d, nt)[0], '.'),
        print_tokens(d, nt).len() == 1 ==> !is_structural(print_tokens(d, nt)[0].0) && atom(print_tokens(d, nt)[0]) == Ok::<Datum, crate::reader::ParseFault>(d),
    decreases d,
{
    let ts = print_tokens(d, nt);
    match d {
        Datum::Number(n) => {
            assert(!is_structural(nt(n)));
        },
        Datum::Character(c) => {
            assert(ts[0].0.len() == 2);
            lemma_not_char(ts[0].0, ')');
            lemma_not_char(ts[0].0, '.');
            lemma_not_char(ts[0].0, '(');
            lemma_not_char(ts[0].0, '\'');
        },
        Datum::Nil => {
            lemma_not_char(seq!['('], ')');
            lemma_not_char(seq!['('], '.');
        },
        Datum::Quoted(x) => {
            lemma_first_token(*x, nt);
            lemma_not_char(seq!['\''], ')');
            lemma_not_char(seq!['\''], '.');
        },
        Datum::Pair(_, _) => {
            match char_list(d) {
                Some(cs) => {
                    let s = seq!['"'] + escape(cs) + seq!['"'];
                    assert(s[0] == '"');
                    lemma_not_char(s, ')');
                    lemma_not_char(s, '.');
                    lemma_not_char(s, '(');
                    lemma_not_char(s, '\'');
                    assert(s[s.len() - 1] == '"');
                    assert(s.subrange(1, s.len() - 1) =~= escape(cs));
                    lemma_unescape_escape(cs);
                    lemma_char_list_string(d);
                },
                None => {
                    lemma_not_char(seq!['('], ')');
                    lemma_not_char(seq!['('], '.');
                },
            }
        },
        _ => {},
    }
}

proof fn lemma_structural_free(s: Seq<char>)
    requires
        !is_structural(s),
    ensures
        !is_tok((s, None::<u32>), '('),
        !is_tok((s, None::<u32>), ')'),
        !is_tok((s, None::<u32>), '.'),
        !is_tok((s, None::<u32>), '\''),
{
}

proof fn lemma_distinct_marks()
    ensures
        seq!['('] != seq![')'],
        seq!['('] != seq!['.'],
        seq!['('] != seq!['\''],
        seq!['\''] != seq!['('],
        seq!['\''] != seq![')'],
        seq!['\''] != seq!['.'],
        seq!['.'] != seq![')'],
        seq!['.'] != seq!['('],
{
    lemma_not_char(seq!['('], ')');
    lemma_not_char(seq!['('], '.');
    lemma_not_char(seq!['('], '\'');
    lemma_not_char(seq!['\''], '(');
    lemma_not_char(seq!['\''], ')');
    lemma_not_char(seq!['\''], '.');
    lemma_not_char(seq!['.'], ')');
    lemma_not_char(seq!['.'], '(');
}

/// The tokens of a printed readable value, wherever they stand, read as
/// that value, and reading ends right after them.
proof fn lemma_parse_printed(d: Datum, nt: spec_fn(u32) -> Seq<char>, pre: Seq<Tok>, rest: Seq<Tok>)
    requires
        readable(d),
        numbers_plain(nt),
    ensures
        parse_datum(pre + print_tokens(d, nt) + rest, pre.len() as int) == Ok::<(Datum, int), crate::reader::ParseFault>(
            (d, (pre.len() + print_tokens(d, nt).len()) as int)),
    decreases d, 1int,
{
    let p = print_tokens(d, nt);
    let ts = pre + p + rest;
    let i = pre.len() as int;
    lemma_first_token(d, nt);
    lemma_distinct_marks();
    assert(ts[i] == p[0]);
    if p.len() == 1 {
        lemma_structural_free(p[0].0);
        assert(!is_structural(ts[i].0));
        assert(!is_tok(ts[i], '(') && !is_tok(ts[i], ')') && !is_tok(ts[i], '.') && !is_tok(ts[i], '\''));
        assert(atom(ts[i]) == Ok::<Datum, crate::reader::ParseFault>(d));
        assert(i < ts.len());
    } else {
        match d {
            Datum::Nil => {
                assert(ts[i + 1] == p[1]);
                assert(parse_items(ts, i + 1, false) == Ok::<(Datum, int), crate::reader::ParseFault>((Datum::Nil, i + 2)));
            },
            Datum::Quoted(x) => {
                let px = print_tokens(*x, nt);
                let pre2 = pre + seq![tok(seq!['\''])];
                lemma_first_token(*x, nt);
                assert(ts =~= pre2 + px + rest);
                assert(ts[i + 1] == px[0]);
                lemma_parse_printed(*x, nt, pre2, rest);
                assert(pre2.len() == i + 1);
                assert(parse_datum(ts, i + 1) == Ok::<(Datum, int), crate::reader::ParseFault>((*x, i + 1 + px.len())));
                assert(d == Datum::Quoted(Box::new(*x)));
                assert(p.len() == 1 + px.len());
            },
            Datum::Pair(h, t) => {
                let items = print_item_tokens(d, nt);
                let pre2 = pre + seq![tok(seq!['('])];
                assert(ts =~= pre2 + items + seq![tok(seq![')'])] + rest);
                lemma_parse_printed_items(d, nt, pre2, rest, false);
                assert(pre2.len() == i + 1);
                assert(char_list(d) is None) by {
                    if char_list(d) is Some {
                        assert(p.len() == 1);
                    }
                }
                assert(p.len() == items.len() + 2);
                assert(parse_items(ts, i + 1, false) == Ok::<(Datum, int), crate::reader::ParseFault>((d, i + 1 + items.len() + 1)));
            },
            _ => {},
        }
    }
}

/// The tokens of a printed list's items, then `)`, read as the list.
proof fn lemma_parse_printed_items(d: Datum, nt: spec_fn(u32) -> Seq<char>, pre: Seq<Tok>, rest: Seq<Tok>, started: bool)
    requires
        d is Pair,
        readable(d),
        numbers_plain(nt),
    ensures
        parse_items(pre + print_item_tokens(d, nt) + seq![tok(seq![')'])] + rest, pre.len() as int, started)
            == Ok::<(Datum, int), crate::reader::ParseFault>((d, (pre.len() + print_item_tokens(d, nt).len() + 1) as int)),
    decreases d, 0int,
{
    let close = seq![tok(seq![')'])];
    let items = print_item_tokens(d, nt);
    let ts = pre + items + close + rest;
    let i = pre.len() as int;
    lemma_distinct_marks();
    match d {
        Datum::Pair(h, t) => {
            let ph = print_tokens(*h, nt);
            let after = match *t {
                Datum::Nil => Seq::<Tok>::empty(),
                Datum::Pair(_, _) => print_item_tokens(*t, nt),
                _ => seq![tok(seq!['.'])] + print_tokens(*t, nt),
            };
            assert(items == ph + after);
            lemma_first_token(*h, nt);
            assert(ts =~= pre + ph + (after + close + rest));
            assert(ts[i] == ph[0]);
            lemma_parse_printed(*h, nt, pre, after + close + rest);
            let j = i + ph.len();
            let pre2 = pre + ph;
            match *t {
                Datum::Nil => {
                    assert(ts[j] == tok(seq![')']));
                    assert(d == Datum::Pair(Box::new(*h), Box::new(Datum::Nil)));
                    assert(parse_items(ts, j, true) == Ok::<(Datum, int), crate::reader::ParseFault>((Datum::Nil, j + 1)));
                    assert(parse_datum(ts, i) == Ok::<(Datum, int), crate::reader::ParseFault>((*h, j)));
                },
                Datum::Pair(_, _) => {
                    assert(readable_tail(*t));
                    assert(readable(*t));
                    assert(ts =~= pre2 + print_item_tokens(*t, nt) + close + rest);
                    lemma_parse_printed_items(*t, nt, pre2, rest, true);
                    assert(pre2.len() == j);
                    assert(parse_datum(ts, i) == Ok::<(Datum, int), crate::reader::ParseFault>((*h, j)));
                    assert(parse_items(ts, j, true) == Ok::<(Datum, int), crate::reader::ParseFault>((*t, j + after.len() + 1)));
                    assert(d == Datum::Pair(Box::new(*h), Box::new(*t)));
                },
                _ => {
                    let pt = print_tokens(*t, nt);
                    assert(readable_tail(*t));
                    assert(!(*t is Quoted));
                    assert(readable(*t));
                    assert(*t is Number || *t is Character || *t is Symbol);
                    lemma_first_token(*t, nt);
                    assert(pt.len() == 1);
                    lemma_structural_free(pt[0].0);
                    assert(ts[j] == tok(seq!['.']));
                    assert(ts[j + 1] == pt[0]);
                    assert(ts[j + 2] == tok(seq![')']));
                    assert(parse_datum(ts, i) == Ok::<(Datum, int), crate::reader::ParseFault>((*h, j)));
                    assert(atom(ts[j + 1]) == Ok::<Datum, crate::reader::ParseFault>(*t));
                    assert(parse_tail(ts, j + 1) == Ok::<(Datum, int), crate::reader::ParseFault>((*t, j + 3)));
                    assert(parse_items(ts, j, true) == Ok::<(Datum, int), crate::reader::ParseFault>((*t, j + 3)));
                    assert(after.len() == 2);
                    assert(d == Datum::Pair(Box::new(*h), Box::new(*t)));
                },
            }
        },
        _ => {},
    }
}

/// Printing and reading back, on tokens: the tokens of a printed readable
/// value read as exactly that value.
pub proof fn lemma_round_trip(d: Datum, nt: spec_fn(u32) -> Seq<char>)
    requires
        readable(d),
        numbers_plain(nt),
    ensures
        read_tokens(print_tokens(d, nt)) == Ok::<Seq<Datum>, crate::reader::ParseFault>(seq![d]),
{
    let p = print_tokens(d, nt);
    assert(Seq::<Tok>::empty() + p + Seq::<Tok>::empty() =~= p);
    lemma_parse_printed(d, nt, Seq::empty(), Seq::empty());
    assert(parse_datum(p, 0) == Ok::<(Datum, int), crate::reader::ParseFault>((d, p.len() as int)));
    lemma_first_token(d, nt);
    assert(parse_program(p, p.len() as int) == Ok::<Seq<Datum>, crate::reader::ParseFault>(Seq::empty()));
    assert(seq![d] + Seq::<Datum>::empty() =~= seq![d]);
}

proof fn lemma_string_readable(cs: Seq<char>)
    ensures
        readable(string_datum(cs)),
        readable_tail(string_datum(cs)),
    decreases cs.len(),
{
    let d = chars_data(cs);
    if cs.len() > 0 {
        lemma_string_readable(cs.skip(1));
        assert(d.drop_first() =~= chars_data(cs.skip(1)));
        let t = list_of(d.drop_first());
        assert(list_of(d) == Datum::Pair(Box::new(d[0]), Box::new(t)));
        assert(readable(d[0]));
        assert(readable_tail(t));
        assert(readable(list_of(d)));
        assert(readable_tail(list_of(d)));
    } else {
        assert(list_of(d) == Datum::Nil);
        assert(readable(Datum::Nil));
        assert(readable_tail(Datum::Nil));
    }
}

proof fn lemma_atom_readable(t: Tok)
    requires
        !is_structural(t.0),
        atom(t) is Ok,
    ensures
        readable(atom(t)->Ok_0),
        readable_tail(atom(t)->Ok_0),
{
    let s = t.0;
    let d = atom(t)->Ok_0;
    if t.1 is None && !(s.len() == 2 && s[0] == '\\') && s.len() >= 2 && s[0] == '"' && s[s.len() - 1] == '"' {
        lemma_string_readable(unescape(s.subrange(1, s.len() - 1)));
    } else {
        assert(d is Number || d is Character || d is Symbol);
        assert(readable(d));
        assert(readable_tail(d));
    }
}

proof fn lemma_datum_readable(ts: Seq<Tok>, i: int)
    ensures
        parse_datum(ts, i) matches Ok((d, _)) ==> readable(d),
    decreases ts.len() - i, 0int,
{
    if 0 <= i < ts.len() {
        if is_tok(ts[i], '(') {
            lemma_items_readable(ts, i + 1, false);
        } else if is_tok(ts[i], ')') || is_tok(ts[i], '.') {
        } else if is_tok(ts[i], '\'') {
            if i + 1 < ts.len() && !is_tok(ts[i + 1], ')') {
                lemma_datum_readable(ts, i + 1);
            }
        } else if atom(ts[i]) is Ok {
            lemma_atom_readable(ts[i]);
        }
    }
}

proof fn lemma_items_readable(ts: Seq<Tok>, i: int, started: bool)
    ensures
        parse_items(ts, i, started) matches Ok((d, _)) ==> readable(d) && readable_tail(d),
    decreases ts.len() - i, 1int,
{
    if 0 <= i < ts.len() && is_tok(ts[i], ')') {
        assert(readable(Datum::Nil));
        assert(readable_tail(Datum::Nil));
    } else if 0 <= i < ts.len() {
        if is_tok(ts[i], '.') {
            if started {
                lemma_tail_readable(ts, i + 1);
                match parse_tail(ts, i + 1) {
                    Ok((d, _)) => {
                        assert(readable_tail(d));
                        if d is Pair {
                            assert(readable(d));
                        }
                    },
                    Err(_) => {},
                }
            }
        } else {
            lemma_datum_readable(ts, i);
            match parse_datum(ts, i) {
                Ok((h, j)) => if i < j <= ts.len() {
                    lemma_items_readable(ts, j, true);
                    match parse_items(ts, j, true) {
                        Ok((t, _)) => {
                            let d = Datum::Pair(Box::new(h), Box::new(t));
                            assert(readable(d));
                            assert(readable_tail(d));
                        },
                        Err(_) => {},
                    }
                },
                Err(_) => {},
            }
        }
    }
}

proof fn lemma_tail_readable(ts: Seq<Tok>, i: int)
    ensures
        parse_tail(ts, i) matches Ok((d, _)) ==> readable_tail(d),
    decreases ts.len() - i, 1int,
{
    if 0 <= i < ts.len() {
        if is_tok(ts[i], '(') {
            lemma_items_readable(ts, i + 1, false);
        } else if !(is_tok(ts[i], ')') || is_tok(ts[i], '.') || is_tok(ts[i], '\'')) {
            if atom(ts[i]) is Ok {
                lemma_atom_readable(ts[i]);
            }
        }
    }
}

proof fn lemma_program_readable(ts: Seq<Tok>, i: int)
    ensures
        parse_program(ts, i) matches Ok(ds) ==> forall|k: int| 0 <= k < ds.len() ==> readable(#[trigger] ds[k]),
    decreases ts.len() - i,
{
    if 0 <= i < ts.len() {
        lemma_datum_readable(ts, i);
        match parse_datum(ts, i) {
            Ok((d, j)) => if i < j <= ts.len() {
                lemma_program_readable(ts, j);
                match parse_program(ts, j) {
                    Ok(rest) => {
                        let ds = seq![d] + rest;
                        assert forall|k: int| 0 <= k < ds.len() implies readable(#[trigger] ds[k]) by {
                            if k > 0 {
                                assert(ds[k] == rest[k - 1]);
                            }
                        }
                    },
                    Err(_) => {},
                }
            },
            Err(_) => {},
        }
    }
}

/// Printing and reading back: every value that the reader makes from a
/// token sequence, once printed, reads back as itself from the tokens of
/// its printed form. (Numbers are written by `nt`, as long as it writes
/// none as a parenthesis, a dot or a quote.)
pub proof fn lemma_reader_round_trip(ts: Seq<Tok>, nt: spec_fn(u32) -> Seq<char>)
    requires
        read_tokens(ts) is Ok,
        numbers_plain(nt),
    ensures
        forall|k: int|
            0 <= k < read_tokens(ts)->Ok_0.len() ==> read_tokens(print_tokens(#[trigger] read_tokens(ts)->Ok_0[k], nt))
                == Ok::<Seq<Datum>, crate::reader::ParseFault>(seq![read_tokens(ts)->Ok_0[k]]),
{
    let ds = read_tokens(ts)->Ok_0;
    lemma_program_readable(ts, 0);
    assert forall|k: int| 0 <= k < ds.len() implies read_tokens(print_tokens(#[trigger] ds[k], nt))
        == Ok::<Seq<Datum>, crate::reader::ParseFault>(seq![ds[k]]) by {
        lemma_round_trip(ds[k], nt);
    }
}

/// The text of printed pieces, with numbers written by `nt`.
pub open spec fn render(ps: Seq<Shown>, nt: spec_fn(u32) -> Seq<char>) -> Seq<char>
    decreases ps.len(),
{
    if ps.len() == 0 {
        Seq::empty()
    } else {
        piece_text(ps[0], nt) + render(ps.drop_first(), nt)
    }
}

/// The text of one piece.
pub open spec fn piece_text(p: Shown, nt: spec_fn(u32) -> Seq<char>) -> Seq<char> {
    match p {
        Shown::Text(t) => t,
        Shown::Number(n) => nt(n),
    }
}

/// The printed text of a value.
pub open spec fn printed(d: Datum, nt: spec_fn(u32) -> Seq<char>) -> Seq<char> {
    render(show(d), nt)
}

/// Text that stands as one atom token: no delimiter in it, and no start
/// that makes a comment, a string or a quotation of it.
pub open spec fn plain(s: Seq<char>) -> bool {
    &&& s.len() > 0
    &&& forall|k: int| 0 <= k < s.len() ==> !is_delim(#[trigger] s[k])
    &&& s[0] != ';'
    &&& s[0] != '"'
    &&& s[0] != '\''
}

/// Numbers are written as plain atoms that are no structure.
pub open spec fn numbers_written_plainly(nt: spec_fn(u32) -> Seq<char>) -> bool {
    forall|n: u32| plain(#[trigger] nt(n)) && !is_structural(nt(n))
}

/// The atoms of the printed value, outside string literals, are plain, and
/// it holds no function or host payload.
pub open spec fn text_safe(d: Datum) -> bool
    decreases d, 1int,
{
    match d {
        Datum::Symbol(s) => plain(s),
        Datum::Character(c) => !is_delim(c),
        Datum::Quoted(x) => text_safe(*x),
        Datum::Pair(_, _) => char_list(d) is Some || text_safe_items(d),
        Datum::Nil => true,
        Datum::True => true,
        Datum::Number(_) => true,
        _ => false,
    }
}

pub open spec fn text_safe_items(d: Datum) -> bool
    decreases d, 0int,
{
    match d {
        Datum::Pair(h, t) => text_safe(*h) && match *t {
            Datum::Nil => true,
            Datum::Pair(_, _) => text_safe_items(*t),
            _ => text_safe(*t),
        },
        _ => true,
    }
}

pub open spec fn texts(ts: Seq<Tok>) -> Seq<Seq<char>> {
    ts.map_values(|t: Tok| t.0)
}

proof fn lemma_render_concat(a: Seq<Shown>, b: Seq<Shown>, nt: spec_fn(u32) -> Seq<char>)
    ensures
        render(a + b, nt) == render(a, nt) + render(b, nt),
    decreases a.len(),
{
    if a.len() == 0 {
        assert(a + b =~= b);
    } else {
        lemma_render_concat(a.drop_first(), b, nt);
        assert((a + b).drop_first() =~= a.drop_first() + b);
        assert((a + b)[0] == a[0]);
    }
}

proof fn lemma_render_text(t: Seq<char>, nt: spec_fn(u32) -> Seq<char>)
    ensures
        render(seq![Shown::Text(t)], nt) == t,
{
    let p = seq![Shown::Text(t)];
    assert(p.drop_first() =~= Seq::<Shown>::empty());
    assert(render(p.drop_first(), nt) == Seq::<char>::empty());
    assert(piece_text(p[0], nt) == t);
    assert(t + Seq::<char>::empty() =~= t);
}

proof fn lemma_atom_run(s: Seq<char>, i: int, j: int)
    requires
        0 <= i <= j <= s.len(),
        forall|k: int| i <= k < j ==> !is_delim(#[trigger] s[k]),
        j == s.len() || is_delim(s[j]),
    ensures
        atom_end(s, i) == j,
    decreases j - i,
{
    if i < j {
        lemma_atom_run(s, i + 1, j);
    }
}

proof fn lemma_string_scan(s: Seq<char>, k: int, cs: Seq<char>)
    requires
        0 <= k,
        k + escape(cs).len() + 1 <= s.len(),
        s.subrange(k, k + escape(cs).len() + 1) == escape(cs) + seq!['"'],
    ensures
        string_end(s, k) == Some(k + escape(cs).len() + 1),
    decreases cs.len(),
{
    let e = escape(cs);
    if cs.len() == 0 {
        assert(s[k] == (e + seq!['"'])[0]);
    } else {
        let c = cs[0];
        let ec = escape_char(c);
        let rest = escape(cs.skip(1));
        assert(e == ec + rest);
        assert(s[k] == (e + seq!['"'])[0]);
        if ec.len() == 2 {
            assert(s[k + 1] == (e + seq!['"'])[1]);
            assert(s.subrange(k + 2, k + 2 + rest.len() + 1) =~= rest + seq!['"']) by {
                assert forall|m: int| 0 <= m < rest.len() + 1 implies s.subrange(k + 2, k + 2 + rest.len() + 1)[m]
                    == (rest + seq!['"'])[m] by {
                    assert(s[k + 2 + m] == (e + seq!['"'])[2 + m]);
                }
            }
            lemma_string_scan(s, k + 2, cs.skip(1));
        } else {
            assert(s.subrange(k + 1, k + 1 + rest.len() + 1) =~= rest + seq!['"']) by {
                assert forall|m: int| 0 <= m < rest.len() + 1 implies s.subrange(k + 1, k + 1 + rest.len() + 1)[m]
                    == (rest + seq!['"'])[m] by {
                    assert(s[k + 1 + m] == (e + seq!['"'])[1 + m]);
                }
            }
            lemma_string_scan(s, k + 1, cs.skip(1));
        }
    }
}

proof fn lemma_tok_single(s: Seq<char>, i: int)
    requires
        0 <= i < s.len(),
        s[i] == '(' || s[i] == ')' || s[i] == '\'',
    ensures
        tokens_from(s, i) == seq![seq![s[i]]] + tokens_from(s, i + 1),
{
    assert(!is_space(s[i]));
    assert(token_end(s, i) == i + 1);
    assert(s.subrange(i, i + 1) =~= seq![s[i]]);
}

proof fn lemma_tok_space(s: Seq<char>, i: int)
    requires
        0 <= i < s.len(),
        s[i] == ' ',
    ensures
        tokens_from(s, i) == tokens_from(s, i + 1),
{
}

proof fn lemma_tok_atom(s: Seq<char>, i: int, a: Seq<char>)
    requires
        0 <= i,
        plain(a),
        i + a.len() <= s.len(),
        s.subrange(i, i + a.len()) == a,
        i + a.len() == s.len() || is_delim(s[i + a.len()]),
    ensures
        tokens_from(s, i) == seq![a] + tokens_from(s, i + a.len()),
{
    assert(s[i] == a[0]);
    assert(!is_delim(a[0]));
    assert forall|k: int| i <= k < i + a.len() implies !is_delim(#[trigger] s[k]) by {
        assert(s[k] == a[k - i]);
    }
    lemma_atom_run(s, i, i + a.len());
    assert(token_end(s, i) == i + a.len());
}

proof fn lemma_tok_string(s: Seq<char>, i: int, cs: Seq<char>)
    requires
        0 <= i,
        i + escape(cs).len() + 2 <= s.len(),
        s.subrange(i, i + escape(cs).len() + 2) == seq!['"'] + escape(cs) + seq!['"'],
    ensures
        tokens_from(s, i) == seq![seq!['"'] + escape(cs) + seq!['"']] + tokens_from(s, i + escape(cs).len() + 2),
{
    let t = seq!['"'] + escape(cs) + seq!['"'];
    assert(s[i] == t[0]);
    assert(s.subrange(i + 1, i + 1 + escape(cs).len() + 1) =~= escape(cs) + seq!['"']) by {
        assert forall|m: int| 0 <= m < escape(cs).len() + 1 implies s.subrange(i + 1, i + 1 + escape(cs).len() + 1)[m]
            == (escape(cs) + seq!['"'])[m] by {
            assert(s[i + 1 + m] == t[1 + m]);
        }
    }
    lemma_string_scan(s, i + 1, cs);
    assert(token_end(s, i) == i + escape(cs).len() + 2);
}

proof fn lemma_printed_shape(d: Datum, nt: spec_fn(u32) -> Seq<char>)
    ensures
        d is Quoted ==> printed(d, nt) == seq!['\''] + printed(*d->Quoted_0, nt),
        d is Pair && char_list(d) is Some ==> printed(d, nt) == seq!['"'] + escape(char_list(d)->0) + seq!['"'],
        d is Pair && char_list(d) is None ==> printed(d, nt) == seq!['('] + render(show_items(d), nt) + seq![')'],
        d is Nil ==> printed(d, nt) == seq!['(', ')'],
        d is Number ==> printed(d, nt) == nt(d->Number_0),
        !(d is Quoted || d is Pair || d is Nil || d is Number) ==> show(d).len() == 1 && show(d)[0] is Text
            && printed(d, nt) == show(d)[0]->Text_0,
{
    match d {
        Datum::Quoted(x) => {
            lemma_render_concat(seq![Shown::Text(seq!['\''])], show(*x), nt);
            lemma_render_text(seq!['\''], nt);
        },
        Datum::Pair(_, _) => {
            match char_list(d) {
                Some(cs) => {
                    lemma_render_text(seq!['"'] + escape(cs) + seq!['"'], nt);
                },
                None => {
                    let a = seq![Shown::Text(seq!['('])];
                    let b = show_items(d);
                    let c = seq![Shown::Text(seq![')'])];
                    lemma_render_concat(a + b, c, nt);
                    lemma_render_concat(a, b, nt);
                    lemma_render_text(seq!['('], nt);
                    lemma_render_text(seq![')'], nt);
                },
            }
        },
        Datum::Number(n) => {
            let p = seq![Shown::Number(n)];
            assert(p.drop_first() =~= Seq::<Shown>::empty());
            assert(render(p.drop_first(), nt) == Seq::<char>::empty());
            assert(nt(n) + Seq::<char>::empty() =~= nt(n));
        },
        _ => {
            lemma_render_text(show(d)[0]->Text_0, nt);
        },
    }
}

/// The tokenizer splits a printed value's text, wherever it stands and
/// followed by a delimiter or nothing, into the printed value's tokens.
proof fn lemma_tokens_printed(d: Datum, nt: spec_fn(u32) -> Seq<char>, pre: Seq<char>, post: Seq<char>)
    requires
        text_safe(d),
        numbers_written_plainly(nt),
        post.len() == 0 || is_delim(post[0]),
    ensures
        tokens_from(pre + printed(d, nt) + post, pre.len() as int) == texts(print_tokens(d, nt)) + tokens_from(
            pre + printed(d, nt) + post,
            (pre.len() + printed(d, nt).len()) as int,
        ),
    decreases d, 1int,
{
    let p = printed(d, nt);
    let s = pre + p + post;
    let i = pre.len() as int;
    let e = (pre.len() + p.len()) as int;
    lemma_printed_shape(d, nt);
    if d is Nil {
        assert(s[i] == '(');
        assert(s[i + 1] == ')');
        lemma_tok_single(s, i);
        lemma_tok_single(s, i + 1);
        assert(texts(print_tokens(d, nt)) =~= seq![seq!['('], seq![')']]);
        assert(tokens_from(s, i) =~= texts(print_tokens(d, nt)) + tokens_from(s, e));
    } else if d is Quoted {
        let x = *d->Quoted_0;
        let pre2 = pre + seq!['\''];
        assert(s[i] == '\'');
        lemma_tok_single(s, i);
        assert(s =~= pre2 + printed(x, nt) + post);
        lemma_tokens_printed(x, nt, pre2, post);
        assert(texts(print_tokens(d, nt)) =~= seq![seq!['\'']] + texts(print_tokens(x, nt)));
        assert(tokens_from(s, i) =~= texts(print_tokens(d, nt)) + tokens_from(s, e));
    } else if d is Pair && char_list(d) is Some {
        let cs = char_list(d)->0;
        assert(s.subrange(i, i + escape(cs).len() + 2) =~= p);
        lemma_tok_string(s, i, cs);
        assert(texts(print_tokens(d, nt)) =~= seq![p]);
    } else if d is Pair {
        let ri = render(show_items(d), nt);
        let pre2 = pre + seq!['('];
        let post2 = seq![')'] + post;
        assert(s[i] == '(');
        lemma_tok_single(s, i);
        assert(s =~= pre2 + ri + post2);
        lemma_tokens_items(d, nt, pre2, post2);
        let k = i + 1 + ri.len();
        assert(s[k] == ')');
        lemma_tok_single(s, k);
        assert(texts(print_tokens(d, nt)) =~= seq![seq!['(']] + texts(print_item_tokens(d, nt)) + seq![seq![')']]);
        assert(tokens_from(s, i) =~= texts(print_tokens(d, nt)) + tokens_from(s, e));
    } else {
        assert(plain(p)) by {
            if d is Character {
                assert(p =~= seq!['\\', d->Character_0]);
            }
            if d is Number {
                assert(plain(nt(d->Number_0)));
            }
        }
        assert(s.subrange(i, i + p.len()) =~= p);
        if post.len() > 0 {
            assert(s[i + p.len()] == post[0]);
        }
        lemma_tok_atom(s, i, p);
        assert(texts(print_tokens(d, nt)) =~= seq![p]);
    }
}

/// The same for a list's items, followed by the closing parenthesis.
proof fn lemma_tokens_items(d: Datum, nt: spec_fn(u32) -> Seq<char>, pre: Seq<char>, post: Seq<char>)
    requires
        d is Pair,
        text_safe_items(d),
        numbers_written_plainly(nt),
        post.len() > 0,
        post[0] == ')',
    ensures
        tokens_from(pre + render(show_items(d), nt) + post, pre.len() as int) == texts(print_item_tokens(d, nt))
            + tokens_from(pre + render(show_items(d), nt) + post, (pre.len() + render(show_items(d), nt).len()) as int),
    decreases d, 0int,
{
    let ri = render(show_items(d), nt);
    let s = pre + ri + post;
    let i = pre.len() as int;
    let e = (pre.len() + ri.len()) as int;
    match d {
        Datum::Pair(h, t) => {
            let ph = printed(*h, nt);
            let tail_shown = match *t {
                Datum::Nil => Seq::<Shown>::empty(),
                Datum::Pair(_, _) => seq![Shown::Text(seq![' '])] + show_items(*t),
                _ => seq![Shown::Text(seq![' ', '.', ' '])] + show(*t),
            };
            assert(show_items(d) == show(*h) + tail_shown);
            lemma_render_concat(show(*h), tail_shown, nt);
            let rt = render(tail_shown, nt);
            assert(ri == ph + rt);
            let j = i + ph.len();
            match *t {
                Datum::Nil => {
                    assert(rt == Seq::<char>::empty());
                    assert(s =~= pre + ph + post);
                    lemma_tokens_printed(*h, nt, pre, post);
                    assert(texts(print_item_tokens(d, nt)) =~= texts(print_tokens(*h, nt)));
                },
                Datum::Pair(_, _) => {
                    let rtt = render(show_items(*t), nt);
                    lemma_render_concat(seq![Shown::Text(seq![' '])], show_items(*t), nt);
                    lemma_render_text(seq![' '], nt);
                    assert(rt == seq![' '] + rtt);
                    assert(s =~= pre + ph + (rt + post));
                    assert((rt + post)[0] == ' ');
                    lemma_tokens_printed(*h, nt, pre, rt + post);
                    assert(s[j] == ' ');
                    lemma_tok_space(s, j);
                    let pre2 = pre + ph + seq![' '];
                    assert(s =~= pre2 + rtt + post);
                    lemma_tokens_items(*t, nt, pre2, post);
                    assert(texts(print_item_tokens(d, nt)) =~= texts(print_tokens(*h, nt)) + texts(print_item_tokens(*t, nt)));
                    assert(tokens_from(s, i) =~= texts(print_item_tokens(d, nt)) + tokens_from(s, e));
                },
                _ => {
                    let pt = printed(*t, nt);
                    lemma_render_concat(seq![Shown::Text(seq![' ', '.', ' '])], show(*t), nt);
                    lemma_render_text(seq![' ', '.', ' '], nt);
                    assert(rt == seq![' ', '.', ' '] + pt);
                    assert(s =~= pre + ph + (rt + post));
                    assert((rt + post)[0] == ' ');
                    lemma_tokens_printed(*h, nt, pre, rt + post);
                    assert(s[j] == ' ');
                    lemma_tok_space(s, j);
                    assert(s.subrange(j + 1, j + 2) =~= seq!['.']);
                    assert(s[j + 2] == ' ');
                    lemma_tok_atom(s, j + 1, seq!['.']);
                    lemma_tok_space(s, j + 2);
                    let pre2 = pre + ph + seq![' ', '.', ' '];
                    assert(s =~= pre2 + pt + post);
                    lemma_tokens_printed(*t, nt, pre2, post);
                    assert(texts(print_item_tokens(d, nt)) =~= texts(print_tokens(*h, nt)) + seq![seq!['.']] + texts(
                        print_tokens(*t, nt),
                    ));
                    assert(tokens_from(s, i) =~= texts(print_item_tokens(d, nt)) + tokens_from(s, e));
                },
            }
        },
        _ => {},
    }
}

/// The only tokens of a printed value that denote numbers are its numbers,
/// written by `nt`.
proof fn lemma_number_tokens(d: Datum, nt: spec_fn(u32) -> Seq<char>)
    ensures
        forall|k: int|
            0 <= k < print_tokens(d, nt).len() && (#[trigger] print_tokens(d, nt)[k]).1 is Some ==> print_tokens(d, nt)[k].0
                == nt(print_tokens(d, nt)[k].1->0),
    decreases d, 1int,
{
    let pt = print_tokens(d, nt);
    match d {
        Datum::Quoted(x) => {
            lemma_number_tokens(*x, nt);
            assert forall|k: int| 0 <= k < pt.len() && (#[trigger] pt[k]).1 is Some implies pt[k].0 == nt(pt[k].1->0) by {
                if k > 0 {
                    assert(pt[k] == print_tokens(*x, nt)[k - 1]);
                }
            }
        },
        Datum::Pair(_, _) => {
            if char_list(d) is None {
                lemma_number_item_tokens(d, nt);
                let it = print_item_tokens(d, nt);
                assert forall|k: int| 0 <= k < pt.len() && (#[trigger] pt[k]).1 is Some implies pt[k].0 == nt(pt[k].1->0) by {
                    if 0 < k < pt.len() - 1 {
                        assert(pt[k] == it[k - 1]);
                    }
                }
            }
        },
        _ => {},
    }
}

proof fn lemma_number_item_tokens(d: Datum, nt: spec_fn(u32) -> Seq<char>)
    ensures
        forall|k: int|
            0 <= k < print_item_tokens(d, nt).len() && (#[trigger] print_item_tokens(d, nt)[k]).1 is Some
                ==> print_item_tokens(d, nt)[k].0 == nt(print_item_tokens(d, nt)[k].1->0),
    decreases d, 0int,
{
    let it = print_item_tokens(d, nt);
    match d {
        Datum::Pair(h, t) => {
            let ph = print_tokens(*h, nt);
            lemma_number_tokens(*h, nt);
            let rest = match *t {
                Datum::Nil => Seq::<Tok>::empty(),
                Datum::Pair(_, _) => print_item_tokens(*t, nt),
                _ => seq![tok(seq!['.'])] + print_tokens(*t, nt),
            };
            assert(it == ph + rest);
            match *t {
                Datum::Nil => {},
                Datum::Pair(_, _) => {
                    lemma_number_item_tokens(*t, nt);
                },
                _ => {
                    lemma_number_tokens(*t, nt);
                },
            }
            assert forall|k: int| 0 <= k < it.len() && (#[trigger] it[k]).1 is Some implies it[k].0 == nt(it[k].1->0) by {
                if k < ph.len() {
                    assert(it[k] == ph[k]);
                } else {
                    assert(it[k] == rest[k - ph.len()]);
                    match *t {
                        Datum::Nil => {},
                        Datum::Pair(_, _) => {},
                        _ => {
                            if k - ph.len() > 0 {
                                assert(rest[k - ph.len()] == print_tokens(*t, nt)[k - ph.len() - 1]);
                            }
                        },
                    }
                }
            }
        },
        _ => {},
    }
}

/// Every value the reader makes is of a shape that prints and reads back.
pub proof fn lemma_reader_output_readable(ts: Seq<Tok>)
    ensures
        read_tokens(ts) matches Ok(ds) ==> forall|k: int| 0 <= k < ds.len() ==> readable(#[trigger] ds[k]),
{
    lemma_program_readable(ts, 0);
}

/// Printing and reading back, on text: the printed text of a readable
/// value, split into tokens and each token given the number `num` reads in
/// it, reads back as the value. This asks that the value's atoms print as
/// plain atoms (no white space or parenthesis in a symbol, or in a
/// character outside a string), and that `num` reads back the numbers `nt`
/// writes and finds no number in the other tokens of the printed value.
pub proof fn lemma_text_round_trip(d: Datum, nt: spec_fn(u32) -> Seq<char>, num: spec_fn(Seq<char>) -> Option<u32>)
    requires
        readable(d),
        text_safe(d),
        numbers_written_plainly(nt),
        forall|n: u32| num(#[trigger] nt(n)) == Some(n),
        forall|k: int|
            0 <= k < print_tokens(d, nt).len() && (#[trigger] print_tokens(d, nt)[k]).1 is None ==> num(
                print_tokens(d, nt)[k].0,
            ) is None,
    ensures
        read_tokens(tokens(printed(d, nt)).map_values(|t: Seq<char>| (t, num(t)))) == Ok::<Seq<Datum>, crate::reader::ParseFault>(
            seq![d],
        ),
{
    let p = printed(d, nt);
    let pt = print_tokens(d, nt);
    lemma_tokens_printed(d, nt, Seq::empty(), Seq::empty());
    assert(Seq::<char>::empty() + p + Seq::<char>::empty() =~= p);
    assert(tokens_from(p, p.len() as int) == Seq::<Seq<char>>::empty());
    assert(tokens(p) =~= texts(pt));
    lemma_number_tokens(d, nt);
    assert(tokens(p).map_values(|t: Seq<char>| (t, num(t))) =~= pt) by {
        assert forall|k: int| 0 <= k < pt.len() implies tokens(p).map_values(|t: Seq<char>| (t, num(t)))[k] == pt[k] by {
            assert(tokens(p)[k] == pt[k].0);
            if pt[k].1 is Some {
                assert(pt[k].0 == nt(pt[k].1->0));
            }
        }
    }
    assert(numbers_plain(nt));
    lemma_round_trip(d, nt);
}

} // verus!
