//! The printed form of objects. Numbers are left as pieces of their own:
//! writing a float in decimal is the host's part.
use vstd::prelude::*;

use crate::object::{char_list, datum, lemma_rc_unfold, string_of, Datum, Object};

verus! {

/// A piece of printed text: literal text, or a number still to be written.
#[derive(Debug, PartialEq)]
pub enum Piece {
    Text(String),
    Number(u32),
}

/// The value of a piece.
pub enum Shown {
    Text(Seq<char>),
    Number(u32),
}

pub open spec fn shown(p: Piece) -> Shown {
    match p {
        Piece::Text(s) => Shown::Text(s@),
        Piece::Number(n) => Shown::Number(n),
    }
}

pub open spec fn shown_all(v: Seq<Piece>) -> Seq<Shown> {
    v.map_values(|p: Piece| shown(p))
}

pub open spec fn text(s: Seq<char>) -> Seq<Shown> {
    seq![Shown::Text(s)]
}

/// How a character of a string is written inside double quotes.
pub open spec fn escape_char(c: char) -> Seq<char> {
    if c == '\\' {
        seq!['\\', '\\']
    } else if c == '"' {
        seq!['\\', '"']
    } else if c == '\t' {
        seq!['\\', 't']
    } else if c == '\r' {
        seq!['\\', 'r']
    } else if c == '\n' {
        seq!['\\', 'n']
    } else if c == '\0' {
        seq!['\\', '0']
    } else {
        seq![c]
    }
}

/// The characters of a string, escaped.
pub open spec fn escape(s: Seq<char>) -> Seq<char>
    decreases s.len(),
{
    if s.len() == 0 {
        s
    } else {
        escape_char(s[0]) + escape(s.skip(1))
    }
}

/// The printed form of a value: lists in parentheses, a dotted tail after
/// ` . `, a proper list of characters as a double-quoted string, a
/// character as `\c`, a quoted value after `'`, `Nil` as `()`, the truth
/// as `t`; functions and host payloads as opaque references that do not
/// read back.
pub open spec fn show(d: Datum) -> Seq<Shown>
    decreases d, 1int,
{
    match d {
        Datum::Nil => text(seq!['(', ')']),
        Datum::True => text(seq!['t']),
        Datum::Symbol(s) => text(s),
        Datum::Number(n) => seq![Shown::Number(n)],
        Datum::Character(c) => text(seq!['\\', c]),
        Datum::Quoted(x) => text(seq!['\'']) + show(*x),
        Datum::Pair(_, _) => match char_list(d) {
            Some(cs) => text(seq!['"'] + escape(cs) + seq!['"']),
            None => text(seq!['(']) + show_items(d) + text(seq![')']),
        },
        Datum::LispFunc(_, _) => text(seq!['#', '<', 'f', 'u', 'n', 'c', '>']),
        Datum::RustFunc(_) => text(seq!['#', '<', 'n', 'a', 't', 'i', 'v', 'e', '>']),
        Datum::RustType(_) => text(seq!['#', '<', 'o', 'p', 'a', 'q', 'u', 'e', '>']),
    }
}

/// The elements of a list, apart, and its dotted tail, if any.
pub open spec fn show_items(d: Datum) -> Seq<Shown>
    decreases d, 0int,
{
    match d {
        Datum::Pair(h, t) => show(*h) + match *t {
            Datum::Nil => Seq::empty(),
            Datum::Pair(_, _) => text(seq![' ']) + show_items(*t),
            _ => text(seq![' ', '.', ' ']) + show(*t),
        },
        _ => Seq::empty(),
    }
}

fn push_text(out: &mut Vec<Piece>, v: Vec<char>)
    ensures
        shown_all(final(out)@) == shown_all(old(out)@) + text(v@),
{
    let s = string_of(&v);
    out.push(Piece::Text(s));
    assert(shown_all(out@) =~= shown_all(old(out)@) + text(v@));
}

fn escape_all(cs: &Vec<char>) -> (r: Vec<char>)
    ensures
        r@ == escape(cs@),
{
    let mut out: Vec<char> = Vec::new();
    let mut k: usize = 0;
    assert(cs@.skip(0) =~= cs@);
    while k < cs.len()
        invariant
            k <= cs.len(),
            out@ + escape(cs@.skip(k as int)) == escape(cs@),
        decreases cs.len() - k,
    {
        let c = cs[k];
        let ghost before = out@;
        assert(cs@.skip(k as int).skip(1) =~= cs@.skip(k + 1));
        assert(escape(cs@.skip(k as int)) == escape_char(c) + escape(cs@.skip(k + 1)));
        if c == '\\' {
            out.push('\\');
            out.push('\\');
        } else if c == '"' {
            out.push('\\');
            out.push('"');
        } else if c == '\t' {
            out.push('\\');
            out.push('t');
        } else if c == '\r' {
            out.push('\\');
            out.push('r');
        } else if c == '\n' {
            out.push('\\');
            out.push('n');
        } else if c == '\0' {
            out.push('\\');
            out.push('0');
        } else {
            out.push(c);
        }
        assert(out@ =~= before + escape_char(c));
        assert(out@ + escape(cs@.skip(k + 1)) =~= before + escape(cs@.skip(k as int)));
        k = k + 1;
    }
    assert(cs@.skip(cs@.len() as int) =~= Seq::<char>::empty());
    assert(out@ + escape(Seq::<char>::empty()) =~= out@);
    out
}

fn write_pieces(o: &Object, out: &mut Vec<Piece>)
    ensures
        shown_all(final(out)@) == shown_all(old(out)@) + show(datum(*o)),
    decreases *o, 1int,
{
    proof {
        crate::object::lemma_datum_unfold(*o);
    }
    match o {
        Object::Nil => {
            let v = vec!['(', ')'];
            assert(v@ == seq!['(', ')']);
            push_text(out, v);
        },
        Object::True => {
            let v = vec!['t'];
            assert(v@ == seq!['t']);
            push_text(out, v);
        },
        Object::Symbol(s) => {
            out.push(Piece::Text(s.clone()));
            assert(shown_all(out@) =~= shown_all(old(out)@) + show(datum(*o)));
        },
        Object::Number(n) => {
            out.push(Piece::Number(*n));
            assert(shown_all(out@) =~= shown_all(old(out)@) + show(datum(*o)));
        },
        Object::Character(c) => {
            let v = vec!['\\', *c];
            assert(v@ == seq!['\\', *c]);
            push_text(out, v);
        },
        Object::Quoted(x) => {
            let v = vec!['\''];
            assert(v@ == seq!['\'']);
            push_text(out, v);
            let ghost mid = shown_all(out@);
            write_pieces(&**x, out);
            assert(mid == shown_all(old(out)@) + text(seq!['\'']));
            assert(show(datum(*o)) == text(seq!['\'']) + show(datum(**x)));
            assert(mid + show(datum(**x)) =~= shown_all(old(out)@) + (text(seq!['\'']) + show(datum(**x))));
        },
        Object::Pair(_, _) => {
            let mut cs: Vec<char> = Vec::new();
            if crate::object::collect_chars(o, &mut cs) {
                let e = escape_all(&cs);
                let mut t: Vec<char> = Vec::new();
                t.push('"');
                let mut k: usize = 0;
                while k < e.len()
                    invariant
                        k <= e.len(),
                        t@ == seq!['"'] + e@.take(k as int),
                    decreases e.len() - k,
                {
                    t.push(e[k]);
                    k = k + 1;
                    assert(t@ =~= seq!['"'] + e@.take(k as int));
                }
                t.push('"');
                assert(t@ =~= seq!['"'] + escape(cs@) + seq!['"']);
                assert(cs@ =~= char_list(datum(*o))->0);
                push_text(out, t);
            } else {
                let v = vec!['('];
                assert(v@ == seq!['(']);
                push_text(out, v);
                let ghost a = shown_all(out@);
                write_items(o, out);
                let ghost b = shown_all(out@);
                let v = vec![')'];
                assert(v@ == seq![')']);
                push_text(out, v);
                assert(a == shown_all(old(out)@) + text(seq!['(']));
                assert(b == a + show_items(datum(*o)));
                assert(shown_all(out@) == b + text(seq![')']));
                assert(show(datum(*o)) == text(seq!['(']) + show_items(datum(*o)) + text(seq![')']));
                assert(shown_all(out@) =~= shown_all(old(out)@) + (text(seq!['(']) + show_items(datum(*o)) + text(seq![')'])));
            }
        },
        Object::LispFunc(_, _) => {
            let v = vec!['#', '<', 'f', 'u', 'n', 'c', '>'];
            assert(v@ == seq!['#', '<', 'f', 'u', 'n', 'c', '>']);
            push_text(out, v);
        },
        Object::RustFunc(_) => {
            let v = vec!['#', '<', 'n', 'a', 't', 'i', 'v', 'e', '>'];
            assert(v@ == seq!['#', '<', 'n', 'a', 't', 'i', 'v', 'e', '>']);
            push_text(out, v);
        },
        Object::RustType(_) => {
            let v = vec!['#', '<', 'o', 'p', 'a', 'q', 'u', 'e', '>'];
            assert(v@ == seq!['#', '<', 'o', 'p', 'a', 'q', 'u', 'e', '>']);
            push_text(out, v);
        },
    }
}

fn write_items(o: &Object, out: &mut Vec<Piece>)
    ensures
        shown_all(final(out)@) == shown_all(old(out)@) + show_items(datum(*o)),
    decreases *o, 0int,
{
    proof {
        crate::object::lemma_datum_unfold(*o);
    }
    match o {
        Object::Pair(h, t) => {
            proof {
                lemma_rc_unfold(*t);
            }
            write_pieces(&**h, out);
            let ghost a = shown_all(out@);
            match &**t {
                Object::Nil => {
                    assert(shown_all(out@) =~= shown_all(old(out)@) + show_items(datum(*o)));
                },
                Object::Pair(_, _) => {
                    let v = vec![' '];
                    assert(v@ == seq![' ']);
                    push_text(out, v);
                    let ghost b = shown_all(out@);
                    write_items(&**t, out);
                    assert(b == a + text(seq![' ']));
                    assert(show_items(datum(*o)) == show(datum(**h)) + (text(seq![' ']) + show_items(datum(**t))));
                    assert(shown_all(out@) =~= shown_all(old(out)@) + show_items(datum(*o)));
                },
                _ => {
                    let v = vec![' ', '.', ' '];
                    assert(v@ == seq![' ', '.', ' ']);
                    push_text(out, v);
                    let ghost b = shown_all(out@);
                    write_pieces(&**t, out);
                    assert(b == a + text(seq![' ', '.', ' ']));
                    assert(show_items(datum(*o)) == show(datum(**h)) + (text(seq![' ', '.', ' ']) + show(datum(**t))));
                    assert(shown_all(out@) =~= shown_all(old(out)@) + show_items(datum(*o)));
                },
            }
        },
        _ => {
            assert(shown_all(out@) =~= shown_all(old(out)@) + show_items(datum(*o)));
        },
    }
}

impl Object {
    /// The printed form, in pieces: literal text, and numbers to be written
    /// in decimal.
    pub fn pieces(&self) -> (r: Vec<Piece>)
        ensures
            shown_all(r@) == show(datum(*self)),
    {
        let mut out: Vec<Piece> = Vec::new();
        write_pieces(self, &mut out);
        assert(shown_all(Seq::<Piece>::empty()) + show(datum(*self)) =~= show(datum(*self)));
        out
    }
}

} // verus!
