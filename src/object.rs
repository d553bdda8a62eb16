use std::rc::Rc;
use vstd::prelude::*;

verus! {

/// The native functions: the interpreter's own special forms and builtins, and
/// host callbacks, each named by the number the host registered it under.
#[derive(Clone, Copy, Debug, PartialEq, Eq, Structural)]
pub enum Native {
    Quote,
    Eval,
    While,
    If,
    Func,
    Car,
    Cdr,
    Cons,
    Assign,
    Define,
    Defunc,
    Equal,
    NotEqual,
    Host(u64),
}

/// The single value type of the language.
///
/// A number is a single-precision IEEE-754 value, held as its bit pattern.
/// An interpreted function holds its parameter list (a list of symbols)
/// and its body, a proper list of forms. Host payloads are held as a
/// handle the host hands out.
#[derive(Debug)]
pub enum Object {
    Nil,
    True,
    Pair(Rc<Object>, Rc<Object>),
    Symbol(String),
    Number(u32),
    Character(char),
    Quoted(Rc<Object>),
    LispFunc(Rc<Object>, Rc<Object>),
    RustFunc(Native),
    RustType(u64),
}

/// The mathematical value of an `Object`: the same tree, with text as
/// sequences of characters.
pub enum Datum {
    Nil,
    True,
    Pair(Box<Datum>, Box<Datum>),
    Symbol(Seq<char>),
    Number(u32),
    Character(char),
    Quoted(Box<Datum>),
    LispFunc(Box<Datum>, Box<Datum>),
    RustFunc(Native),
    RustType(u64),
}

pub open spec fn names_of(v: Seq<String>) -> Seq<Seq<char>> {
    v.map_values(|s: String| s@)
}

/// The value of an object.
pub open spec fn datum(o: Object) -> Datum
    decreases o,
{
    match o {
        Object::Nil => Datum::Nil,
        Object::True => Datum::True,
        Object::Pair(a, b) => Datum::Pair(Box::new(datum(*a)), Box::new(datum(*b))),
        Object::Symbol(s) => Datum::Symbol(s@),
        Object::Number(n) => Datum::Number(n),
        Object::Character(c) => Datum::Character(c),
        Object::Quoted(a) => Datum::Quoted(Box::new(datum(*a))),
        Object::LispFunc(ps, body) => Datum::LispFunc(Box::new(datum(*ps)), Box::new(datum(*body))),
        Object::RustFunc(f) => Datum::RustFunc(f),
        Object::RustType(h) => Datum::RustType(h),
    }
}

/// The values of a sequence of shared objects.
pub open spec fn data(v: Seq<Rc<Object>>) -> Seq<Datum> {
    v.map_values(|o: Rc<Object>| datum(*o))
}

/// The heads along a chain of pairs, as shared objects.
pub open spec fn items(o: Object) -> Seq<Rc<Object>>
    decreases o,
{
    match o {
        Object::Pair(h, t) => seq![h] + items(*t),
        _ => Seq::empty(),
    }
}

/// A chain of pairs that ends in `Nil`.
pub open spec fn is_proper(d: Datum) -> bool
    decreases d,
{
    match d {
        Datum::Nil => true,
        Datum::Pair(_, t) => is_proper(*t),
        _ => false,
    }
}

/// The heads along a chain of pairs, up to its end.
pub open spec fn elems(d: Datum) -> Seq<Datum>
    decreases d,
{
    match d {
        Datum::Pair(h, t) => seq![*h] + elems(*t),
        _ => Seq::empty(),
    }
}

/// What a chain of pairs ends in: `Nil` for a proper list.
pub open spec fn list_end(d: Datum) -> Datum
    decreases d,
{
    match d {
        Datum::Pair(_, t) => list_end(*t),
        _ => d,
    }
}

/// The proper list of the given elements.
pub open spec fn list_of(s: Seq<Datum>) -> Datum
    decreases s.len(),
{
    if s.len() == 0 {
        Datum::Nil
    } else {
        Datum::Pair(Box::new(s[0]), Box::new(list_of(s.drop_first())))
    }
}

pub open spec fn char_datum(c: char) -> Datum {
    Datum::Character(c)
}

/// The characters, each as a value.
pub open spec fn chars_data(s: Seq<char>) -> Seq<Datum> {
    s.map_values(|c: char| char_datum(c))
}

/// The list of the given characters: how a string is held.
pub open spec fn string_datum(s: Seq<char>) -> Datum {
    list_of(chars_data(s))
}

/// The characters of a proper list of characters, if it is one.
pub open spec fn char_list(d: Datum) -> Option<Seq<char>>
    decreases d,
{
    match d {
        Datum::Nil => Some(Seq::empty()),
        Datum::Pair(h, t) => match *h {
            Datum::Character(c) => match char_list(*t) {
                Some(rest) => Some(seq![c] + rest),
                None => None,
            },
            _ => None,
        },
        _ => None,
    }
}

/// The bit pattern is an IEEE-754 single-precision NaN.
pub open spec fn is_nan(b: u32) -> bool {
    b & 0x7fff_ffffu32 > 0x7f80_0000u32
}

/// The bit pattern is a zero of either sign.
pub open spec fn is_zero(b: u32) -> bool {
    b & 0x7fff_ffffu32 == 0
}

/// IEEE-754 equality of two single-precision values given by their bits:
/// NaN equals nothing, and the two zeros are equal.
pub open spec fn float_eq(a: u32, b: u32) -> bool {
    !is_nan(a) && !is_nan(b) && (a == b || (is_zero(a) && is_zero(b)))
}

/// Structural equality of values; functions and host payloads equal nothing.
pub open spec fn datum_eq(a: Datum, b: Datum) -> bool
    decreases a,
{
    match a {
        Datum::Nil => b is Nil,
        Datum::True => b is True,
        Datum::Pair(h1, t1) => match b {
            Datum::Pair(h2, t2) => datum_eq(*h1, *h2) && datum_eq(*t1, *t2),
            _ => false,
        },
        Datum::Symbol(s1) => match b {
            Datum::Symbol(s2) => s1 == s2,
            _ => false,
        },
        Datum::Number(n1) => match b {
            Datum::Number(n2) => float_eq(n1, n2),
            _ => false,
        },
        Datum::Character(c1) => match b {
            Datum::Character(c2) => c1 == c2,
            _ => false,
        },
        Datum::Quoted(a1) => match b {
            Datum::Quoted(a2) => datum_eq(*a1, *a2),
            _ => false,
        },
        _ => false,
    }
}

pub fn number_eq(a: u32, b: u32) -> (r: bool)
    ensures
        r == float_eq(a, b),
{
    let ma = a & 0x7fff_ffffu32;
    let mb = b & 0x7fff_ffffu32;
    ma <= 0x7f80_0000u32 && mb <= 0x7f80_0000u32 && (a == b || (ma == 0 && mb == 0))
}

/// One step of `datum`, as a fact to call on values whose type the
/// solver does not track.
pub proof fn lemma_datum_unfold(o: Object)
    ensures
        datum(o) == match o {
            Object::Nil => Datum::Nil,
            Object::True => Datum::True,
            Object::Pair(a, b) => Datum::Pair(Box::new(datum(*a)), Box::new(datum(*b))),
            Object::Symbol(s) => Datum::Symbol(s@),
            Object::Number(n) => Datum::Number(n),
            Object::Character(c) => Datum::Character(c),
            Object::Quoted(a) => Datum::Quoted(Box::new(datum(*a))),
            Object::LispFunc(ps, body) => Datum::LispFunc(Box::new(datum(*ps)), Box::new(datum(*body))),
            Object::RustFunc(f) => Datum::RustFunc(f),
            Object::RustType(h) => Datum::RustType(h),
        },
{
}

/// `lemma_datum_unfold` for a shared object.
pub proof fn lemma_rc_unfold(o: Rc<Object>)
    ensures
        datum(*o) == match *o {
            Object::Nil => Datum::Nil,
            Object::True => Datum::True,
            Object::Pair(a, b) => Datum::Pair(Box::new(datum(*a)), Box::new(datum(*b))),
            Object::Symbol(s) => Datum::Symbol(s@),
            Object::Number(n) => Datum::Number(n),
            Object::Character(c) => Datum::Character(c),
            Object::Quoted(a) => Datum::Quoted(Box::new(datum(*a))),
            Object::LispFunc(ps, body) => Datum::LispFunc(Box::new(datum(*ps)), Box::new(datum(*body))),
            Object::RustFunc(f) => Datum::RustFunc(f),
            Object::RustType(h) => Datum::RustType(h),
        },
{
}

/// Structural equality of two objects, as `datum_eq` states it.
pub fn objects_equal(o: &Object, other: &Object) -> (r: bool)
    ensures
        r == datum_eq(datum(*o), datum(*other)),
    decreases *o,
{
    proof {
        lemma_datum_unfold(*o);
        lemma_datum_unfold(*other);
    }
    match o {
        Object::Nil => matches!(other, Object::Nil),
        Object::True => matches!(other, Object::True),
        Object::Pair(h1, t1) => match other {
            Object::Pair(h2, t2) => {
                assert(datum(*o) == Datum::Pair(Box::new(datum(**h1)), Box::new(datum(**t1))));
                assert(datum(*other) == Datum::Pair(Box::new(datum(**h2)), Box::new(datum(**t2))));
                objects_equal(&**h1, &**h2) && objects_equal(&**t1, &**t2)
            },
            _ => false,
        },
        Object::Symbol(s1) => match other {
            Object::Symbol(s2) => s1.eq(s2),
            _ => false,
        },
        Object::Number(n1) => match other {
            Object::Number(n2) => number_eq(*n1, *n2),
            _ => false,
        },
        Object::Character(c1) => match other {
            Object::Character(c2) => *c1 == *c2,
            _ => false,
        },
        Object::Quoted(a1) => match other {
            Object::Quoted(a2) => {
                assert(datum(*o) == Datum::Quoted(Box::new(datum(**a1))));
                assert(datum(*other) == Datum::Quoted(Box::new(datum(**a2))));
                objects_equal(&**a1, &**a2)
            },
            _ => false,
        },
        _ => false,
    }
}

impl PartialEq for Object {
    fn eq(&self, other: &Object) -> (r: bool)
        ensures
            r == datum_eq(datum(*self), datum(*other)),
    {
        objects_equal(self, other)
    }
}

impl vstd::std_specs::cmp::PartialEqSpecImpl for Object {
    open spec fn obeys_eq_spec() -> bool {
        true
    }

    open spec fn eq_spec(&self, other: &Object) -> bool {
        datum_eq(datum(*self), datum(*other))
    }
}

/// Relies on String::push: the character is appended.
pub assume_specification[ String::push ](s: &mut String, ch: char)
    ensures
        final(s)@ == old(s)@.push(ch),
;

/// The characters of a string.
pub fn chars_of(s: &str) -> (r: Vec<char>)
    ensures
        r@ == s@,
{
    let mut v: Vec<char> = Vec::new();
    for c in it: s.chars()
        invariant
            it.seq() == s@,
            v@ == s@.take(it.index() as int),
    {
        v.push(c);
    }
    assert(v@ == s@.take(s@.len() as int));
    v
}

/// The string of the given characters.
pub fn string_of(v: &Vec<char>) -> (r: String)
    ensures
        r@ == v@,
{
    let mut s = String::new();
    let mut i: usize = 0;
    while i < v.len()
        invariant
            i <= v.len(),
            s@ == v@.take(i as int),
        decreases v.len() - i,
    {
        s.push(v[i]);
        i = i + 1;
        assert(s@ == v@.take(i as int));
    }
    assert(v@.take(v@.len() as int) == v@);
    s
}

impl Object {
    /// The proper list of the given objects, in order.
    pub fn array_to_pair_list(array: Vec<Rc<Object>>) -> (r: Object)
        ensures
            datum(r) == list_of(data(array@)),
    {
        let mut ret = Object::Nil;
        let mut i: usize = array.len();
        while i > 0
            invariant
                i <= array.len(),
                datum(ret) == list_of(data(array@).skip(i as int)),
            decreases i,
        {
            i = i - 1;
            let ghost d = data(array@);
            assert(d.skip(i as int).drop_first() == d.skip(i as int + 1));
            ret = Object::Pair(array[i].clone(), Rc::new(ret));
        }
        assert(data(array@).skip(0) == data(array@));
        ret
    }

    /// The list of characters that holds a string.
    pub fn string_to_lisp_string(string: &str) -> (r: Self)
        ensures
            datum(r) == string_datum(string@),
    {
        let chars = chars_of(string);
        chars_to_list(&chars)
    }

    /// The string that a proper list of characters holds; `Err` for any other object.
    pub fn pair_list_to_string(&self) -> (r: Result<String, ()>)
        ensures
            char_list(datum(*self)) is Some <==> r is Ok,
            r is Ok ==> r->Ok_0@ == char_list(datum(*self))->0,
    {
        let mut chars: Vec<char> = Vec::new();
        if collect_chars(self, &mut chars) {
            assert(chars@ =~= char_list(datum(*self))->0);
            Ok(string_of(&chars))
        } else {
            Err(())
        }
    }
}

/// The list of the given characters.
pub fn chars_to_list(chars: &Vec<char>) -> (r: Object)
    ensures
        datum(r) == string_datum(chars@),
{
    let mut ret = Object::Nil;
    let mut i: usize = chars.len();
    while i > 0
        invariant
            i <= chars.len(),
            datum(ret) == string_datum(chars@.skip(i as int)),
        decreases i,
    {
        i = i - 1;
        let c = chars[i];
        let ghost prev = datum(ret);
        let head = Object::Character(c);
        proof {
            lemma_datum_unfold(head);
        }
        let tail = Rc::new(ret);
        ret = Object::Pair(Rc::new(head), tail);
        assert(datum(ret) == Datum::Pair(Box::new(char_datum(c)), Box::new(prev)));
        assert(datum(ret) == string_datum(chars@.skip(i as int))) by {
            let d = chars_data(chars@.skip(i as int));
            assert(d.drop_first() =~= chars_data(chars@.skip(i as int + 1)));
            assert(d[0] == char_datum(c));
            assert(list_of(d) == Datum::Pair(Box::new(d[0]), Box::new(list_of(d.drop_first()))));
        }
    }
    assert(chars@.skip(0) == chars@);
    ret
}

/// Appends the characters of a proper list of characters; false for any
/// other object.
pub fn collect_chars(o: &Object, out: &mut Vec<char>) -> (r: bool)
    ensures
        r == (char_list(datum(*o)) is Some),
        r ==> final(out)@ == old(out)@ + char_list(datum(*o))->0,
    decreases *o,
{
    match o {
        Object::Nil => {
            assert(old(out)@ + Seq::<char>::empty() =~= old(out)@);
            true
        },
        Object::Pair(a, b) => {
            assert(datum(*o) == Datum::Pair(Box::new(datum(**a)), Box::new(datum(**b))));
            match &**a {
                Object::Character(c) => {
                    assert(datum(**a) == Datum::Character(*c));
                    out.push(*c);
                    let ok = collect_chars(&**b, out);
                    proof {
                        if ok {
                            assert(char_list(datum(*o))->0 == seq![*c] + char_list(datum(**b))->0);
                            assert(final(out)@ =~= old(out)@ + char_list(datum(*o))->0);
                        }
                    }
                    ok
                },
                _ => false,
            }
        },
        _ => false,
    }
}

} // verus!
