//! What evaluation does, as spec functions over the interpreter's state:
//! its local frames, its global table and its step budget. Where a host
//! function is called, the outcome is the host's and the functions here
//! give `None`.
use std::rc::Rc;
use vstd::prelude::*;

use crate::builtins::{all_symbols, chosen, half, second, symbol_texts, truth_of};
use crate::errors::{ArgumentsError, EvalError, LispError, RustFuncError};
use crate::lisp::{arg_check, args_error, assign, bind_map, first, lookup, quote_spec};
use crate::object::{datum, datum_eq, elems, is_proper, items, Datum, Native, Object};

verus! {

/// The interpreter's state: local frames (innermost last), global table,
/// steps left.
pub struct St {
    pub frames: Seq<Map<Seq<char>, Rc<Object>>>,
    pub globals: Map<Seq<char>, Rc<Object>>,
    pub budget: nat,
}

pub type Res = Result<Rc<Object>, LispError>;

pub type NRes = Result<Rc<Object>, RustFuncError>;

pub open spec fn nil() -> Rc<Object> {
    Rc::new(Object::Nil)
}

/// An error of a nested evaluation, as a native function returns it.
pub open spec fn nested(e: LispError) -> RustFuncError {
    RustFuncError::LispError(Box::new(e))
}

/// A native function's result, as a call returns it.
pub open spec fn wrap(r: NRes) -> Res {
    match r {
        Ok(x) => Ok(x),
        Err(e) => Err(LispError::rust_func_spec(e)),
    }
}

/// A native function's error for a malformed argument list.
pub open spec fn bad(e: ArgumentsError) -> NRes {
    Err(RustFuncError::InvalidArguments(e))
}

pub open spec fn push_frame(s: St) -> St {
    St { frames: s.frames.push(Map::empty()), globals: s.globals, budget: s.budget }
}

pub open spec fn pop_frame(s: St) -> St {
    if s.frames.len() > 0 {
        St { frames: s.frames.drop_last(), globals: s.globals, budget: s.budget }
    } else {
        s
    }
}

/// The tail of a list.
pub open spec fn rest(o: Object) -> Rc<Object> {
    match o {
        Object::Pair(_, t) => t,
        _ => nil(),
    }
}

/// The value of a symbol: `Nil` for the empty one, else its binding, else
/// `UnknownSymbol`.
pub open spec fn symbol_result(s: St, name: String) -> Res {
    if name@.len() == 0 {
        Ok(nil())
    } else {
        match lookup(s.frames, s.globals, name@) {
            Some(v) => Ok(v),
            None => Err(LispError::eval_spec(EvalError::UnknownSymbol(name))),
        }
    }
}

/// How `(func (params ...) body ...)` fails on its argument list, if it does.
pub open spec fn func_fault(args: Object) -> Option<ArgumentsError> {
    match arg_check(datum(args), 1, None, ArgumentsError::TooMany) {
        Some(e) => Some(e),
        None => {
            let p = datum(*first(args));
            if !(p is Pair || p is Nil) {
                Some(ArgumentsError::WrongType)
            } else if !is_proper(p) {
                Some(ArgumentsError::DottedPair)
            } else if !all_symbols(elems(p)) {
                Some(ArgumentsError::WrongType)
            } else {
                None
            }
        },
    }
}

/// What `(func (params ...) body ...)` returns: the function with that
/// parameter list and that body.
pub open spec fn func_result(args: Object) -> NRes {
    match func_fault(args) {
        Some(e) => bad(e),
        None => Ok(Rc::new(Object::LispFunc(first(args), rest(args)))),
    }
}

/// Evaluation of one object: a symbol to its value, a quotation to what it
/// quotes, a call by evaluating its head and calling that, anything else to
/// itself. Every evaluation takes one step; with none left it fails with
/// `StepLimit`.
pub open spec fn ev(s: St, o: Rc<Object>) -> Option<(St, Res)>
    decreases s.budget, 0int,
{
    if s.budget == 0 {
        Some((s, Err(LispError::eval_spec(EvalError::StepLimit))))
    } else {
        let s1 = St { frames: s.frames, globals: s.globals, budget: (s.budget - 1) as nat };
        match *o {
            Object::Pair(f, a) => match ev(s1, f) {
                None => None,
                Some((s2, Err(e))) => Some((s2, Err(e))),
                Some((s2, Ok(c))) => if s2.budget <= s1.budget {
                    call(s2, c, o, a)
                } else {
                    None
                },
            },
            Object::Symbol(n) => Some((s1, symbol_result(s1, n))),
            Object::Quoted(x) => Some((s1, Ok(x))),
            _ => Some((s1, Ok(o))),
        }
    }
}

/// A call `o`, with argument list `a`, whose head evaluated to `c`: a native
/// function runs on the unevaluated arguments, its error wrapped as a
/// native one; an interpreted function is applied; a character makes the
/// call its own value; anything else is `NonFunction`.
pub open spec fn call(s: St, c: Rc<Object>, o: Rc<Object>, a: Rc<Object>) -> Option<(St, Res)>
    decreases s.budget, 5int,
{
    match *c {
        Object::RustFunc(n) => match native(s, n, a) {
            None => None,
            Some((s2, r)) => Some((s2, wrap(r))),
        },
        Object::LispFunc(p, body) => apply(s, p, body, a),
        Object::Character(_) => Some((s, Ok(o))),
        _ => Some((s, Err(LispError::eval_spec(EvalError::NonFunction(o))))),
    }
}

/// Applying an interpreted function: a dotted argument list is
/// `DottedPair`; the arguments are evaluated left to right, the first
/// error stopping them; too few are `NotEnough`, more than the parameters
/// are left out; the body is evaluated in a fresh frame that binds the
/// parameters, under the global table alone; the caller's frames come back
/// as they were.
pub open spec fn apply(s: St, p: Rc<Object>, body: Rc<Object>, a: Rc<Object>) -> Option<(St, Res)>
    decreases s.budget, 2int,
{
    if !is_proper(datum(*a)) {
        Some((s, Err(args_error(ArgumentsError::DottedPair))))
    } else {
        match ev_args(s, items(*a), 0, Seq::empty()) {
            None => None,
            Some((s2, Err(e))) => Some((s2, Err(e))),
            Some((s2, Ok(vals))) => if s2.budget > s.budget {
                None
            } else if !(is_proper(datum(*p)) && all_symbols(elems(datum(*p)))) {
                Some((s2, Err(args_error(ArgumentsError::WrongType))))
            } else {
                let ps = symbol_texts(elems(datum(*p)));
                if vals.len() < ps.len() {
                    Some((s2, Err(args_error(ArgumentsError::NotEnough))))
                } else {
                    let s3 = St {
                        frames: seq![bind_map(ps, vals, ps.len())],
                        globals: s2.globals,
                        budget: s2.budget,
                    };
                    match ev_list(s3, body, nil()) {
                        None => None,
                        Some((s4, r)) => Some((St { frames: s2.frames, globals: s4.globals, budget: s4.budget }, r)),
                    }
                }
            },
        }
    }
}

/// The values of `xs[i..]`, evaluated in order after the values `acc`; the
/// first error stops them.
pub open spec fn ev_args(s: St, xs: Seq<Rc<Object>>, i: int, acc: Seq<Rc<Object>>) -> Option<(St, Result<Seq<Rc<Object>>, LispError>)>
    decreases s.budget, 1int,
{
    if i < 0 || i >= xs.len() {
        Some((s, Ok(acc)))
    } else {
        match ev(s, xs[i]) {
            None => None,
            Some((s2, Err(e))) => Some((s2, Err(e))),
            Some((s2, Ok(v))) => if s2.budget < s.budget {
                ev_args(s2, xs, i + 1, acc.push(v))
            } else {
                None
            },
        }
    }
}

/// Evaluates `xs[i..]` in order; the value of the last, or `last` where
/// there is none; the first error stops them.
pub open spec fn ev_seq(s: St, xs: Seq<Rc<Object>>, i: int, last: Rc<Object>) -> Option<(St, Res)>
    decreases s.budget, 1int,
{
    if i < 0 || i >= xs.len() {
        Some((s, Ok(last)))
    } else {
        match ev(s, xs[i]) {
            None => None,
            Some((s2, Err(e))) => Some((s2, Err(e))),
            Some((s2, Ok(v))) => if s2.budget < s.budget {
                ev_seq(s2, xs, i + 1, v)
            } else {
                None
            },
        }
    }
}

/// Evaluates the forms along a chain of pairs in order; the value of the
/// last, or `last` where there is none.
pub open spec fn ev_list(s: St, body: Rc<Object>, last: Rc<Object>) -> Option<(St, Res)>
    decreases s.budget, 1int,
{
    match *body {
        Object::Pair(h, t) => match ev(s, h) {
            None => None,
            Some((s2, Err(e))) => Some((s2, Err(e))),
            Some((s2, Ok(v))) => if s2.budget < s.budget {
                ev_list(s2, t, v)
            } else {
                None
            },
        },
        _ => Some((s, Ok(last))),
    }
}

/// The rounds of a `while` loop: evaluate the condition; stop with `Nil`
/// where it is `Nil`, else evaluate the body and go round again.
pub open spec fn loop_w(s: St, c: Rc<Object>, body: Rc<Object>) -> Option<(St, NRes)>
    decreases s.budget, 2int,
{
    match ev(s, c) {
        None => None,
        Some((s2, Err(e))) => Some((s2, Err(nested(e)))),
        Some((s2, Ok(v))) => if *v is Nil {
            Some((s2, Ok(nil())))
        } else if s2.budget <= s.budget {
            match ev_list(s2, body, nil()) {
                None => None,
                Some((s3, Err(e))) => Some((s3, Err(nested(e)))),
                Some((s3, Ok(_))) => if s3.budget < s.budget {
                    loop_w(s3, c, body)
                } else {
                    None
                },
            }
        } else {
            None
        },
    }
}

/// `(eval a ...)`: the arguments' values, evaluated again in order; the
/// value of the last.
pub open spec fn eval_n(s: St, a: Rc<Object>) -> Option<(St, NRes)>
    decreases s.budget, 3int,
{
    match arg_check(datum(*a), 1, None, ArgumentsError::TooMany) {
        Some(e) => Some((s, bad(e))),
        None => match ev_args(s, items(*a), 0, Seq::empty()) {
            None => None,
            Some((s2, Err(e))) => Some((s2, Err(nested(e)))),
            Some((s2, Ok(vals))) => if s2.budget <= s.budget {
                match ev_seq(s2, vals, 0, nil()) {
                    None => None,
                    Some((s3, Err(e))) => Some((s3, Err(nested(e)))),
                    Some((s3, Ok(x))) => Some((s3, Ok(x))),
                }
            } else {
                None
            },
        },
    }
}

/// `(while c body ...)`, in a frame of its own that is closed afterwards.
pub open spec fn while_n(s: St, a: Rc<Object>) -> Option<(St, NRes)>
    decreases s.budget, 3int,
{
    match arg_check(datum(*a), 1, None, ArgumentsError::TooMany) {
        Some(e) => Some((s, bad(e))),
        None => match loop_w(push_frame(s), first(*a), rest(*a)) {
            None => None,
            Some((s2, r)) => Some((pop_frame(s2), r)),
        },
    }
}

/// `(if c then else?)`, in a frame of its own that is closed afterwards.
pub open spec fn if_n(s: St, a: Rc<Object>) -> Option<(St, NRes)>
    decreases s.budget, 3int,
{
    match arg_check(datum(*a), 2, Some(3), ArgumentsError::NotEnough) {
        Some(e) => Some((s, bad(e))),
        None => {
            let sp = push_frame(s);
            match ev(sp, first(*a)) {
                None => None,
                Some((s2, Err(e))) => Some((pop_frame(s2), Err(nested(e)))),
                Some((s2, Ok(v))) => if s2.budget <= sp.budget {
                    match chosen(*a, v) {
                        None => Some((pop_frame(s2), Ok(nil()))),
                        Some(b) => match ev(s2, b) {
                            None => None,
                            Some((s3, Err(e))) => Some((pop_frame(s3), Err(nested(e)))),
                            Some((s3, Ok(x))) => Some((pop_frame(s3), Ok(x))),
                        },
                    }
                } else {
                    None
                },
            }
        },
    }
}

/// `(car l)` / `(cdr l)`.
pub open spec fn pair_n(s: St, a: Rc<Object>, head: bool) -> Option<(St, NRes)>
    decreases s.budget, 3int,
{
    match arg_check(datum(*a), 1, Some(1), ArgumentsError::TooMany) {
        Some(e) => Some((s, bad(e))),
        None => match ev(s, first(*a)) {
            None => None,
            Some((s2, Err(e))) => Some((s2, Err(nested(e)))),
            Some((s2, Ok(v))) => Some((s2, half(v, head))),
        },
    }
}

/// The values of the two arguments of a list of two, left to right.
pub open spec fn two_values(s: St, a: Rc<Object>) -> Option<(St, Result<(Rc<Object>, Rc<Object>), RustFuncError>)>
    decreases s.budget, 2int,
{
    match ev(s, first(*a)) {
        None => None,
        Some((s2, Err(e))) => Some((s2, Err(nested(e)))),
        Some((s2, Ok(x))) => if s2.budget <= s.budget {
            match ev(s2, second(*a)) {
                None => None,
                Some((s3, Err(e))) => Some((s3, Err(nested(e)))),
                Some((s3, Ok(y))) => Some((s3, Ok((x, y)))),
            }
        } else {
            None
        },
    }
}

/// `(cons a b)`.
pub open spec fn cons_n(s: St, a: Rc<Object>) -> Option<(St, NRes)>
    decreases s.budget, 3int,
{
    match arg_check(datum(*a), 2, Some(2), ArgumentsError::NotEnough) {
        Some(e) => Some((s, bad(e))),
        None => match two_values(s, a) {
            None => None,
            Some((s2, Err(e))) => Some((s2, Err(e))),
            Some((s2, Ok((x, y)))) => Some((s2, Ok(Rc::new(Object::Pair(x, y))))),
        },
    }
}

/// `(eq a b)` / `(ne a b)`.
pub open spec fn equal_n(s: St, a: Rc<Object>, same: bool) -> Option<(St, NRes)>
    decreases s.budget, 3int,
{
    match arg_check(datum(*a), 2, Some(2), ArgumentsError::NotEnough) {
        Some(e) => Some((s, bad(e))),
        None => match two_values(s, a) {
            None => None,
            Some((s2, Err(e))) => Some((s2, Err(e))),
            Some((s2, Ok((x, y)))) => Some((s2, Ok(Rc::new(truth_of(datum_eq(datum(*x), datum(*y)) == same))))),
        },
    }
}

/// `(= name value)`: assigns the value (see `assign`); `Nil`. An empty
/// argument list is `DottedPair`, as for `def` and `defunc`.
pub open spec fn assign_n(s: St, a: Rc<Object>) -> Option<(St, NRes)>
    decreases s.budget, 3int,
{
    if datum(*a) is Nil {
        Some((s, bad(ArgumentsError::DottedPair)))
    } else {
        match arg_check(datum(*a), 2, Some(2), ArgumentsError::NotEnough) {
            Some(e) => Some((s, bad(e))),
            None => match *first(*a) {
                Object::Symbol(n) => match ev(s, second(*a)) {
                    None => None,
                    Some((s2, Err(e))) => Some((s2, Err(nested(e)))),
                    Some((s2, Ok(v))) => {
                        let fg = assign(s2.frames, s2.globals, n@, v);
                        Some((St { frames: fg.0, globals: fg.1, budget: s2.budget }, Ok(nil())))
                    },
                },
                _ => Some((s, bad(ArgumentsError::WrongType))),
            },
        }
    }
}

/// Binds a global name, or fails with `GlobalExists` and changes nothing.
pub open spec fn define_in(s: St, n: String, v: Rc<Object>) -> (St, NRes) {
    if s.globals.contains_key(n@) {
        (s, Err(nested(LispError::eval_spec(EvalError::GlobalExists(n)))))
    } else {
        (St { frames: s.frames, globals: s.globals.insert(n@, v), budget: s.budget }, Ok(nil()))
    }
}

/// `(def name value)`.
pub open spec fn define_n(s: St, a: Rc<Object>) -> Option<(St, NRes)>
    decreases s.budget, 3int,
{
    if datum(*a) is Nil {
        Some((s, bad(ArgumentsError::DottedPair)))
    } else {
        match arg_check(datum(*a), 2, Some(2), ArgumentsError::NotEnough) {
            Some(e) => Some((s, bad(e))),
            None => match *first(*a) {
                Object::Symbol(n) => match ev(s, second(*a)) {
                    None => None,
                    Some((s2, Err(e))) => Some((s2, Err(nested(e)))),
                    Some((s2, Ok(v))) => Some(define_in(s2, n, v)),
                },
                _ => Some((s, bad(ArgumentsError::WrongType))),
            },
        }
    }
}

/// `(defunc name (params ...) body ...)`.
pub open spec fn defunc_n(s: St, a: Rc<Object>) -> (St, NRes) {
    if datum(*a) is Nil {
        (s, bad(ArgumentsError::DottedPair))
    } else {
        match arg_check(datum(*a), 2, None, ArgumentsError::TooMany) {
            Some(e) => (s, bad(e)),
            None => match func_result(*rest(*a)) {
                Err(e) => (s, Err(e)),
                Ok(f) => match *first(*a) {
                    Object::Symbol(n) => define_in(s, n, f),
                    _ => (s, bad(ArgumentsError::WrongType)),
                },
            },
        }
    }
}

/// A native function on its unevaluated argument list; `None` for a host
/// function.
pub open spec fn native(s: St, n: Native, a: Rc<Object>) -> Option<(St, NRes)>
    decreases s.budget, 4int,
{
    match n {
        Native::Quote => Some((s, quote_spec(*a))),
        Native::Eval => eval_n(s, a),
        Native::While => while_n(s, a),
        Native::If => if_n(s, a),
        Native::Func => Some((s, func_result(*a))),
        Native::Car => pair_n(s, a, true),
        Native::Cdr => pair_n(s, a, false),
        Native::Cons => cons_n(s, a),
        Native::Assign => assign_n(s, a),
        Native::Define => define_n(s, a),
        Native::Defunc => Some(defunc_n(s, a)),
        Native::Equal => equal_n(s, a, true),
        Native::NotEqual => equal_n(s, a, false),
        Native::Host(_) => None,
    }
}

/// An unknown symbol: evaluating a non-empty symbol that no frame and no
/// global binds fails with `UnknownSymbol` of that name.
pub proof fn lemma_unknown_symbol(s: St, o: Rc<Object>, n: String)
    requires
        *o == Object::Symbol(n),
        n@.len() > 0,
        lookup(s.frames, s.globals, n@) is None,
        s.budget > 0,
    ensures
        ev(s, o) matches Some((_, r)) && r == Err::<Rc<Object>, LispError>(LispError::eval_spec(EvalError::UnknownSymbol(n))),
{
}

/// Quotation suppresses evaluation: `(quote x)`, with `quote` bound to the
/// quoting native function, evaluates to `x` itself, whatever `x` is, and
/// changes nothing but the steps it takes.
pub proof fn lemma_quote_suppresses(s: St, o: Rc<Object>, q: Rc<Object>, x: Rc<Object>)
    requires
        *o == Object::Pair(q, Rc::new(Object::Pair(x, nil()))),
        *q matches Object::Symbol(n) && n@.len() > 0 && lookup(s.frames, s.globals, n@) == Some(Rc::new(Object::RustFunc(Native::Quote))),
        s.budget > 1,
    ensures
        ev(s, o) == Some((St { frames: s.frames, globals: s.globals, budget: (s.budget - 2) as nat }, Ok::<Rc<Object>, LispError>(x))),
{
    let a = Rc::new(Object::Pair(x, nil()));
    crate::object::lemma_rc_unfold(a);
    crate::object::lemma_datum_unfold(Object::Nil);
    let d = crate::builtins::list_elems_value(a);
    assert(d == Datum::Pair(Box::new(datum(*x)), Box::new(Datum::Nil)));
    assert(elems(Datum::Nil) == Seq::<Datum>::empty());
    assert(elems(d) =~= seq![datum(*x)]);
    assert(is_proper(Datum::Nil));
    assert(is_proper(d));
    assert(quote_spec(*a) == Ok::<Rc<Object>, RustFuncError>(x));
    let s1 = St { frames: s.frames, globals: s.globals, budget: (s.budget - 1) as nat };
    let s2 = St { frames: s.frames, globals: s.globals, budget: (s.budget - 2) as nat };
    assert(ev(s1, q) == Some((s2, Ok::<Rc<Object>, LispError>(Rc::new(Object::RustFunc(Native::Quote))))));
    assert(call(s2, Rc::new(Object::RustFunc(Native::Quote)), o, a) == Some((s2, Ok::<Rc<Object>, LispError>(x))));
}

/// Function arity: an interpreted function whose arguments evaluate to
/// fewer values than it has parameters fails with `NotEnough`; with enough
/// values it binds the parameters to the first ones only (see
/// `lemma_extra_arguments_ignored`).
pub proof fn lemma_too_few_arguments(s: St, p: Rc<Object>, body: Rc<Object>, a: Rc<Object>, s2: St, vals: Seq<Rc<Object>>)
    requires
        is_proper(datum(*a)),
        ev_args(s, items(*a), 0, Seq::empty()) == Some((s2, Ok::<Seq<Rc<Object>>, LispError>(vals))),
        s2.budget <= s.budget,
        is_proper(datum(*p)),
        all_symbols(elems(datum(*p))),
        vals.len() < elems(datum(*p)).len(),
    ensures
        apply(s, p, body, a) == Some((s2, Err::<Rc<Object>, LispError>(args_error(ArgumentsError::NotEnough)))),
{
}

} // verus!
