//! The native functions the interpreter provides itself: special forms,
//! binders and list primitives. Each gets its argument list unevaluated;
//! each contract says what the function does as `semantics` states it.
use std::rc::Rc;
use vstd::prelude::*;

use crate::errors::{ArgumentsError, RustFuncError};
use crate::lisp::{arg_check, first, list_items, quote_spec, Host, Lisp};
use crate::object::{data, datum, elems, is_proper, items, lemma_datum_unfold, lemma_rc_unfold, objects_equal, Datum, Object};
use crate::semantics::{
    assign_n, cons_n, define_n, defunc_n, equal_n, eval_n, ev_args, func_result, if_n, loop_w, nil, pair_n, rest,
    while_n, St,
};

verus! {

/// The second element of a list.
pub open spec fn second(o: Object) -> Rc<Object> {
    match o {
        Object::Pair(_, t) => first(*t),
        _ => Rc::new(Object::Nil),
    }
}

/// The third element of a list.
pub open spec fn third(o: Object) -> Rc<Object> {
    match o {
        Object::Pair(_, t) => second(*t),
        _ => Rc::new(Object::Nil),
    }
}

/// The head (or the tail) of a pair; `WrongType` for anything else.
pub open spec fn half(v: Rc<Object>, head: bool) -> Result<Rc<Object>, RustFuncError> {
    match *v {
        Object::Pair(a, b) => Ok(if head { a } else { b }),
        _ => Err(RustFuncError::InvalidArguments(ArgumentsError::WrongType)),
    }
}

/// `t` where `b` holds, else `Nil`.
pub open spec fn truth_of(b: bool) -> Object {
    if b {
        Object::True
    } else {
        Object::Nil
    }
}

/// The expression an `if` with argument list `args` evaluates, once its
/// condition has the value `c`; none where it has no `else` to take.
pub open spec fn chosen(args: Object, c: Rc<Object>) -> Option<Rc<Object>> {
    if !(*c is Nil) {
        Some(second(args))
    } else if elems(datum(args)).len() == 3 {
        Some(third(args))
    } else {
        None
    }
}

/// The value of a shared object.
pub open spec fn list_elems_value(o: Rc<Object>) -> Datum {
    datum(*o)
}

/// Every value is a symbol.
pub open spec fn all_symbols(s: Seq<Datum>) -> bool {
    forall|i: int| 0 <= i < s.len() ==> (#[trigger] s[i]) is Symbol
}

/// The names of symbols.
pub open spec fn symbol_texts(s: Seq<Datum>) -> Seq<Seq<char>> {
    s.map_values(|d: Datum| d->Symbol_0)
}

/// The elements along a shared list.
pub open spec fn list_elems(o: Rc<Object>) -> Seq<Datum> {
    elems(datum(*o))
}

pub open spec fn opt_nat(m: Option<usize>) -> Option<nat> {
    match m {
        Some(k) => Some(k as nat),
        None => None,
    }
}

/// The arguments of a list that holds `min` to `max` of them; else how it
/// fails: a dotted list is `DottedPair`, too few are `NotEnough`, too many
/// are `extra`.
pub fn take_args(args: &Rc<Object>, min: usize, max: Option<usize>, extra: ArgumentsError) -> (r: Result<Vec<Rc<Object>>, ArgumentsError>)
    ensures
        match arg_check(datum(**args), min as nat, opt_nat(max), extra) {
            Some(e) => r == Err::<Vec<Rc<Object>>, ArgumentsError>(e),
            None => r matches Ok(v) && data(v@) == elems(datum(**args)) && v@.len() == elems(datum(**args)).len()
                && v@ == items(**args),
        },
{
    let items = match list_items(args) {
        Some(v) => v,
        None => return Err(ArgumentsError::DottedPair),
    };
    if items.len() < min {
        return Err(ArgumentsError::NotEnough);
    }
    match max {
        Some(m) => if items.len() > m {
            return Err(extra);
        },
        None => {},
    }
    Ok(items)
}

fn nil_object() -> (r: Rc<Object>)
    ensures
        r == nil(),
{
    Rc::new(Object::Nil)
}

/// The first element of a list.
fn first_of(args: &Rc<Object>) -> (r: Rc<Object>)
    ensures
        r == first(**args),
{
    match &**args {
        Object::Pair(a, _) => a.clone(),
        _ => Rc::new(Object::Nil),
    }
}

/// The tail of a list.
fn rest_of(args: &Rc<Object>) -> (r: Rc<Object>)
    ensures
        r == rest(**args),
{
    match &**args {
        Object::Pair(_, t) => t.clone(),
        _ => nil_object(),
    }
}

/// The first and the second element of a list.
fn first_two_of(args: &Rc<Object>) -> (r: (Rc<Object>, Rc<Object>))
    ensures
        r.0 == first(**args),
        r.1 == second(**args),
{
    match &**args {
        Object::Pair(a, t) => match &**t {
            Object::Pair(b, _) => (a.clone(), b.clone()),
            _ => (a.clone(), Rc::new(Object::Nil)),
        },
        _ => (Rc::new(Object::Nil), Rc::new(Object::Nil)),
    }
}

/// The third element of a list.
fn third_of(args: &Rc<Object>) -> (r: Rc<Object>)
    ensures
        r == third(**args),
{
    match &**args {
        Object::Pair(_, t) => match &**t {
            Object::Pair(_, u) => match &**u {
                Object::Pair(c, _) => c.clone(),
                _ => Rc::new(Object::Nil),
            },
            _ => Rc::new(Object::Nil),
        },
        _ => Rc::new(Object::Nil),
    }
}

/// The head (or the tail) of a pair; `WrongType` for anything else.
pub fn pair_half(v: &Rc<Object>, head: bool) -> (r: Result<Rc<Object>, RustFuncError>)
    ensures
        r == half(*v, head),
{
    match &**v {
        Object::Pair(a, b) => Ok(if head { a.clone() } else { b.clone() }),
        _ => Err(RustFuncError::InvalidArguments(ArgumentsError::WrongType)),
    }
}

/// `t` for true, `Nil` for false.
pub fn truth(b: bool) -> (r: Rc<Object>)
    ensures
        r == Rc::new(truth_of(b)),
{
    if b {
        Rc::new(Object::True)
    } else {
        Rc::new(Object::Nil)
    }
}

/// `(quote x)`: `x`, unevaluated.
pub fn quote(args: Rc<Object>) -> (r: Result<Rc<Object>, RustFuncError>)
    ensures
        r == quote_spec(*args),
{
    match take_args(&args, 1, Some(1), ArgumentsError::TooMany) {
        Ok(_) => {
            proof {
                lemma_rc_unfold(args);
            }
            match &*args {
                Object::Pair(h, _) => Ok(h.clone()),
                _ => Err(RustFuncError::InvalidArguments(ArgumentsError::NotEnough)),
            }
        },
        Err(e) => Err(RustFuncError::InvalidArguments(e)),
    }
}

/// The names of a proper list of symbols; `DottedPair` for a dotted list,
/// `WrongType` where an element is no symbol.
pub(crate) fn param_names(list: &Rc<Object>) -> (r: Result<Vec<String>, ArgumentsError>)
    ensures
        !is_proper(datum(**list)) ==> r == Err::<Vec<String>, ArgumentsError>(ArgumentsError::DottedPair),
        is_proper(datum(**list)) && !all_symbols(elems(datum(**list))) ==> r == Err::<Vec<String>, ArgumentsError>(ArgumentsError::WrongType),
        is_proper(datum(**list)) && all_symbols(elems(datum(**list))) ==> (r matches Ok(names)
            && crate::object::names_of(names@) == symbol_texts(elems(datum(**list)))),
{
    let items = match list_items(list) {
        Some(v) => v,
        None => return Err(ArgumentsError::DottedPair),
    };
    let ghost es = list_elems(*list);
    let mut names: Vec<String> = Vec::new();
    let mut i: usize = 0;
    while i < items.len()
        invariant
            i <= items.len(),
            data(items@) == es,
            es == elems(datum(**list)),
            items@.len() == es.len(),
            is_proper(datum(**list)),
            all_symbols(es.take(i as int)),
            crate::object::names_of(names@) == symbol_texts(es.take(i as int)),
        decreases items.len() - i,
    {
        proof {
            lemma_rc_unfold(items@[i as int]);
            assert(es[i as int] == datum(*items@[i as int]));
        }
        match &*items[i] {
            Object::Symbol(s) => {
                let ghost before = names@;
                let n = s.clone();
                assert(es[i as int] == Datum::Symbol(s@));
                names.push(n);
                assert(crate::object::names_of(names@) =~= crate::object::names_of(before).push(s@));
                assert(es.take(i + 1) =~= es.take(i as int).push(es[i as int]));
                assert(symbol_texts(es.take(i + 1)) =~= symbol_texts(es.take(i as int)).push(s@));
                assert(crate::object::names_of(names@) =~= symbol_texts(es.take(i + 1)));
            },
            _ => {
                assert(!(es[i as int] is Symbol));
                assert(!all_symbols(es));
                return Err(ArgumentsError::WrongType);
            },
        }
        i = i + 1;
    }
    assert(es.take(i as int) =~= es);
    Ok(names)
}

/// `(func (params ...) body ...)`: an interpreted function (see
/// `func_result`).
pub fn func(args: Rc<Object>) -> (r: Result<Rc<Object>, RustFuncError>)
    ensures
        r == func_result(*args),
{
    match take_args(&args, 1, None, ArgumentsError::TooMany) {
        Ok(_) => {},
        Err(e) => return Err(RustFuncError::InvalidArguments(e)),
    }
    let plist = first_of(&args);
    proof {
        lemma_rc_unfold(plist);
    }
    match &*plist {
        Object::Pair(_, _) => {},
        Object::Nil => {},
        _ => return Err(RustFuncError::InvalidArguments(ArgumentsError::WrongType)),
    }
    match param_names(&plist) {
        Ok(_) => {},
        Err(e) => return Err(RustFuncError::InvalidArguments(e)),
    }
    Ok(Rc::new(Object::LispFunc(plist, rest_of(&args))))
}

/// `(eval a ...)`: evaluates each argument, then evaluates the values in
/// order, as code; the value of the last (see `eval_n`).
pub fn eval<H: Host>(lisp: &mut Lisp, host: &mut H, args: Rc<Object>) -> (r: Result<Rc<Object>, RustFuncError>)
    ensures
        final(lisp).keeps_scopes(*old(lisp)),
        final(lisp).budget() <= old(lisp).budget(),
        eval_n(old(lisp).st(), args) matches Some((s, y)) ==> final(lisp).st() == s && r == y,
    decreases old(lisp).budget(), 3int,
{
    let items = match take_args(&args, 1, None, ArgumentsError::TooMany) {
        Ok(v) => v,
        Err(e) => {
            proof { crate::lisp::lemma_keeps_refl(*lisp); }
            return Err(RustFuncError::InvalidArguments(e));
        },
    };
    let ghost s0 = *lisp;
    let values = match lisp.eval_args(host, &items) {
        Ok(v) => v,
        Err(e) => return Err(RustFuncError::from_lisp(e)),
    };
    let ghost s1 = *lisp;
    let r = lisp.eval_objects(host, values);
    proof {
        crate::lisp::lemma_keeps_trans(s0, s1, *lisp);
    }
    match r {
        Ok(o) => Ok(o),
        Err(e) => Err(RustFuncError::from_lisp(e)),
    }
}

/// `(while c body ...)`: evaluates the body forms as long as `c` evaluates
/// to anything but `Nil`, in a frame of its own that is closed afterwards,
/// also when an error stops the loop; `Nil` (see `while_n`).
pub fn lispwhile<H: Host>(lisp: &mut Lisp, host: &mut H, args: Rc<Object>) -> (r: Result<Rc<Object>, RustFuncError>)
    ensures
        final(lisp).same_names(*old(lisp)),
        final(lisp).keeps_scopes(*old(lisp)),
        final(lisp).budget() <= old(lisp).budget(),
        while_n(old(lisp).st(), args) matches Some((s, y)) ==> final(lisp).st() == s && r == y,
    decreases old(lisp).budget(), 3int,
{
    match take_args(&args, 1, None, ArgumentsError::TooMany) {
        Ok(_) => {},
        Err(e) => {
            proof { crate::lisp::lemma_keeps_refl(*lisp); }
            return Err(RustFuncError::InvalidArguments(e));
        },
    }
    let cond = first_of(&args);
    let body = rest_of(&args);
    lisp.scope_create();
    let ghost pushed = *lisp;
    proof {
        crate::lisp::lemma_keeps_refl(*lisp);
    }
    let mut result: Result<Rc<Object>, RustFuncError> = Ok(nil_object());
    loop
        invariant_except_break
            loop_w(pushed.st(), cond, body) matches Some(t) ==> loop_w(lisp.st(), cond, body) == Some(t),
        invariant
            lisp.keeps_scopes(pushed),
            lisp.budget() <= pushed.budget(),
            pushed.frames() == old(lisp).frames().push(Map::<Seq<char>, Rc<Object>>::empty()),
            pushed.global_table() == old(lisp).global_table(),
            pushed.budget() == old(lisp).budget(),
        ensures
            lisp.keeps_scopes(pushed),
            lisp.budget() <= pushed.budget(),
            loop_w(pushed.st(), cond, body) matches Some((s, y)) ==> lisp.st() == s && result == y,
        decreases lisp.budget(),
    {
        let ghost before = *lisp;
        let c = lisp.eval_object(host, cond.clone());
        proof {
            crate::lisp::lemma_keeps_trans(pushed, before, *lisp);
        }
        match c {
            Ok(v) => {
                if matches!(&*v, Object::Nil) {
                    result = Ok(nil_object());
                    break;
                }
            },
            Err(e) => {
                result = Err(RustFuncError::from_lisp(e));
                break;
            },
        }
        let ghost mid = *lisp;
        let b = lisp.eval_body(host, &body);
        proof {
            crate::lisp::lemma_keeps_trans(pushed, mid, *lisp);
        }
        match b {
            Ok(_) => {},
            Err(e) => {
                result = Err(RustFuncError::from_lisp(e));
                break;
            },
        }
    }
    let ghost inner = *lisp;
    lisp.scope_end();
    proof {
        assert(lisp.frames() =~= inner.frames().drop_last());
    }
    result
}

/// `(if c then else?)`: evaluates `c`, then `then` where `c` is anything
/// but `Nil`, else `else`, or gives `Nil` where there is none; in a frame
/// of its own that is closed afterwards, also on an error (see `if_n`).
pub fn lispif<H: Host>(lisp: &mut Lisp, host: &mut H, args: Rc<Object>) -> (r: Result<Rc<Object>, RustFuncError>)
    ensures
        final(lisp).same_names(*old(lisp)),
        final(lisp).keeps_scopes(*old(lisp)),
        final(lisp).budget() <= old(lisp).budget(),
        if_n(old(lisp).st(), args) matches Some((s, y)) ==> final(lisp).st() == s && r == y,
    decreases old(lisp).budget(), 3int,
{
    let items = match take_args(&args, 2, Some(3), ArgumentsError::NotEnough) {
        Ok(v) => v,
        Err(e) => {
            proof { crate::lisp::lemma_keeps_refl(*lisp); }
            return Err(RustFuncError::InvalidArguments(e));
        },
    };
    let (cond, then) = first_two_of(&args);
    let other = if items.len() == 3 {
        Some(third_of(&args))
    } else {
        None
    };
    lisp.scope_create();
    let ghost pushed = *lisp;
    let c = lisp.eval_object(host, cond);
    let ghost mid = *lisp;
    let result = match c {
        Ok(v) => {
            let branch = if !matches!(&*v, Object::Nil) {
                Some(then)
            } else {
                other
            };
            assert(branch == chosen(*args, v));
            match branch {
                Some(o) => {
                    let x = lisp.eval_object(host, o);
                    proof {
                        crate::lisp::lemma_keeps_trans(pushed, mid, *lisp);
                    }
                    match x {
                        Ok(x) => Ok(x),
                        Err(e) => Err(RustFuncError::from_lisp(e)),
                    }
                },
                None => Ok(nil_object()),
            }
        },
        Err(e) => Err(RustFuncError::from_lisp(e)),
    };
    let ghost inner = *lisp;
    lisp.scope_end();
    proof {
        assert(lisp.frames() =~= inner.frames().drop_last());
    }
    result
}

/// `(car l)`: the head of the pair `l` evaluates to (`WrongType` else).
pub fn car<H: Host>(lisp: &mut Lisp, host: &mut H, args: Rc<Object>) -> (r: Result<Rc<Object>, RustFuncError>)
    ensures
        final(lisp).keeps_scopes(*old(lisp)),
        final(lisp).budget() <= old(lisp).budget(),
        pair_n(old(lisp).st(), args, true) matches Some((s, y)) ==> final(lisp).st() == s && r == y,
    decreases old(lisp).budget(), 3int,
{
    pair_part(lisp, host, args, true)
}

/// `(cdr l)`: the tail of the pair `l` evaluates to (`WrongType` else).
pub fn cdr<H: Host>(lisp: &mut Lisp, host: &mut H, args: Rc<Object>) -> (r: Result<Rc<Object>, RustFuncError>)
    ensures
        final(lisp).keeps_scopes(*old(lisp)),
        final(lisp).budget() <= old(lisp).budget(),
        pair_n(old(lisp).st(), args, false) matches Some((s, y)) ==> final(lisp).st() == s && r == y,
    decreases old(lisp).budget(), 3int,
{
    pair_part(lisp, host, args, false)
}

fn pair_part<H: Host>(lisp: &mut Lisp, host: &mut H, args: Rc<Object>, head: bool) -> (r: Result<Rc<Object>, RustFuncError>)
    ensures
        final(lisp).keeps_scopes(*old(lisp)),
        final(lisp).budget() <= old(lisp).budget(),
        pair_n(old(lisp).st(), args, head) matches Some((s, y)) ==> final(lisp).st() == s && r == y,
    decreases old(lisp).budget(), 2int,
{
    match take_args(&args, 1, Some(1), ArgumentsError::TooMany) {
        Ok(_) => {},
        Err(e) => {
            proof { crate::lisp::lemma_keeps_refl(*lisp); }
            return Err(RustFuncError::InvalidArguments(e));
        },
    }
    match lisp.eval_object(host, first_of(&args)) {
        Ok(v) => pair_half(&v, head),
        Err(e) => Err(RustFuncError::from_lisp(e)),
    }
}

/// `(cons a b)`: the pair of the values of `a` and `b` (see `cons_n`).
pub fn cons<H: Host>(lisp: &mut Lisp, host: &mut H, args: Rc<Object>) -> (r: Result<Rc<Object>, RustFuncError>)
    ensures
        final(lisp).keeps_scopes(*old(lisp)),
        final(lisp).budget() <= old(lisp).budget(),
        cons_n(old(lisp).st(), args) matches Some((s, y)) ==> final(lisp).st() == s && r == y,
    decreases old(lisp).budget(), 3int,
{
    match take_args(&args, 2, Some(2), ArgumentsError::NotEnough) {
        Ok(_) => {},
        Err(e) => {
            proof { crate::lisp::lemma_keeps_refl(*lisp); }
            return Err(RustFuncError::InvalidArguments(e));
        },
    }
    let (x, y) = first_two_of(&args);
    let ghost s0 = *lisp;
    let a = match lisp.eval_object(host, x) {
        Ok(v) => v,
        Err(e) => return Err(RustFuncError::from_lisp(e)),
    };
    let ghost s1 = *lisp;
    let b = lisp.eval_object(host, y);
    proof {
        crate::lisp::lemma_keeps_trans(s0, s1, *lisp);
    }
    match b {
        Ok(b) => Ok(Rc::new(Object::Pair(a, b))),
        Err(e) => Err(RustFuncError::from_lisp(e)),
    }
}

/// `(eq a b)` / `(ne a b)`: `t` where the values of `a` and `b` are equal
/// (unequal), as `datum_eq` says, else `Nil` (see `equal_n`).
pub fn equal<H: Host>(lisp: &mut Lisp, host: &mut H, args: Rc<Object>, same: bool) -> (r: Result<Rc<Object>, RustFuncError>)
    ensures
        final(lisp).keeps_scopes(*old(lisp)),
        final(lisp).budget() <= old(lisp).budget(),
        equal_n(old(lisp).st(), args, same) matches Some((s, y)) ==> final(lisp).st() == s && r == y,
    decreases old(lisp).budget(), 3int,
{
    match take_args(&args, 2, Some(2), ArgumentsError::NotEnough) {
        Ok(_) => {},
        Err(e) => {
            proof { crate::lisp::lemma_keeps_refl(*lisp); }
            return Err(RustFuncError::InvalidArguments(e));
        },
    }
    let (x, y) = first_two_of(&args);
    let ghost s0 = *lisp;
    let a = match lisp.eval_object(host, x) {
        Ok(v) => v,
        Err(e) => return Err(RustFuncError::from_lisp(e)),
    };
    let ghost s1 = *lisp;
    let b = lisp.eval_object(host, y);
    proof {
        crate::lisp::lemma_keeps_trans(s0, s1, *lisp);
    }
    match b {
        Ok(b) => Ok(truth(objects_equal(&a, &b) == same)),
        Err(e) => Err(RustFuncError::from_lisp(e)),
    }
}

/// The name and the value expression of `(= name value)` / `(def name
/// value)`; `WrongType` where the name is no symbol.
fn binding_args(args: &Rc<Object>) -> (r: Result<(String, Rc<Object>), ArgumentsError>)
    ensures
        datum(**args) is Nil ==> r == Err::<(String, Rc<Object>), ArgumentsError>(ArgumentsError::DottedPair),
        !(datum(**args) is Nil) ==> (arg_check(datum(**args), 2, Some(2), ArgumentsError::NotEnough) matches Some(e)
            ==> r == Err::<(String, Rc<Object>), ArgumentsError>(e)),
        !(datum(**args) is Nil) && arg_check(datum(**args), 2, Some(2), ArgumentsError::NotEnough) is None ==> match *first(**args) {
            Object::Symbol(n) => r == Ok::<(String, Rc<Object>), ArgumentsError>((n, second(**args))),
            _ => r == Err::<(String, Rc<Object>), ArgumentsError>(ArgumentsError::WrongType),
        },
{
    proof {
        lemma_rc_unfold(*args);
    }
    if matches!(&**args, Object::Nil) {
        return Err(ArgumentsError::DottedPair);
    }
    match take_args(args, 2, Some(2), ArgumentsError::NotEnough) {
        Ok(_) => {},
        Err(e) => return Err(e),
    }
    let (a, b) = first_two_of(args);
    match &*a {
        Object::Symbol(s) => Ok((s.clone(), b)),
        _ => Err(ArgumentsError::WrongType),
    }
}

/// `(= name value)` / `(set name value)`: assigns the value of `value` to
/// `name` (see `Lisp::set_var` and `assign_n`); `Nil`.
pub fn set<H: Host>(lisp: &mut Lisp, host: &mut H, args: Rc<Object>) -> (r: Result<Rc<Object>, RustFuncError>)
    ensures
        final(lisp).keeps_scopes(*old(lisp)),
        final(lisp).budget() <= old(lisp).budget(),
        assign_n(old(lisp).st(), args) matches Some((s, y)) ==> final(lisp).st() == s && r == y,
    decreases old(lisp).budget(), 3int,
{
    proof { crate::lisp::lemma_keeps_refl(*lisp); }
    let (name, expr) = match binding_args(&args) {
        Ok(p) => p,
        Err(e) => return Err(RustFuncError::InvalidArguments(e)),
    };
    let ghost s0 = *lisp;
    let v = match lisp.eval_object(host, expr) {
        Ok(v) => v,
        Err(e) => return Err(RustFuncError::from_lisp(e)),
    };
    let ghost s1 = *lisp;
    lisp.set_var(name.as_str(), v);
    proof {
        crate::lisp::lemma_assign_keeps(s1, *lisp, name@, v);
        crate::lisp::lemma_keeps_trans(s0, s1, *lisp);
    }
    Ok(nil_object())
}

/// `(def name value)`: binds `name` in the global table to the value of
/// `value`; `GlobalExists` where it is bound there already, the old
/// binding kept; `Nil` (see `define_n`).
pub fn define<H: Host>(lisp: &mut Lisp, host: &mut H, args: Rc<Object>) -> (r: Result<Rc<Object>, RustFuncError>)
    ensures
        final(lisp).keeps_scopes(*old(lisp)),
        final(lisp).budget() <= old(lisp).budget(),
        define_n(old(lisp).st(), args) matches Some((s, y)) ==> final(lisp).st() == s && r == y,
    decreases old(lisp).budget(), 3int,
{
    proof { crate::lisp::lemma_keeps_refl(*lisp); }
    let (name, expr) = match binding_args(&args) {
        Ok(p) => p,
        Err(e) => return Err(RustFuncError::InvalidArguments(e)),
    };
    let ghost s0 = *lisp;
    let v = match lisp.eval_object(host, expr) {
        Ok(v) => v,
        Err(e) => return Err(RustFuncError::from_lisp(e)),
    };
    let ghost s1 = *lisp;
    let r = lisp.define_global(name, v);
    proof {
        crate::lisp::lemma_keeps_refl(s1);
        crate::lisp::lemma_keeps_trans(s0, s1, *lisp);
    }
    match r {
        Ok(()) => Ok(nil_object()),
        Err(e) => Err(RustFuncError::from_lisp(e)),
    }
}

/// `(defunc name (params ...) body ...)`: binds `name` in the global table
/// to the function `(func (params ...) body ...)` makes; `Nil` (see
/// `defunc_n`).
pub fn defunc(lisp: &mut Lisp, args: Rc<Object>) -> (r: Result<Rc<Object>, RustFuncError>)
    ensures
        final(lisp).keeps_scopes(*old(lisp)),
        final(lisp).budget() == old(lisp).budget(),
        (final(lisp).st(), r) == defunc_n(old(lisp).st(), args),
{
    proof {
        crate::lisp::lemma_keeps_refl(*lisp);
        lemma_rc_unfold(args);
    }
    if matches!(&*args, Object::Nil) {
        return Err(RustFuncError::InvalidArguments(ArgumentsError::DottedPair));
    }
    match take_args(&args, 2, None, ArgumentsError::TooMany) {
        Ok(_) => {},
        Err(e) => return Err(RustFuncError::InvalidArguments(e)),
    }
    let f = match func(rest_of(&args)) {
        Ok(f) => f,
        Err(e) => return Err(e),
    };
    let name = first_of(&args);
    match &*name {
        Object::Symbol(s) => match lisp.define_global(s.clone(), f) {
            Ok(()) => Ok(nil_object()),
            Err(e) => Err(RustFuncError::from_lisp(e)),
        },
        _ => Err(RustFuncError::InvalidArguments(ArgumentsError::WrongType)),
    }
}

/// Each value is a number, with these bits.
pub open spec fn numbers_are(vals: Seq<Rc<Object>>, ns: Seq<u32>) -> bool {
    vals.len() == ns.len() && forall|k: int| 0 <= k < vals.len() ==> *#[trigger] vals[k] == Object::Number(ns[k])
}

/// Every value is a number.
pub open spec fn all_numbers(vals: Seq<Rc<Object>>) -> bool {
    forall|k: int| 0 <= k < vals.len() ==> (*#[trigger] vals[k]) is Number
}

/// For a host's arithmetic: evaluates each argument, left to right, and
/// takes the numbers they evaluate to. At least one argument; the first
/// error of an evaluation stops them; then a value that is no number is
/// `WrongType`.
pub fn eval_numbers<H: Host>(lisp: &mut Lisp, host: &mut H, args: Rc<Object>) -> (r: Result<Vec<u32>, RustFuncError>)
    ensures
        final(lisp).keeps_scopes(*old(lisp)),
        final(lisp).budget() <= old(lisp).budget(),
        arg_check(datum(*args), 1, None, ArgumentsError::TooMany) matches Some(e) ==> r == Err::<Vec<u32>, RustFuncError>(
            RustFuncError::InvalidArguments(e)) && *final(lisp) == *old(lisp),
        arg_check(datum(*args), 1, None, ArgumentsError::TooMany) is None ==> (ev_args(old(lisp).st(), items(*args), 0, Seq::empty())
            matches Some((s, res)) ==> final(lisp).st() == s && match res {
            Err(e) => r == Err::<Vec<u32>, RustFuncError>(RustFuncError::LispError(Box::new(e))),
            Ok(vals) => if all_numbers(vals) {
                r matches Ok(ns) && numbers_are(vals, ns@)
            } else {
                r == Err::<Vec<u32>, RustFuncError>(RustFuncError::InvalidArguments(ArgumentsError::WrongType))
            },
        }),
{
    let items = match take_args(&args, 1, None, ArgumentsError::TooMany) {
        Ok(v) => v,
        Err(e) => return Err(RustFuncError::InvalidArguments(e)),
    };
    let values = match lisp.eval_args(host, &items) {
        Ok(v) => v,
        Err(e) => return Err(RustFuncError::from_lisp(e)),
    };
    match numbers_of(&values) {
        Some(ns) => Ok(ns),
        None => Err(RustFuncError::InvalidArguments(ArgumentsError::WrongType)),
    }
}

/// The bits of numbers, where every value is one.
fn numbers_of(values: &Vec<Rc<Object>>) -> (r: Option<Vec<u32>>)
    ensures
        r is Some <==> all_numbers(values@),
        r matches Some(ns) ==> numbers_are(values@, ns@),
{
    let mut nums: Vec<u32> = Vec::new();
    let mut i: usize = 0;
    while i < values.len()
        invariant
            i <= values.len(),
            numbers_are(values@.take(i as int), nums@),
        decreases values.len() - i,
    {
        match &*values[i] {
            Object::Number(n) => nums.push(*n),
            _ => {
                assert(!all_numbers(values@));
                return None;
            },
        }
        i = i + 1;
        assert(values@.take(i as int).drop_last() =~= values@.take(i - 1));
    }
    assert(values@.take(i as int) =~= values@);
    Some(nums)
}

/// The prompt a `read` builtin shows for a prompt value: a character and
/// a space; `> ` for `Nil` and for a list that is no string; the string a
/// list of characters holds; `WrongType` for anything else.
pub open spec fn prompt_spec(v: Object) -> Result<Seq<char>, ArgumentsError> {
    match v {
        Object::Character(c) => Ok(seq![c, ' ']),
        Object::Nil => Ok(seq!['>', ' ']),
        Object::Pair(_, _) => match crate::object::char_list(datum(v)) {
            Some(cs) => Ok(cs),
            None => Ok(seq!['>', ' ']),
        },
        _ => Err(ArgumentsError::WrongType),
    }
}

/// The prompt for a prompt value (see `prompt_spec`).
pub fn prompt_of(v: &Rc<Object>) -> (r: Result<String, ArgumentsError>)
    ensures
        match prompt_spec(**v) {
            Ok(t) => r matches Ok(p) && p@ == t,
            Err(e) => r == Err::<String, ArgumentsError>(e),
        },
{
    let mut default = String::new();
    default.push('>');
    default.push(' ');
    match &**v {
        Object::Character(c) => {
            let mut p = String::new();
            p.push(*c);
            p.push(' ');
            Ok(p)
        },
        Object::Nil => Ok(default),
        Object::Pair(_, _) => match v.pair_list_to_string() {
            Ok(p) => Ok(p),
            Err(()) => Ok(default),
        },
        _ => Err(ArgumentsError::WrongType),
    }
}

} // verus!
