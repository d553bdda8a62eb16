//! The environment and the evaluator.
use std::rc::Rc;
use vstd::prelude::*;

use crate::builtins;
use crate::errors::{ArgumentsError, ErrorCause, EvalError, LispError, LispErrorKind, RustFuncError};
use crate::frame::{frame_bindings, Frame};
use crate::object::{datum, elems, is_proper, lemma_rc_unfold, Datum, Native, Object};
use crate::reader::{fault_of, read_tokens, toks, Token};
use crate::semantics::{apply, call, ev, ev_args, ev_list, ev_seq, native, nil, symbol_result, St};

verus! {

/// The host's side of the builtin protocol: the host functions registered
/// as `Native::Host(id)`. Like every native function, a host function gets
/// its arguments unevaluated and evaluates what it needs through `lisp`.
pub trait Host {
    /// Runs the host function registered under `id`. It must leave every
    /// scope frame in place, with the names it held; only the innermost
    /// frame may gain names.
    fn call(&mut self, lisp: &mut Lisp, id: u64, args: Rc<Object>) -> (r: Result<Rc<Object>, RustFuncError>)
        ensures
            final(lisp).keeps_scopes(*old(lisp)),
    ;
}

/// A host with no functions of its own: a call of any host id fails with
/// `WrongType`, and changes nothing.
pub struct NoHost;

impl Host for NoHost {
    fn call(&mut self, lisp: &mut Lisp, _id: u64, _args: Rc<Object>) -> (r: Result<Rc<Object>, RustFuncError>) {
        proof {
            lemma_keeps_refl(*lisp);
        }
        Err(RustFuncError::InvalidArguments(ArgumentsError::WrongType))
    }
}

/// The value a name has: the innermost local frame that binds it, else the
/// global table.
pub open spec fn lookup(
    frames: Seq<Map<Seq<char>, Rc<Object>>>,
    globals: Map<Seq<char>, Rc<Object>>,
    name: Seq<char>,
) -> Option<Rc<Object>>
    decreases frames.len(),
{
    if frames.len() == 0 {
        if globals.contains_key(name) {
            Some(globals[name])
        } else {
            None
        }
    } else if frames.last().contains_key(name) {
        Some(frames.last()[name])
    } else {
        lookup(frames.drop_last(), globals, name)
    }
}

/// An error of the evaluator that names an unknown symbol.
pub open spec fn is_unknown_symbol(e: LispError, name: Seq<char>) -> bool {
    e.kind == LispErrorKind::Eval && (e.error matches ErrorCause::Eval(EvalError::UnknownSymbol(s))
        && s@ == name)
}

/// An error of the evaluator that names a global defined twice.
pub open spec fn is_global_exists(e: LispError, name: Seq<char>) -> bool {
    e.kind == LispErrorKind::Eval && (e.error matches ErrorCause::Eval(EvalError::GlobalExists(s))
        && s@ == name)
}

/// The error of a malformed argument list.
pub open spec fn args_error(e: ArgumentsError) -> LispError {
    LispError::rust_func_spec(RustFuncError::InvalidArguments(e))
}

/// The first element of a list.
pub open spec fn first(o: Object) -> Rc<Object> {
    match o {
        Object::Pair(h, _) => h,
        _ => Rc::new(Object::Nil),
    }
}

/// How an argument list fails a count of `min` to `max` arguments, if it
/// does: a dotted list is `DottedPair`, too few are `NotEnough`, too many
/// are `extra`.
pub open spec fn arg_check(args: Datum, min: nat, max: Option<nat>, extra: ArgumentsError) -> Option<ArgumentsError> {
    if !is_proper(args) {
        Some(ArgumentsError::DottedPair)
    } else if elems(args).len() < min {
        Some(ArgumentsError::NotEnough)
    } else if max is Some && elems(args).len() > max->0 {
        Some(extra)
    } else {
        None
    }
}

/// The bindings of the first `n` parameters to the first `n` values, made
/// in order, so that of two equal names the later one wins.
pub open spec fn bind_map(params: Seq<Seq<char>>, values: Seq<Rc<Object>>, n: nat) -> Map<Seq<char>, Rc<Object>>
    decreases n,
{
    if n == 0 {
        Map::empty()
    } else {
        bind_map(params, values, (n - 1) as nat).insert(params[n - 1], values[n - 1])
    }
}

/// The interpreter's state: a stack of local scope frames (innermost
/// last), the global table, and the number of evaluation steps left.
pub struct Lisp {
    scope: Vec<Frame>,
    globals: Frame,
    steps: u64,
}

impl Lisp {
    /// The local frames' bindings, innermost last.
    pub closed spec fn frames(&self) -> Seq<Map<Seq<char>, Rc<Object>>> {
        self.scope@.map_values(|f: Frame| frame_bindings(f))
    }

    /// The global table's bindings.
    pub closed spec fn global_table(&self) -> Map<Seq<char>, Rc<Object>> {
        frame_bindings(self.globals)
    }

    /// Evaluation steps left.
    pub closed spec fn budget(&self) -> nat {
        self.steps as nat
    }

    /// The state as the evaluation semantics sees it.
    pub open spec fn st(&self) -> St {
        St { frames: self.frames(), globals: self.global_table(), budget: self.budget() }
    }

    /// The value of a name in this state.
    pub open spec fn value_of(&self, name: Seq<char>) -> Option<Rc<Object>> {
        lookup(self.frames(), self.global_table(), name)
    }

    /// Every frame of `old` is still here, with the names it held; only the
    /// innermost may hold more. (Where `old` has no frame, a binding may
    /// have made one.)
    pub open spec fn keeps_scopes(&self, old: Lisp) -> bool {
        let n = self.frames();
        let o = old.frames();
        if o.len() == 0 {
            n.len() <= 1
        } else {
            &&& n.len() == o.len()
            &&& forall|i: int| 0 <= i < n.len() - 1 ==> (#[trigger] n[i]).dom() == o[i].dom()
            &&& o.last().dom().subset_of(n.last().dom())
        }
    }

    /// Both states have the same frames, each with the same names.
    pub open spec fn same_names(&self, old: Lisp) -> bool {
        let n = self.frames();
        let o = old.frames();
        &&& n.len() == o.len()
        &&& forall|i: int| 0 <= i < n.len() ==> (#[trigger] n[i]).dom() == o[i].dom()
    }

    /// A new interpreter: one empty local frame, an empty global table, and
    /// as many evaluation steps as a `u64` counts.
    pub fn new() -> (r: Lisp)
        ensures
            r.frames().len() == 1,
            r.frames()[0] == Map::<Seq<char>, Rc<Object>>::empty(),
            r.global_table() == Map::<Seq<char>, Rc<Object>>::empty(),
            r.budget() == u64::MAX,
    {
        let mut scope: Vec<Frame> = Vec::new();
        scope.push(Frame::new());
        let r = Lisp { scope, globals: Frame::new(), steps: u64::MAX };
        assert(r.frames() =~= seq![Map::<Seq<char>, Rc<Object>>::empty()]);
        r
    }

    /// Sets the number of evaluation steps left.
    pub fn set_budget(&mut self, steps: u64)
        ensures
            final(self).budget() == steps,
            final(self).frames() == old(self).frames(),
            final(self).global_table() == old(self).global_table(),
    {
        self.steps = steps;
    }

    /// Opens a new, empty local frame.
    pub fn scope_create(&mut self)
        ensures
            final(self).frames() == old(self).frames().push(Map::<Seq<char>, Rc<Object>>::empty()),
            final(self).global_table() == old(self).global_table(),
            final(self).budget() == old(self).budget(),
    {
        self.scope.push(Frame::new());
        assert(self.frames() =~= old(self).frames().push(Map::<Seq<char>, Rc<Object>>::empty()));
    }

    /// Closes the innermost local frame, if there is one.
    pub fn scope_end(&mut self)
        ensures
            old(self).frames().len() > 0 ==> final(self).frames() == old(self).frames().drop_last(),
            old(self).frames().len() == 0 ==> final(self).frames() == old(self).frames(),
            final(self).global_table() == old(self).global_table(),
            final(self).budget() == old(self).budget(),
    {
        if self.scope.len() > 0 {
            self.scope.pop();
            assert(self.frames() =~= old(self).frames().drop_last());
        }
    }

    /// Binds a name. A global binding fails with `GlobalExists` where the
    /// name is bound in the global table already; a local binding goes into
    /// the innermost frame and always succeeds, shadowing what it may.
    pub fn add_var(&mut self, global: bool, name: &str, object: Rc<Object>) -> (r: Result<(), LispError>)
        ensures
            final(self).budget() == old(self).budget(),
            global && old(self).global_table().contains_key(name@) ==> is_err_global_exists(r, name@)
                && *final(self) == *old(self),
            global && !old(self).global_table().contains_key(name@) ==> r is Ok
                && final(self).global_table() == old(self).global_table().insert(name@, object)
                && final(self).frames() == old(self).frames(),
            !global ==> r is Ok && final(self).global_table() == old(self).global_table()
                && final(self).frames() == bind_local(old(self).frames(), name@, object),
    {
        if global {
            match self.globals.get(name) {
                Some(_) => Err(LispError::eval(EvalError::GlobalExists(name.to_string()))),
                None => {
                    self.globals.insert(name.to_string(), object);
                    Ok(())
                },
            }
        } else {
            let mut top = match self.scope.pop() {
                Some(f) => f,
                None => Frame::new(),
            };
            top.insert(name.to_string(), object);
            self.scope.push(top);
            assert(self.frames() =~= bind_local(old(self).frames(), name@, object));
            Ok(())
        }
    }

    /// Binds a name to a native function.
    pub fn add_func(&mut self, global: bool, name: &str, func: Native) -> (r: Result<(), LispError>)
        ensures
            final(self).budget() == old(self).budget(),
            global && old(self).global_table().contains_key(name@) ==> is_err_global_exists(r, name@)
                && *final(self) == *old(self),
            global && !old(self).global_table().contains_key(name@) ==> r is Ok
                && final(self).global_table() == old(self).global_table().insert(name@, Rc::new(Object::RustFunc(func)))
                && final(self).frames() == old(self).frames(),
            !global ==> r is Ok && final(self).global_table() == old(self).global_table()
                && final(self).frames() == bind_local(old(self).frames(), name@, Rc::new(Object::RustFunc(func))),
    {
        self.add_var(global, name, Rc::new(Object::RustFunc(func)))
    }
}

/// The frames after a local binding: it goes into the innermost frame (into
/// a new one where there is none).
pub open spec fn bind_local(
    frames: Seq<Map<Seq<char>, Rc<Object>>>,
    name: Seq<char>,
    v: Rc<Object>,
) -> Seq<Map<Seq<char>, Rc<Object>>> {
    if frames.len() == 0 {
        seq![Map::<Seq<char>, Rc<Object>>::empty().insert(name, v)]
    } else {
        frames.update(frames.len() - 1, frames.last().insert(name, v))
    }
}

pub open spec fn is_err_global_exists(r: Result<(), LispError>, name: Seq<char>) -> bool {
    r matches Err(e) && is_global_exists(e, name)
}

/// Where `assign` finds a name: the innermost frame that binds it.
pub open spec fn assigned_index(frames: Seq<Map<Seq<char>, Rc<Object>>>, name: Seq<char>) -> Option<int>
    decreases frames.len(),
{
    if frames.len() == 0 {
        None
    } else if frames.last().contains_key(name) {
        Some(frames.len() - 1)
    } else {
        assigned_index(frames.drop_last(), name)
    }
}

/// The frames and global table after assigning `v` to `name`: the binding
/// found first, innermost frame to outermost and then the global table, is
/// changed; where there is none, a new local binding is made.
pub open spec fn assign(
    frames: Seq<Map<Seq<char>, Rc<Object>>>,
    globals: Map<Seq<char>, Rc<Object>>,
    name: Seq<char>,
    v: Rc<Object>,
) -> (Seq<Map<Seq<char>, Rc<Object>>>, Map<Seq<char>, Rc<Object>>) {
    match assigned_index(frames, name) {
        Some(i) => (frames.update(i, frames[i].insert(name, v)), globals),
        None => if globals.contains_key(name) {
            (frames, globals.insert(name, v))
        } else {
            (bind_local(frames, name, v), globals)
        },
    }
}

proof fn lemma_assigned_index(frames: Seq<Map<Seq<char>, Rc<Object>>>, name: Seq<char>)
    ensures
        assigned_index(frames, name) matches Some(i) ==> 0 <= i < frames.len() && frames[i].contains_key(name),
    decreases frames.len(),
{
    if frames.len() > 0 && !frames.last().contains_key(name) {
        lemma_assigned_index(frames.drop_last(), name);
    }
}

pub proof fn lemma_keeps_trans(a: Lisp, b: Lisp, c: Lisp)
    requires
        b.keeps_scopes(a),
        c.keeps_scopes(b),
    ensures
        c.keeps_scopes(a),
{
    let n = c.frames();
    if a.frames().len() > 0 {
        assert forall|i: int| 0 <= i < n.len() - 1 implies (#[trigger] n[i]).dom() == a.frames()[i].dom() by {
            assert(b.frames()[i].dom() == a.frames()[i].dom());
        }
    }
}

/// An assignment keeps every frame and every name in it, but may add a
/// name to the innermost frame.
pub proof fn lemma_assign_keeps(a: Lisp, b: Lisp, name: Seq<char>, v: Rc<Object>)
    requires
        (b.frames(), b.global_table()) == assign(a.frames(), a.global_table(), name, v),
    ensures
        b.keeps_scopes(a),
{
    lemma_assigned_index(a.frames(), name);
    let n = b.frames();
    let o = a.frames();
    match assigned_index(o, name) {
        Some(i) => {
            assert forall|k: int| 0 <= k < n.len() - 1 implies (#[trigger] n[k]).dom() == o[k].dom() by {
                if k == i {
                    assert(o[i].insert(name, v).dom() =~= o[i].dom());
                }
            }
            if i == o.len() - 1 {
                assert(o[i].insert(name, v).dom() =~= o[i].dom());
            }
        },
        None => {},
    }
}

pub proof fn lemma_keeps_refl(a: Lisp)
    ensures
        a.keeps_scopes(a),
{
}

/// The result of a call whose arguments a native function takes as
/// `quote` does.
pub open spec fn quote_spec(args: Object) -> Result<Rc<Object>, RustFuncError> {
    match arg_check(datum(args), 1, Some(1), ArgumentsError::TooMany) {
        Some(e) => Err(RustFuncError::InvalidArguments(e)),
        None => Ok(first(args)),
    }
}

/// The objects along a chain of pairs; `None` for a dotted list.
pub fn list_items(o: &Rc<Object>) -> (r: Option<Vec<Rc<Object>>>)
    ensures
        is_proper(datum(**o)) <==> r is Some,
        r matches Some(v) ==> crate::object::data(v@) == elems(datum(**o)),
        r matches Some(v) ==> v@.len() == elems(datum(**o)).len(),
        r matches Some(v) ==> v@ == crate::object::items(**o),
{
    let mut out: Vec<Rc<Object>> = Vec::new();
    let mut cur: Rc<Object> = o.clone();
    loop
        invariant
            is_proper(datum(**o)) == is_proper(datum(*cur)),
            elems(datum(**o)) == crate::object::data(out@) + elems(datum(*cur)),
            crate::object::items(**o) == out@ + crate::object::items(*cur),
        decreases elems(datum(*cur)).len(),
    {
        proof {
            lemma_rc_unfold(cur);
        }
        let next = match &*cur {
            Object::Pair(h, t) => {
                let ghost before = crate::object::data(out@);
                let ghost before_items = out@;
                out.push(h.clone());
                assert(crate::object::items(*cur) == seq![*h] + crate::object::items(**t));
                assert(before_items + (seq![*h] + crate::object::items(**t)) =~= out@ + crate::object::items(**t));
                assert(crate::object::data(out@) =~= before.push(datum(**h)));
                assert(elems(datum(*cur)) == seq![datum(**h)] + elems(datum(**t)));
                assert(before + (seq![datum(**h)] + elems(datum(**t))) =~= before.push(datum(**h)) + elems(datum(**t)));
                t.clone()
            },
            Object::Nil => {
                assert(crate::object::data(out@) + Seq::<Datum>::empty() =~= crate::object::data(out@));
                assert(out@ + Seq::<Rc<Object>>::empty() =~= out@);
                return Some(out);
            },
            _ => {
                return None;
            },
        };
        cur = next;
    }
}

/// Binds parameters to argument values in a new frame, in order. Too few
/// values are `NotEnough`; values beyond the parameters are left out.
pub fn bind_params(params: &Vec<String>, values: &Vec<Rc<Object>>) -> (r: Result<Frame, ArgumentsError>)
    ensures
        values.len() < params.len() <==> r is Err,
        r matches Err(e) ==> e == ArgumentsError::NotEnough,
        r matches Ok(f) ==> frame_bindings(f) == bind_map(crate::object::names_of(params@), values@, params.len() as nat),
{
    if values.len() < params.len() {
        return Err(ArgumentsError::NotEnough);
    }
    let mut f = Frame::new();
    let mut i: usize = 0;
    while i < params.len()
        invariant
            i <= params.len() <= values.len(),
            frame_bindings(f) == bind_map(crate::object::names_of(params@), values@, i as nat),
        decreases params.len() - i,
    {
        f.insert(params[i].clone(), values[i].clone());
        i = i + 1;
    }
    Ok(f)
}

impl Lisp {
    /// The value of a symbol: `Nil` for the empty symbol, else its binding
    /// in the innermost local frame that has one, else in the global table.
    pub fn eval_symbol(&self, symbol: &str) -> (r: Result<Rc<Object>, LispError>)
        ensures
            symbol@.len() == 0 ==> (r matches Ok(v) && *v == Object::Nil),
            symbol@.len() > 0 ==> match self.value_of(symbol@) {
                Some(v) => r == Ok::<Rc<Object>, LispError>(v),
                None => r matches Err(e) && is_unknown_symbol(e, symbol@),
            },
    {
        if symbol.is_empty() {
            return Ok(Rc::new(Object::Nil));
        }
        let mut i: usize = self.scope.len();
        assert(self.frames().take(i as int) =~= self.frames());
        while i > 0
            invariant
                i <= self.scope.len(),
                symbol@.len() > 0,
                self.value_of(symbol@) == lookup(self.frames().take(i as int), self.global_table(), symbol@),
            decreases i,
        {
            let ghost fr = self.frames().take(i as int);
            assert(fr.drop_last() =~= self.frames().take(i - 1));
            match self.scope[i - 1].get(symbol) {
                Some(o) => {
                    return Ok(o);
                },
                None => {},
            }
            i = i - 1;
        }
        match self.globals.get(symbol) {
            Some(o) => Ok(o),
            None => Err(LispError::eval(EvalError::UnknownSymbol(symbol.to_string()))),
        }
    }

    /// Assigns to a name: the binding found first, innermost frame to
    /// outermost and then the global table, is changed; where there is
    /// none, a new local binding is made in the innermost frame.
    pub fn set_var(&mut self, symbol: &str, data: Rc<Object>)
        ensures
            (final(self).frames(), final(self).global_table()) == assign(old(self).frames(), old(self).global_table(), symbol@, data),
            final(self).budget() == old(self).budget(),
    {
        let mut i: usize = self.scope.len();
        assert(old(self).frames().take(i as int) =~= old(self).frames());
        while i > 0
            invariant
                i <= self.scope.len(),
                self.frames() == old(self).frames(),
                self.global_table() == old(self).global_table(),
                self.budget() == old(self).budget(),
                assigned_index(old(self).frames(), symbol@) == assigned_index(old(self).frames().take(i as int), symbol@),
            decreases i,
        {
            let ghost fr = old(self).frames().take(i as int);
            assert(fr.drop_last() =~= old(self).frames().take(i - 1));
            let mut f = self.scope.remove(i - 1);
            if f.replace(symbol, data.clone()) {
                self.scope.insert(i - 1, f);
                proof {
                    lemma_assigned_index(old(self).frames(), symbol@);
                }
                assert(self.frames() =~= old(self).frames().update(i - 1, old(self).frames()[i - 1].insert(symbol@, data)));
                return;
            }
            self.scope.insert(i - 1, f);
            assert(self.frames() =~= old(self).frames());
            i = i - 1;
        }
        if !self.globals.replace(symbol, data.clone()) {
            let _ = self.add_var(false, symbol, data);
        }
    }

    fn take_budget(&mut self) -> (r: bool)
        ensures
            r == (old(self).budget() > 0),
            r ==> final(self).budget() == old(self).budget() - 1,
            !r ==> final(self).budget() == old(self).budget(),
            final(self).frames() == old(self).frames(),
            final(self).global_table() == old(self).global_table(),
    {
        if self.steps == 0 {
            false
        } else {
            self.steps = self.steps - 1;
            true
        }
    }

    /// The value of a symbol object (see `symbol_result`).
    fn lookup_symbol(&self, name: &String) -> (r: Result<Rc<Object>, LispError>)
        ensures
            r == symbol_result(self.st(), *name),
    {
        match self.eval_symbol(name.as_str()) {
            Ok(v) => Ok(v),
            Err(_) => Err(LispError::eval(EvalError::UnknownSymbol(name.clone()))),
        }
    }

    /// Binds a global name, or fails with `GlobalExists` and changes
    /// nothing (see `define_in`).
    pub fn define_global(&mut self, name: String, v: Rc<Object>) -> (r: Result<(), LispError>)
        ensures
            old(self).global_table().contains_key(name@) ==> r == Err::<(), LispError>(
                LispError::eval_spec(EvalError::GlobalExists(name))) && final(self).st() == old(self).st(),
            !old(self).global_table().contains_key(name@) ==> r is Ok && final(self).st() == (St {
                frames: old(self).frames(),
                globals: old(self).global_table().insert(name@, v),
                budget: old(self).budget(),
            }),
    {
        match self.globals.get(name.as_str()) {
            Some(_) => Err(LispError::eval(EvalError::GlobalExists(name))),
            None => {
                self.globals.insert(name, v);
                Ok(())
            },
        }
    }

    /// Runs a native function on its unevaluated argument list (see
    /// `native`); a host function goes to the host.
    pub fn call_native<H: Host>(&mut self, host: &mut H, f: Native, args: Rc<Object>) -> (r: Result<Rc<Object>, RustFuncError>)
        ensures
            final(self).keeps_scopes(*old(self)),
            final(self).budget() <= old(self).budget(),
            native(old(self).st(), f, args) matches Some((s, x)) ==> final(self).st() == s && r == x,
        decreases old(self).budget(), 4int,
    {
        match f {
            Native::Quote => {
                proof { lemma_keeps_refl(*self); }
                builtins::quote(args)
            },
            Native::Eval => builtins::eval(self, host, args),
            Native::While => builtins::lispwhile(self, host, args),
            Native::If => builtins::lispif(self, host, args),
            Native::Func => {
                proof { lemma_keeps_refl(*self); }
                builtins::func(args)
            },
            Native::Car => builtins::car(self, host, args),
            Native::Cdr => builtins::cdr(self, host, args),
            Native::Cons => builtins::cons(self, host, args),
            Native::Assign => builtins::set(self, host, args),
            Native::Define => builtins::define(self, host, args),
            Native::Defunc => builtins::defunc(self, args),
            Native::Equal => builtins::equal(self, host, args, true),
            Native::NotEqual => builtins::equal(self, host, args, false),
            Native::Host(id) => {
                let saved = self.steps;
                let r = host.call(self, id, args);
                if self.steps > saved {
                    self.steps = saved;
                }
                r
            },
        }
    }

    /// Evaluates an object (see `ev`): a symbol to its value, a quoted
    /// object to what it quotes, a pair is a call, anything else evaluates
    /// to itself. Each evaluation takes one step; with none left it fails
    /// with `StepLimit`.
    pub fn eval_object<H: Host>(&mut self, host: &mut H, object: Rc<Object>) -> (r: Result<Rc<Object>, LispError>)
        ensures
            final(self).keeps_scopes(*old(self)),
            final(self).budget() <= old(self).budget(),
            r is Ok ==> final(self).budget() < old(self).budget(),
            ev(old(self).st(), object) matches Some((s, x)) ==> final(self).st() == s && r == x,
        decreases old(self).budget(), 0int,
    {
        if !self.take_budget() {
            return Err(LispError::eval(EvalError::StepLimit));
        }
        let ghost s1 = *self;
        match &*object {
            Object::Pair(f, a) => {
                let callee = match self.eval_object(host, f.clone()) {
                    Ok(c) => c,
                    Err(e) => return Err(e),
                };
                let ghost after = *self;
                proof {
                    lemma_keeps_trans(*old(self), s1, after);
                    if ev(old(self).st(), object) is Some {
                        assert(ev(s1.st(), *f) == Some((after.st(), Ok::<Rc<Object>, LispError>(callee))));
                        assert(ev(old(self).st(), object) == call(after.st(), callee, object, *a));
                    }
                }
                match &*callee {
                    Object::RustFunc(n) => {
                        let r = self.call_native(host, *n, a.clone());
                        proof {
                            lemma_keeps_trans(*old(self), after, *self);
                        }
                        match r {
                            Ok(x) => Ok(x),
                            Err(e) => Err(LispError::rust_func(e)),
                        }
                    },
                    Object::LispFunc(p, body) => {
                        let r = self.apply(host, p.clone(), body.clone(), a.clone());
                        proof {
                            lemma_keeps_trans(*old(self), after, *self);
                        }
                        r
                    },
                    Object::Character(_) => Ok(object.clone()),
                    _ => Err(LispError::eval(EvalError::NonFunction(object.clone()))),
                }
            },
            Object::Symbol(s) => {
                assert(self.st() == (St { frames: old(self).frames(), globals: old(self).global_table(), budget: (old(self).budget() - 1) as nat }));
                proof { lemma_keeps_trans(*old(self), s1, *self); }
                self.lookup_symbol(s)
            },
            Object::Quoted(o) => Ok(o.clone()),
            _ => Ok(object.clone()),
        }
    }

    /// Evaluates `xs[i..]` in order after the values `vals` (see `ev_args`).
    pub fn eval_args<H: Host>(&mut self, host: &mut H, xs: &Vec<Rc<Object>>) -> (r: Result<Vec<Rc<Object>>, LispError>)
        ensures
            final(self).keeps_scopes(*old(self)),
            final(self).budget() <= old(self).budget(),
            r is Ok && xs@.len() > 0 ==> final(self).budget() < old(self).budget(),
            ev_args(old(self).st(), xs@, 0, Seq::empty()) matches Some((s, x)) ==> final(self).st() == s
                && match x {
                Ok(vs) => r matches Ok(v) && v@ == vs,
                Err(e) => r == Err::<Vec<Rc<Object>>, LispError>(e),
            },
        decreases old(self).budget(), 1int,
    {
        let mut values: Vec<Rc<Object>> = Vec::new();
        let mut i: usize = 0;
        proof {
            lemma_keeps_refl(*self);
        }
        while i < xs.len()
            invariant
                i <= xs.len(),
                self.keeps_scopes(*old(self)),
                self.budget() <= old(self).budget(),
                i > 0 ==> self.budget() < old(self).budget(),
                ev_args(old(self).st(), xs@, 0, Seq::empty()) matches Some(t) ==> ev_args(self.st(), xs@, i as int, values@) == Some(t),
            decreases xs.len() - i,
        {
            let ghost before = *self;
            let v = self.eval_object(host, xs[i].clone());
            proof {
                lemma_keeps_trans(*old(self), before, *self);
            }
            match v {
                Ok(v) => values.push(v),
                Err(e) => return Err(e),
            }
            i = i + 1;
        }
        Ok(values)
    }

    /// Calls an interpreted function (see `apply`).
    fn apply<H: Host>(&mut self, host: &mut H, p: Rc<Object>, body: Rc<Object>, args: Rc<Object>) -> (r: Result<Rc<Object>, LispError>)
        ensures
            final(self).keeps_scopes(*old(self)),
            final(self).budget() <= old(self).budget(),
            apply(old(self).st(), p, body, args) matches Some((s, x)) ==> final(self).st() == s && r == x,
        decreases old(self).budget(), 2int,
    {
        let items = match list_items(&args) {
            Some(v) => v,
            None => {
                proof { lemma_keeps_refl(*self); }
                return Err(LispError::rust_func(RustFuncError::new_args_error(ArgumentsError::DottedPair)));
            },
        };
        let values = self.eval_args(host, &items)?;
        let names = match crate::builtins::param_names(&p) {
            Ok(n) => n,
            Err(_) => return Err(LispError::rust_func(RustFuncError::new_args_error(ArgumentsError::WrongType))),
        };
        let frame = match bind_params(&names, &values) {
            Ok(f) => f,
            Err(e) => return Err(LispError::rust_func(RustFuncError::new_args_error(e))),
        };
        let ghost callers = *self;
        let mut saved: Vec<Frame> = Vec::new();
        saved.push(frame);
        std::mem::swap(&mut self.scope, &mut saved);
        assert(self.frames() =~= seq![frame_bindings(frame)]);
        let r = self.eval_body(host, &body);
        std::mem::swap(&mut self.scope, &mut saved);
        assert(self.frames() == callers.frames());
        r
    }

    /// Evaluates the forms along a chain of pairs in order; the value of
    /// the last one, or `Nil` for none (see `ev_list`).
    pub fn eval_body<H: Host>(&mut self, host: &mut H, body: &Rc<Object>) -> (r: Result<Rc<Object>, LispError>)
        ensures
            final(self).keeps_scopes(*old(self)),
            final(self).budget() <= old(self).budget(),
            ev_list(old(self).st(), *body, nil()) matches Some((s, x)) ==> final(self).st() == s && r == x,
        decreases old(self).budget(), 1int,
    {
        let mut ret: Rc<Object> = Rc::new(Object::Nil);
        let mut cur: Rc<Object> = body.clone();
        proof {
            lemma_keeps_refl(*self);
        }
        loop
            invariant
                self.keeps_scopes(*old(self)),
                self.budget() <= old(self).budget(),
                ev_list(old(self).st(), *body, nil()) matches Some(t) ==> ev_list(self.st(), cur, ret) == Some(t),
            decreases elems(datum(*cur)).len(),
        {
            proof {
                lemma_rc_unfold(cur);
            }
            let next = match &*cur {
                Object::Pair(h, t) => {
                    let ghost before = *self;
                    let v = self.eval_object(host, h.clone());
                    proof {
                        lemma_keeps_trans(*old(self), before, *self);
                    }
                    match v {
                        Ok(v) => {
                            ret = v;
                        },
                        Err(e) => {
                            return Err(e);
                        },
                    }
                    t.clone()
                },
                _ => {
                    return Ok(ret);
                },
            };
            cur = next;
        }
    }

    /// Reads the objects a token sequence writes (see `Object::eval`) and
    /// evaluates them in order; the value of the last. A reader error comes
    /// back as it is, before anything is evaluated.
    pub fn eval<H: Host>(&mut self, host: &mut H, tokens: &Vec<Token>) -> (r: Result<Rc<Object>, LispError>)
        ensures
            final(self).keeps_scopes(*old(self)),
            final(self).budget() <= old(self).budget(),
            read_tokens(toks(tokens@)) matches Err(f) ==> (r matches Err(e) && e.kind == LispErrorKind::Parser
                && (e.error matches ErrorCause::Parser(pe) && fault_of(pe) == f)) && *final(self) == *old(self),
            read_tokens(toks(tokens@)) matches Ok(ds) ==> exists|objs: Seq<Rc<Object>>|
                #[trigger] crate::object::data(objs) == ds && (ev_seq(old(self).st(), objs, 0, nil()) matches Some((s, x))
                    ==> final(self).st() == s && r == x),
    {
        let mut objects = match Object::eval(tokens) {
            Ok(v) => v,
            Err(e) => {
                proof {
                    lemma_keeps_refl(*self);
                }
                return Err(e);
            },
        };
        let ghost orig = objects@;
        let mut shared: Vec<Rc<Object>> = Vec::new();
        while objects.len() > 0
            invariant
                shared@.len() + objects@.len() == orig.len(),
                objects@ == orig.skip(shared@.len() as int),
                forall|k: int| 0 <= k < shared@.len() ==> *#[trigger] shared@[k] == orig[k],
            decreases objects.len(),
        {
            let o = objects.remove(0);
            shared.push(Rc::new(o));
            assert(objects@ =~= orig.skip(shared@.len() as int));
        }
        assert(crate::object::data(shared@) =~= orig.map_values(|o: Object| datum(o)));
        self.eval_objects(host, shared)
    }

    /// Evaluates objects in order in a scope of their own: a fresh frame
    /// whose only parent is the global table, as an included file is. The
    /// caller's frames are back in place afterwards.
    pub fn eval_detached<H: Host>(&mut self, host: &mut H, objects: Vec<Rc<Object>>) -> (r: Result<Rc<Object>, LispError>)
        ensures
            final(self).frames() == old(self).frames(),
            final(self).budget() <= old(self).budget(),
            ev_seq(St { frames: seq![Map::empty()], globals: old(self).global_table(), budget: old(self).budget() }, objects@, 0, nil())
                matches Some((s, x)) ==> final(self).global_table() == s.globals && final(self).budget() == s.budget && r == x,
    {
        let mut saved: Vec<Frame> = Vec::new();
        saved.push(Frame::new());
        std::mem::swap(&mut self.scope, &mut saved);
        assert(self.frames() =~= seq![Map::<Seq<char>, Rc<Object>>::empty()]);
        let r = self.eval_objects(host, objects);
        std::mem::swap(&mut self.scope, &mut saved);
        r
    }

    /// Evaluates objects in order; the value of the last one, or `Nil` for
    /// none. The first error stops the evaluation (see `ev_seq`).
    pub fn eval_objects<H: Host>(&mut self, host: &mut H, objects: Vec<Rc<Object>>) -> (r: Result<Rc<Object>, LispError>)
        ensures
            final(self).keeps_scopes(*old(self)),
            final(self).budget() <= old(self).budget(),
            ev_seq(old(self).st(), objects@, 0, nil()) matches Some((s, x)) ==> final(self).st() == s && r == x,
        decreases old(self).budget(), 1int,
    {
        let mut ret: Rc<Object> = Rc::new(Object::Nil);
        let mut i: usize = 0;
        proof {
            lemma_keeps_refl(*self);
        }
        while i < objects.len()
            invariant
                i <= objects.len(),
                self.keeps_scopes(*old(self)),
                self.budget() <= old(self).budget(),
                ev_seq(old(self).st(), objects@, 0, nil()) matches Some(t) ==> ev_seq(self.st(), objects@, i as int, ret) == Some(t),
            decreases objects.len() - i,
        {
            let ghost before = *self;
            match self.eval_object(host, objects[i].clone()) {
                Ok(v) => {
                    ret = v;
                },
                Err(e) => {
                    proof {
                        lemma_keeps_trans(*old(self), before, *self);
                    }
                    return Err(e);
                },
            }
            proof {
                lemma_keeps_trans(*old(self), before, *self);
            }
            i = i + 1;
        }
        Ok(ret)
    }
}

/// The single-precision bit pattern of pi.
pub const PI_BITS: u32 = 0x4049_0fdb;

/// The global table after the interpreter's standard bindings are added:
/// `t`, `f` (`Nil`), `pi`, and its own native functions, `=` and `set`
/// both for assignment, `eq`/`==` and `ne`/`!=` for comparison.
pub open spec fn std_globals(g: Map<Seq<char>, Rc<Object>>) -> Map<Seq<char>, Rc<Object>> {
    g.insert("t"@, Rc::new(Object::True))
        .insert("f"@, Rc::new(Object::Nil))
        .insert("pi"@, Rc::new(Object::Number(PI_BITS)))
        .insert("quote"@, Rc::new(Object::RustFunc(Native::Quote)))
        .insert("eval"@, Rc::new(Object::RustFunc(Native::Eval)))
        .insert("while"@, Rc::new(Object::RustFunc(Native::While)))
        .insert("if"@, Rc::new(Object::RustFunc(Native::If)))
        .insert("func"@, Rc::new(Object::RustFunc(Native::Func)))
        .insert("car"@, Rc::new(Object::RustFunc(Native::Car)))
        .insert("cdr"@, Rc::new(Object::RustFunc(Native::Cdr)))
        .insert("cons"@, Rc::new(Object::RustFunc(Native::Cons)))
        .insert("="@, Rc::new(Object::RustFunc(Native::Assign)))
        .insert("def"@, Rc::new(Object::RustFunc(Native::Define)))
        .insert("defunc"@, Rc::new(Object::RustFunc(Native::Defunc)))
        .insert("set"@, Rc::new(Object::RustFunc(Native::Assign)))
        .insert("eq"@, Rc::new(Object::RustFunc(Native::Equal)))
        .insert("ne"@, Rc::new(Object::RustFunc(Native::NotEqual)))
        .insert("=="@, Rc::new(Object::RustFunc(Native::Equal)))
        .insert("!="@, Rc::new(Object::RustFunc(Native::NotEqual)))
}

/// The names of the interpreter's standard bindings.
pub open spec fn std_names() -> Seq<Seq<char>> {
    seq!["t"@, "f"@, "pi"@, "quote"@, "eval"@, "while"@, "if"@, "func"@, "car"@, "cdr"@, "cons"@, "="@, "def"@, "defunc"@, "set"@, "eq"@, "ne"@, "=="@, "!="@]
}

/// The standard names are pairwise distinct.
proof fn lemma_std_names_distinct()
    ensures
        forall|i: int, j: int|
            0 <= j < i < std_names().len() ==> #[trigger] std_names()[i] != #[trigger] std_names()[j],
{
    reveal_strlit("t");
    reveal_strlit("f");
    reveal_strlit("pi");
    reveal_strlit("quote");
    reveal_strlit("eval");
    reveal_strlit("while");
    reveal_strlit("if");
    reveal_strlit("func");
    reveal_strlit("car");
    reveal_strlit("cdr");
    reveal_strlit("cons");
    reveal_strlit("=");
    reveal_strlit("def");
    reveal_strlit("defunc");
    reveal_strlit("set");
    reveal_strlit("eq");
    reveal_strlit("ne");
    reveal_strlit("==");
    reveal_strlit("!=");
    assert("f"@[0] != "t"@[0]);
    assert("pi"@.len() != "t"@.len());
    assert("pi"@.len() != "f"@.len());
    assert("quote"@.len() != "t"@.len());
    assert("quote"@.len() != "f"@.len());
    assert("quote"@.len() != "pi"@.len());
    assert("eval"@.len() != "t"@.len());
    assert("eval"@.len() != "f"@.len());
    assert("eval"@.len() != "pi"@.len());
    assert("eval"@.len() != "quote"@.len());
    assert("while"@.len() != "t"@.len());
    assert("while"@.len() != "f"@.len());
    assert("while"@.len() != "pi"@.len());
    assert("while"@[0] != "quote"@[0]);
    assert("while"@.len() != "eval"@.len());
    assert("if"@.len() != "t"@.len());
    assert("if"@.len() != "f"@.len());
    assert("if"@[0] != "pi"@[0]);
    assert("if"@.len() != "quote"@.len());
    assert("if"@.len() != "eval"@.len());
    assert("if"@.len() != "while"@.len());
    assert("func"@.len() != "t"@.len());
    assert("func"@.len() != "f"@.len());
    assert("func"@.len() != "pi"@.len());
    assert("func"@.len() != "quote"@.len());
    assert("func"@[0] != "eval"@[0]);
    assert("func"@.len() != "while"@.len());
    assert("func"@.len() != "if"@.len());
    assert("car"@.len() != "t"@.len());
    assert("car"@.len() != "f"@.len());
    assert("car"@.len() != "pi"@.len());
    assert("car"@.len() != "quote"@.len());
    assert("car"@.len() != "eval"@.len());
    assert("car"@.len() != "while"@.len());
    assert("car"@.len() != "if"@.len());
    assert("car"@.len() != "func"@.len());
    assert("cdr"@.len() != "t"@.len());
    assert("cdr"@.len() != "f"@.len());
    assert("cdr"@.len() != "pi"@.len());
    assert("cdr"@.len() != "quote"@.len());
    assert("cdr"@.len() != "eval"@.len());
    assert("cdr"@.len() != "while"@.len());
    assert("cdr"@.len() != "if"@.len());
    assert("cdr"@.len() != "func"@.len());
    assert("cdr"@[1] != "car"@[1]);
    assert("cons"@.len() != "t"@.len());
    assert("cons"@.len() != "f"@.len());
    assert("cons"@.len() != "pi"@.len());
    assert("cons"@.len() != "quote"@.len());
    assert("cons"@[0] != "eval"@[0]);
    assert("cons"@.len() != "while"@.len());
    assert("cons"@.len() != "if"@.len());
    assert("cons"@[0] != "func"@[0]);
    assert("cons"@.len() != "car"@.len());
    assert("cons"@.len() != "cdr"@.len());
    assert("="@[0] != "t"@[0]);
    assert("="@[0] != "f"@[0]);
    assert("="@.len() != "pi"@.len());
    assert("="@.len() != "quote"@.len());
    assert("="@.len() != "eval"@.len());
    assert("="@.len() != "while"@.len());
    assert("="@.len() != "if"@.len());
    assert("="@.len() != "func"@.len());
    assert("="@.len() != "car"@.len());
    assert("="@.len() != "cdr"@.len());
    assert("="@.len() != "cons"@.len());
    assert("def"@.len() != "t"@.len());
    assert("def"@.len() != "f"@.len());
    assert("def"@.len() != "pi"@.len());
    assert("def"@.len() != "quote"@.len());
    assert("def"@.len() != "eval"@.len());
    assert("def"@.len() != "while"@.len());
    assert("def"@.len() != "if"@.len());
    assert("def"@.len() != "func"@.len());
    assert("def"@[0] != "car"@[0]);
    assert("def"@[0] != "cdr"@[0]);
    assert("def"@.len() != "cons"@.len());
    assert("def"@.len() != "="@.len());
    assert("defunc"@.len() != "t"@.len());
    assert("defunc"@.len() != "f"@.len());
    assert("defunc"@.len() != "pi"@.len());
    assert("defunc"@.len() != "quote"@.len());
    assert("defunc"@.len() != "eval"@.len());
    assert("defunc"@.len() != "while"@.len());
    assert("defunc"@.len() != "if"@.len());
    assert("defunc"@.len() != "func"@.len());
    assert("defunc"@.len() != "car"@.len());
    assert("defunc"@.len() != "cdr"@.len());
    assert("defunc"@.len() != "cons"@.len());
    assert("defunc"@.len() != "="@.len());
    assert("defunc"@.len() != "def"@.len());
    assert("set"@.len() != "t"@.len());
    assert("set"@.len() != "f"@.len());
    assert("set"@.len() != "pi"@.len());
    assert("set"@.len() != "quote"@.len());
    assert("set"@.len() != "eval"@.len());
    assert("set"@.len() != "while"@.len());
    assert("set"@.len() != "if"@.len());
    assert("set"@.len() != "func"@.len());
    assert("set"@[0] != "car"@[0]);
    assert("set"@[0] != "cdr"@[0]);
    assert("set"@.len() != "cons"@.len());
    assert("set"@.len() != "="@.len());
    assert("set"@[0] != "def"@[0]);
    assert("set"@.len() != "defunc"@.len());
    assert("eq"@.len() != "t"@.len());
    assert("eq"@.len() != "f"@.len());
    assert("eq"@[0] != "pi"@[0]);
    assert("eq"@.len() != "quote"@.len());
    assert("eq"@.len() != "eval"@.len());
    assert("eq"@.len() != "while"@.len());
    assert("eq"@[0] != "if"@[0]);
    assert("eq"@.len() != "func"@.len());
    assert("eq"@.len() != "car"@.len());
    assert("eq"@.len() != "cdr"@.len());
    assert("eq"@.len() != "cons"@.len());
    assert("eq"@.len() != "="@.len());
    assert("eq"@.len() != "def"@.len());
    assert("eq"@.len() != "defunc"@.len());
    assert("eq"@.len() != "set"@.len());
    assert("ne"@.len() != "t"@.len());
    assert("ne"@.len() != "f"@.len());
    assert("ne"@[0] != "pi"@[0]);
    assert("ne"@.len() != "quote"@.len());
    assert("ne"@.len() != "eval"@.len());
    assert("ne"@.len() != "while"@.len());
    assert("ne"@[0] != "if"@[0]);
    assert("ne"@.len() != "func"@.len());
    assert("ne"@.len() != "car"@.len());
    assert("ne"@.len() != "cdr"@.len());
    assert("ne"@.len() != "cons"@.len());
    assert("ne"@.len() != "="@.len());
    assert("ne"@.len() != "def"@.len());
    assert("ne"@.len() != "defunc"@.len());
    assert("ne"@.len() != "set"@.len());
    assert("ne"@[0] != "eq"@[0]);
    assert("=="@.len() != "t"@.len());
    assert("=="@.len() != "f"@.len());
    assert("=="@[0] != "pi"@[0]);
    assert("=="@.len() != "quote"@.len());
    assert("=="@.len() != "eval"@.len());
    assert("=="@.len() != "while"@.len());
    assert("=="@[0] != "if"@[0]);
    assert("=="@.len() != "func"@.len());
    assert("=="@.len() != "car"@.len());
    assert("=="@.len() != "cdr"@.len());
    assert("=="@.len() != "cons"@.len());
    assert("=="@.len() != "="@.len());
    assert("=="@.len() != "def"@.len());
    assert("=="@.len() != "defunc"@.len());
    assert("=="@.len() != "set"@.len());
    assert("=="@[0] != "eq"@[0]);
    assert("=="@[0] != "ne"@[0]);
    assert("!="@.len() != "t"@.len());
    assert("!="@.len() != "f"@.len());
    assert("!="@[0] != "pi"@[0]);
    assert("!="@.len() != "quote"@.len());
    assert("!="@.len() != "eval"@.len());
    assert("!="@.len() != "while"@.len());
    assert("!="@[0] != "if"@[0]);
    assert("!="@.len() != "func"@.len());
    assert("!="@.len() != "car"@.len());
    assert("!="@.len() != "cdr"@.len());
    assert("!="@.len() != "cons"@.len());
    assert("!="@.len() != "="@.len());
    assert("!="@.len() != "def"@.len());
    assert("!="@.len() != "defunc"@.len());
    assert("!="@.len() != "set"@.len());
    assert("!="@[0] != "eq"@[0]);
    assert("!="@[0] != "ne"@[0]);
    assert("!="@[0] != "=="@[0]);
}

/// Builds an interpreter: its bindings before any evaluation.
pub struct LispBuilder {
    lisp: Lisp,
}

impl LispBuilder {
    /// The interpreter being built.
    pub closed spec fn state(&self) -> Lisp {
        self.lisp
    }

    /// A builder of a new interpreter (see `Lisp::new`).
    pub fn new() -> (r: LispBuilder)
        ensures
            r.state().frames().len() == 1,
            r.state().frames()[0] == Map::<Seq<char>, Rc<Object>>::empty(),
            r.state().global_table() == Map::<Seq<char>, Rc<Object>>::empty(),
            r.state().budget() == u64::MAX,
    {
        LispBuilder { lisp: Lisp::new() }
    }

    /// Binds a name, as `Lisp::add_var` does.
    pub fn add_var(self, global: bool, name: &str, object: Rc<Object>) -> (r: Result<Self, LispError>)
        ensures
            global && self.state().global_table().contains_key(name@) ==> (r matches Err(e) && is_global_exists(e, name@)),
            global && !self.state().global_table().contains_key(name@) ==> (r matches Ok(b)
                && b.state().global_table() == self.state().global_table().insert(name@, object)
                && b.state().frames() == self.state().frames()
                && b.state().budget() == self.state().budget()),
            !global ==> (r matches Ok(b) && b.state().global_table() == self.state().global_table()
                && b.state().frames() == bind_local(self.state().frames(), name@, object)
                && b.state().budget() == self.state().budget()),
    {
        let mut b = self;
        match b.lisp.add_var(global, name, object) {
            Ok(()) => Ok(b),
            Err(e) => Err(e),
        }
    }

    /// Binds a name to a native function.
    pub fn add_func(self, global: bool, name: &str, func: Native) -> (r: Result<Self, LispError>)
        ensures
            global && self.state().global_table().contains_key(name@) ==> (r matches Err(e) && is_global_exists(e, name@)),
            global && !self.state().global_table().contains_key(name@) ==> (r matches Ok(b)
                && b.state().global_table() == self.state().global_table().insert(name@, Rc::new(Object::RustFunc(func)))
                && b.state().frames() == self.state().frames()
                && b.state().budget() == self.state().budget()),
            !global ==> (r matches Ok(b) && b.state().global_table() == self.state().global_table()
                && b.state().frames() == bind_local(self.state().frames(), name@, Rc::new(Object::RustFunc(func)))
                && b.state().budget() == self.state().budget()),
    {
        self.add_var(global, name, Rc::new(Object::RustFunc(func)))
    }

    /// The interpreter.
    pub fn build(self) -> (r: Lisp)
        ensures
            r == self.state(),
    {
        self.lisp
    }

    /// Adds the interpreter's standard bindings to the global table (see
    /// `std_globals`); fails, with an evaluator error, exactly where one of
    /// their names is bound there already.
    pub fn add_env_std(self) -> (r: Result<Self, LispError>)
        ensures
            r matches Ok(b) ==> b.state().global_table() == std_globals(self.state().global_table())
                && b.state().frames() == self.state().frames()
                && b.state().budget() == self.state().budget(),
            r matches Err(e) ==> e.kind == LispErrorKind::Eval,
            (forall|k: int| 0 <= k < std_names().len() ==> !self.state().global_table().contains_key(
                #[trigger] std_names()[k],
            )) <==> r is Ok,
    {
        proof {
            lemma_std_names_distinct();
            assert(std_names()[0] == "t"@);
            assert(std_names()[1] == "f"@);
            assert(std_names()[2] == "pi"@);
            assert(std_names()[3] == "quote"@);
            assert(std_names()[4] == "eval"@);
            assert(std_names()[5] == "while"@);
            assert(std_names()[6] == "if"@);
            assert(std_names()[7] == "func"@);
            assert(std_names()[8] == "car"@);
            assert(std_names()[9] == "cdr"@);
            assert(std_names()[10] == "cons"@);
            assert(std_names()[11] == "="@);
            assert(std_names()[12] == "def"@);
            assert(std_names()[13] == "defunc"@);
            assert(std_names()[14] == "set"@);
            assert(std_names()[15] == "eq"@);
            assert(std_names()[16] == "ne"@);
            assert(std_names()[17] == "=="@);
            assert(std_names()[18] == "!="@);
        }
        let b = self.add_var(true, "t", Rc::new(Object::True))?;
        let b = b.add_var(true, "f", Rc::new(Object::Nil))?;
        let b = b.add_var(true, "pi", Rc::new(Object::Number(PI_BITS)))?;
        let b = b.add_func(true, "quote", Native::Quote)?;
        let b = b.add_func(true, "eval", Native::Eval)?;
        let b = b.add_func(true, "while", Native::While)?;
        let b = b.add_func(true, "if", Native::If)?;
        let b = b.add_func(true, "func", Native::Func)?;
        let b = b.add_func(true, "car", Native::Car)?;
        let b = b.add_func(true, "cdr", Native::Cdr)?;
        let b = b.add_func(true, "cons", Native::Cons)?;
        let b = b.add_func(true, "=", Native::Assign)?;
        let b = b.add_func(true, "def", Native::Define)?;
        let b = b.add_func(true, "defunc", Native::Defunc)?;
        let b = b.add_func(true, "set", Native::Assign)?;
        let b = b.add_func(true, "eq", Native::Equal)?;
        let b = b.add_func(true, "ne", Native::NotEqual)?;
        let b = b.add_func(true, "==", Native::Equal)?;
        b.add_func(true, "!=", Native::NotEqual)
    }
}

/// A global name is defined once: after a definition of `a`, the table
/// binds `a`, so that a second definition of it fails with
/// `GlobalExists`; a name `b` other than `a` that was free stays free, so
/// its definition succeeds and leaves `a`'s value alone.
pub proof fn lemma_global_write_once(
    g: Map<Seq<char>, Rc<Object>>,
    a: Seq<char>,
    b: Seq<char>,
    v: Rc<Object>,
    w: Rc<Object>,
)
    ensures
        g.insert(a, v).contains_key(a),
        a != b && !g.contains_key(b) ==> !g.insert(a, v).contains_key(b),
        a != b ==> g.insert(a, v).insert(b, w)[a] == v && g.insert(a, v).insert(b, w)[b] == w,
{
}

/// Extra arguments are ignored: binding parameters to values followed by
/// more values binds the same as binding them to the values alone, once
/// there are enough of those.
pub proof fn lemma_extra_arguments_ignored(
    params: Seq<Seq<char>>,
    values: Seq<Rc<Object>>,
    more: Seq<Rc<Object>>,
    n: nat,
)
    requires
        n <= params.len(),
        n <= values.len(),
    ensures
        bind_map(params, values + more, n) == bind_map(params, values, n),
    decreases n,
{
    if n > 0 {
        lemma_extra_arguments_ignored(params, values, more, (n - 1) as nat);
        assert((values + more)[n - 1] == values[n - 1]);
    }
}

/// Scope isolation: where a form leaves the frames with the names they
/// had, a name that no local frame bound before is bound by none after.
pub proof fn lemma_scope_isolation(before: Lisp, after: Lisp, name: Seq<char>)
    requires
        after.same_names(before),
        forall|i: int| 0 <= i < before.frames().len() ==> !(#[trigger] before.frames()[i]).contains_key(name),
    ensures
        forall|i: int| 0 <= i < after.frames().len() ==> !(#[trigger] after.frames()[i]).contains_key(name),
{
    assert forall|i: int| 0 <= i < after.frames().len() implies !(#[trigger] after.frames()[i]).contains_key(name) by {
        assert(after.frames()[i].dom() == before.frames()[i].dom());
    }
}

} // verus!
