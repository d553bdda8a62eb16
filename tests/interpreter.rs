use std::rc::Rc;

use lithia::builtins::{eval_numbers, prompt_of, take_args};
use lithia::errors::{ArgumentsError, ErrorCause, EvalError, LispError, LispErrorKind, ParserError, RustFuncError};
use lithia::lisp::{bind_params, Host, Lisp, LispBuilder, NoHost};
use lithia::object::{Native, Object};
use lithia::printer::Piece;
use lithia::reader::{split_into_strings, Token};

/// Arithmetic as a host provides it: ids 0 to 4 are `+ - * / %`.
struct Arith;

impl Host for Arith {
    fn call(&mut self, lisp: &mut Lisp, id: u64, args: Rc<Object>) -> Result<Rc<Object>, RustFuncError> {
        let nums = eval_numbers(lisp, self, args)?;
        let mut acc = f32::from_bits(nums[0]);
        for n in &nums[1..] {
            let x = f32::from_bits(*n);
            acc = match id {
                0 => acc + x,
                1 => acc - x,
                2 => acc * x,
                3 => acc / x,
                _ => acc % x,
            };
        }
        Ok(Rc::new(Object::Number(acc.to_bits())))
    }
}

fn tokens(text: &str) -> Vec<Token> {
    split_into_strings(text)
        .into_iter()
        .map(|t| {
            let n = t.parse::<f32>().ok().map(f32::to_bits);
            Token::new(t, n)
        })
        .collect()
}

fn read(text: &str) -> Result<Vec<Object>, LispError> {
    Object::eval(&tokens(text))
}

fn show(o: &Object) -> String {
    o.pieces()
        .into_iter()
        .map(|p| match p {
            Piece::Text(s) => s,
            Piece::Number(b) => format!("{}", f32::from_bits(b)),
        })
        .collect()
}

fn lisp() -> Lisp {
    LispBuilder::new()
        .add_env_std()
        .unwrap()
        .add_func(true, "+", Native::Host(0))
        .unwrap()
        .add_func(true, "-", Native::Host(1))
        .unwrap()
        .add_func(true, "*", Native::Host(2))
        .unwrap()
        .build()
}

fn run(lisp: &mut Lisp, text: &str) -> Result<Rc<Object>, LispError> {
    let objects = read(text).unwrap().into_iter().map(Rc::new).collect();
    lisp.eval_objects(&mut Arith, objects)
}

fn num(x: f32) -> Object {
    Object::Number(x.to_bits())
}

fn args_error(r: Result<Rc<Object>, LispError>) -> ArgumentsError {
    match r {
        Err(LispError { kind: LispErrorKind::RustFunc, error: ErrorCause::RustFunc(RustFuncError::InvalidArguments(e)) }) => e,
        other => panic!("not an argument error: {:?}", other),
    }
}

#[test]
fn tokens_of_a_text() {
    let t = split_into_strings("(a 'b) ; note\n\"x y\" \\c .5");
    assert_eq!(t, vec!["(", "a", "'", "b", ")", "\"x y\"", "\\c", ".5"]);
}

#[test]
fn tokens_of_strings_and_unclosed_quotes() {
    assert_eq!(split_into_strings("(\"a)b\")"), vec!["(", "\"a)b\"", ")"]);
    assert_eq!(split_into_strings("\"ab cd"), vec!["\"ab", "cd"]);
    assert_eq!(split_into_strings("\"a\\\"b\""), vec!["\"a\\\"b\""]);
    assert!(split_into_strings("  ; only a comment").is_empty());
}

#[test]
fn reads_atoms() {
    let v = read("1.5 \\a foo () \"hi\"").unwrap();
    assert_eq!(v.len(), 5);
    assert!(v[0] == num(1.5));
    assert!(v[1] == Object::Character('a'));
    assert!(v[2] == Object::Symbol("foo".to_string()));
    assert!(v[3] == Object::Nil);
    assert!(v[4] == Object::string_to_lisp_string("hi"));
}

#[test]
fn reads_lists_dotted_pairs_and_quotes() {
    let v = read("(a . b) '(1 2)").unwrap();
    let ab = Object::Pair(Rc::new(Object::Symbol("a".to_string())), Rc::new(Object::Symbol("b".to_string())));
    assert!(v[0] == ab);
    let l = Object::array_to_pair_list(vec![Rc::new(num(1.0)), Rc::new(num(2.0))]);
    assert!(v[1] == Object::Quoted(Rc::new(l)));
}

#[test]
fn reads_string_escapes() {
    let v = read("\"a\\nb\\\"c\\\\\"").unwrap();
    assert_eq!(v[0].pair_list_to_string(), Ok("a\nb\"c\\".to_string()));
}

#[test]
fn reader_errors() {
    let parser = |t: &str| match read(t) {
        Err(LispError { kind: LispErrorKind::Parser, error: ErrorCause::Parser(e) }) => e,
        other => panic!("expected a reader error: {:?}", other),
    };
    assert_eq!(parser("(a b"), ParserError::UnmatchedToken('('));
    assert_eq!(parser(")"), ParserError::InvalidToken(")".to_string()));
    assert_eq!(parser("'"), ParserError::EmptyQuote);
    assert_eq!(parser("('a ')"), ParserError::EmptyQuote);
    assert_eq!(parser("(a . b c)"), ParserError::InvalidToken("b".to_string()));
    assert_eq!(parser("(. a)"), ParserError::InvalidToken(".".to_string()));
    assert_eq!(parser("(a . . b)"), ParserError::InvalidToken(".".to_string()));
}

#[test]
fn prints_in_surface_syntax() {
    let v = read("(a (b . c) \"ab\" \\x 'q 1.5 ())").unwrap();
    assert_eq!(show(&v[0]), "(a (b . c) \"ab\" \\x 'q 1.5 ())");
    assert_eq!(show(&Object::True), "t");
    assert_eq!(show(&Object::string_to_lisp_string("a\"b\n")), "\"a\\\"b\\n\"");
}

#[test]
fn printing_and_reading_back_gives_an_equal_tree() {
    for text in ["(a (b . c) \"ab\" \\x 'q 1.5 ())", "\"x\\\\y\\\"z\"", "((1 . 2) . (3 . ()))", "'(\\( \\) . s)"] {
        let first = read(text).unwrap();
        let printed: Vec<String> = first.iter().map(show).collect();
        let again = read(&printed.join(" ")).unwrap();
        assert_eq!(first.len(), again.len());
        for (a, b) in first.iter().zip(again.iter()) {
            assert!(a == b, "{} read back differently", text);
        }
    }
}

#[test]
fn string_literal_round_trip() {
    let v = read("\"ab\"").unwrap();
    let expected = Object::array_to_pair_list(vec![Rc::new(Object::Character('a')), Rc::new(Object::Character('b'))]);
    assert!(v[0] == expected);
    assert_eq!(show(&v[0]), "\"ab\"");
}

#[test]
fn pair_list_to_string_rejects_other_lists() {
    assert_eq!(Object::string_to_lisp_string("").pair_list_to_string(), Ok(String::new()));
    let v = read("(\\a 1)").unwrap();
    assert_eq!(v[0].pair_list_to_string(), Err(()));
}

#[test]
fn dotted_argument_lists_are_rejected() {
    let mut l = lisp();
    assert_eq!(args_error(run(&mut l, "(+ 1 . 2)")), ArgumentsError::DottedPair);
    assert_eq!(args_error(run(&mut l, "(car '(1) . 2)")), ArgumentsError::DottedPair);
    assert_eq!(args_error(run(&mut l, "(cons 1 . 2)")), ArgumentsError::DottedPair);
    assert_eq!(args_error(run(&mut l, "(quote 1 . 2)")), ArgumentsError::DottedPair);
    assert_eq!(args_error(run(&mut l, "(if t . 2)")), ArgumentsError::DottedPair);
    assert_eq!(args_error(run(&mut l, "((func (a) a) 1 . 2)")), ArgumentsError::DottedPair);
}

#[test]
fn bindings_inside_if_and_while_stay_inside() {
    let mut l = lisp();
    run(&mut l, "(if t (= x 1))").unwrap();
    assert!(matches!(run(&mut l, "x"), Err(LispError { kind: LispErrorKind::Eval, error: ErrorCause::Eval(EvalError::UnknownSymbol(_)) })));
    run(&mut l, "(= n 3) (while (ne n 0) (= y 1) (= n (- n 1)))").unwrap();
    assert!(run(&mut l, "y").is_err());
    assert!(*run(&mut l, "n").unwrap() == num(0.0));
}

#[test]
fn global_definitions_are_write_once() {
    let mut l = lisp();
    run(&mut l, "(def a 1) (def b 2)").unwrap();
    match run(&mut l, "(def a 3)") {
        Err(LispError { error: ErrorCause::RustFunc(RustFuncError::LispError(e)), .. }) => {
            assert!(matches!(e.error, ErrorCause::Eval(EvalError::GlobalExists(ref s)) if s == "a"));
        }
        other => panic!("expected GlobalExists: {:?}", other),
    }
    assert!(*run(&mut l, "a").unwrap() == num(1.0));
    assert!(*run(&mut l, "b").unwrap() == num(2.0));
}

#[test]
fn add_var_twice_in_globals() {
    let mut l = Lisp::new();
    assert!(l.add_var(true, "g", Rc::new(Object::True)).is_ok());
    let e = l.add_var(true, "g", Rc::new(Object::Nil)).unwrap_err();
    assert!(matches!(e.error, ErrorCause::Eval(EvalError::GlobalExists(ref s)) if s == "g"));
    assert!(*l.eval_symbol("g").unwrap() == Object::True);
    assert!(l.add_var(false, "g", Rc::new(Object::Nil)).is_ok());
    assert!(*l.eval_symbol("g").unwrap() == Object::Nil);
}

#[test]
fn arithmetic_folds_left() {
    let mut l = lisp();
    assert!(*run(&mut l, "(+ 1 2 3)").unwrap() == num(6.0));
    assert!(*run(&mut l, "(- 10 1 2)").unwrap() == num(7.0));
    assert_eq!(args_error(run(&mut l, "(+ 1 'a)")), ArgumentsError::WrongType);
    assert_eq!(args_error(run(&mut l, "(+)")), ArgumentsError::NotEnough);
}

#[test]
fn unknown_symbol() {
    let mut l = lisp();
    match run(&mut l, "foo") {
        Err(LispError { kind: LispErrorKind::Eval, error: ErrorCause::Eval(EvalError::UnknownSymbol(s)) }) => assert_eq!(s, "foo"),
        other => panic!("expected UnknownSymbol: {:?}", other),
    }
}

#[test]
fn quote_suppresses_evaluation() {
    let mut l = lisp();
    let r = run(&mut l, "(quote (+ 1 2))").unwrap();
    assert!(*r == read("(+ 1 2)").unwrap()[0]);
    assert!(*run(&mut l, "'(+ 1 2)").unwrap() == read("(+ 1 2)").unwrap()[0]);
    assert_eq!(args_error(run(&mut l, "(quote 1 2)")), ArgumentsError::TooMany);
    assert_eq!(args_error(run(&mut l, "(quote)")), ArgumentsError::NotEnough);
}

#[test]
fn function_arity_is_asymmetric() {
    let mut l = lisp();
    assert_eq!(args_error(run(&mut l, "((func (a b) a) 1)")), ArgumentsError::NotEnough);
    assert!(*run(&mut l, "((func (a) a) 1 2 3)").unwrap() == num(1.0));
}

#[test]
fn bind_params_ignores_extra_values() {
    let params = vec!["a".to_string()];
    assert_eq!(bind_params(&params, &vec![]).err(), Some(ArgumentsError::NotEnough));
    assert!(bind_params(&params, &vec![Rc::new(Object::True), Rc::new(Object::Nil)]).is_ok());
}

#[test]
fn functions_see_globals_not_the_callers_locals() {
    let mut l = lisp();
    run(&mut l, "(def g 5) (defunc get-g () g) (defunc get-x () x)").unwrap();
    assert!(*run(&mut l, "(get-g)").unwrap() == num(5.0));
    run(&mut l, "(= x 1)").unwrap();
    assert!(run(&mut l, "(get-x)").is_err());
    assert!(*run(&mut l, "(defunc sq (n) (* n n)) (sq 4)").unwrap() == num(16.0));
}

#[test]
fn calls_of_non_functions_and_characters() {
    let mut l = lisp();
    match run(&mut l, "(1 2)") {
        Err(LispError { error: ErrorCause::Eval(EvalError::NonFunction(o)), .. }) => assert!(*o == read("(1 2)").unwrap()[0]),
        other => panic!("expected NonFunction: {:?}", other),
    }
    let r = run(&mut l, "(\\a . \\b)").unwrap();
    assert!(*r == read("(\\a . \\b)").unwrap()[0]);
}

#[test]
fn list_builtins() {
    let mut l = lisp();
    assert!(*run(&mut l, "(car '(1 2))").unwrap() == num(1.0));
    assert!(*run(&mut l, "(cdr '(1 2))").unwrap() == read("(2)").unwrap()[0]);
    assert!(*run(&mut l, "(cons 1 2)").unwrap() == read("(1 . 2)").unwrap()[0]);
    assert_eq!(args_error(run(&mut l, "(car 1)")), ArgumentsError::WrongType);
    assert_eq!(args_error(run(&mut l, "(car)")), ArgumentsError::NotEnough);
    assert_eq!(args_error(run(&mut l, "(car '(1) '(2))")), ArgumentsError::TooMany);
    assert_eq!(args_error(run(&mut l, "(cons 1 2 3)")), ArgumentsError::NotEnough);
}

#[test]
fn comparisons_and_conditionals() {
    let mut l = lisp();
    assert!(*run(&mut l, "(eq 1 1)").unwrap() == Object::True);
    assert!(*run(&mut l, "(== '(a \"b\") '(a \"b\"))").unwrap() == Object::True);
    assert!(*run(&mut l, "(ne 1 2)").unwrap() == Object::True);
    assert!(*run(&mut l, "(eq 1 2)").unwrap() == Object::Nil);
    assert!(*run(&mut l, "(if f 1 2)").unwrap() == num(2.0));
    assert!(*run(&mut l, "(if t 1 2)").unwrap() == num(1.0));
    assert!(*run(&mut l, "(if f 1)").unwrap() == Object::Nil);
    assert!(*run(&mut l, "(eval '(+ 1 1))").unwrap() == num(2.0));
}

#[test]
fn functions_and_nan_equal_nothing() {
    let mut l = lisp();
    run(&mut l, "(def h (func (a) a))").unwrap();
    assert!(*run(&mut l, "(eq h h)").unwrap() == Object::Nil);
    assert!(num(f32::NAN) != num(f32::NAN));
    assert!(num(0.0) == num(-0.0));
}

#[test]
fn assignment_changes_the_nearest_binding() {
    let mut l = lisp();
    run(&mut l, "(= v 1) (if t (= v 2))").unwrap();
    assert!(*run(&mut l, "v").unwrap() == num(2.0));
    run(&mut l, "(def gv 1) (= gv 3)").unwrap();
    assert!(*run(&mut l, "gv").unwrap() == num(3.0));
}

#[test]
fn empty_symbol_is_nil_and_take_args_counts() {
    let l = Lisp::new();
    assert!(*l.eval_symbol("").unwrap() == Object::Nil);
    let args = Rc::new(read("(1 2 3)").unwrap().remove(0));
    assert_eq!(take_args(&args, 1, Some(2), ArgumentsError::TooMany).err(), Some(ArgumentsError::TooMany));
    assert_eq!(take_args(&args, 4, None, ArgumentsError::TooMany).err(), Some(ArgumentsError::NotEnough));
    assert_eq!(take_args(&args, 3, Some(3), ArgumentsError::TooMany).unwrap().len(), 3);
}

#[test]
fn new_args_error_and_lisp_error_new() {
    assert_eq!(RustFuncError::new_args_error(ArgumentsError::WrongType), RustFuncError::InvalidArguments(ArgumentsError::WrongType));
    let e = LispError::new(LispErrorKind::Parser, ErrorCause::Parser(ParserError::EmptyQuote));
    assert_eq!(e.kind, LispErrorKind::Parser);
    assert_eq!(e.error, ErrorCause::Parser(ParserError::EmptyQuote));
}

#[test]
fn standard_bindings_are_present() {
    let l = lisp();
    assert!(*l.eval_symbol("t").unwrap() == Object::True);
    assert!(*l.eval_symbol("f").unwrap() == Object::Nil);
    assert!(*l.eval_symbol("pi").unwrap() == num(std::f32::consts::PI));
    assert!(LispBuilder::new().add_env_std().unwrap().add_env_std().is_err());
}

#[test]
fn eval_reads_then_evaluates() {
    let mut l = lisp();
    assert!(*l.eval(&mut Arith, &tokens("(def k 2) (* k 21)")).unwrap() == num(42.0));
    match l.eval(&mut Arith, &tokens("(def z 1")) {
        Err(LispError { kind: LispErrorKind::Parser, error: ErrorCause::Parser(ParserError::UnmatchedToken('(')) }) => {}
        other => panic!("expected a reader error: {:?}", other),
    }
    assert!(l.eval_symbol("z").is_err());
}

#[test]
fn included_code_runs_in_a_scope_of_its_own() {
    let mut l = lisp();
    run(&mut l, "(= local 1)").unwrap();
    let objects = read("(def from-file 7) local").unwrap().into_iter().map(Rc::new).collect();
    assert!(l.eval_detached(&mut Arith, objects).is_err());
    assert!(*run(&mut l, "from-file").unwrap() == num(7.0));
    assert!(*run(&mut l, "local").unwrap() == num(1.0));
}

#[test]
fn evaluation_without_host_functions() {
    let mut l = LispBuilder::new().add_env_std().unwrap().add_func(true, "+", Native::Host(0)).unwrap().build();
    let objects = read("(cons 1 '(2))").unwrap().into_iter().map(Rc::new).collect();
    assert!(*l.eval_objects(&mut NoHost, objects).unwrap() == read("(1 2)").unwrap()[0]);
    let objects = read("(+ 1 2)").unwrap().into_iter().map(Rc::new).collect();
    assert_eq!(args_error(l.eval_objects(&mut NoHost, objects)), ArgumentsError::WrongType);
}

#[test]
fn evaluation_stops_when_the_budget_runs_out() {
    let mut l = lisp();
    l.set_budget(50);
    match run(&mut l, "(while t 1)") {
        Err(LispError { error: ErrorCause::RustFunc(RustFuncError::LispError(e)), .. }) => {
            assert_eq!(e.error, ErrorCause::Eval(EvalError::StepLimit));
        }
        other => panic!("expected the step limit: {:?}", other),
    }
    l.set_budget(0);
    assert!(matches!(
        run(&mut l, "1"),
        Err(LispError { kind: LispErrorKind::Eval, error: ErrorCause::Eval(EvalError::StepLimit) })
    ));
}

#[test]
fn an_empty_token_is_no_atom() {
    match Object::eval(&vec![Token::new(String::new(), None)]) {
        Err(LispError { kind: LispErrorKind::Parser, error: ErrorCause::Parser(ParserError::UnparsableAtom(s)) }) => assert_eq!(s, ""),
        other => panic!("expected UnparsableAtom: {:?}", other),
    }
}

#[test]
fn binders_reject_an_empty_argument_list_as_dotted() {
    let mut l = lisp();
    assert_eq!(args_error(run(&mut l, "(=)")), ArgumentsError::DottedPair);
    assert_eq!(args_error(run(&mut l, "(def)")), ArgumentsError::DottedPair);
    assert_eq!(args_error(run(&mut l, "(defunc)")), ArgumentsError::DottedPair);
    assert_eq!(args_error(run(&mut l, "(= x)")), ArgumentsError::NotEnough);
    assert_eq!(args_error(run(&mut l, "(= 1 2)")), ArgumentsError::WrongType);
}

#[test]
fn prompts_for_read() {
    assert_eq!(prompt_of(&Rc::new(Object::Character('$'))), Ok("$ ".to_string()));
    assert_eq!(prompt_of(&Rc::new(Object::Nil)), Ok("> ".to_string()));
    assert_eq!(prompt_of(&Rc::new(Object::string_to_lisp_string("in: "))), Ok("in: ".to_string()));
    assert_eq!(prompt_of(&Rc::new(read("(1 2)").unwrap().remove(0))), Ok("> ".to_string()));
    assert_eq!(prompt_of(&Rc::new(num(1.0))), Err(ArgumentsError::WrongType));
}

#[test]
fn while_keeps_assignments_to_outer_bindings() {
    let mut l = lisp();
    run(&mut l, "(= i 0) (while (ne i 3) (= i (+ i 1)) (= inner i))").unwrap();
    assert!(*run(&mut l, "i").unwrap() == num(3.0));
    assert!(run(&mut l, "inner").is_err());
}

#[test]
fn if_pops_its_frame_on_error() {
    let mut l = lisp();
    assert!(run(&mut l, "(if t (car 1))").is_err());
    run(&mut l, "(= after 1)").unwrap();
    assert!(*l.eval_symbol("after").unwrap() == num(1.0));
}

#[test]
fn argument_errors_stop_a_call() {
    let mut l = lisp();
    run(&mut l, "(def two (func (a b) a))").unwrap();
    match run(&mut l, "(two (def side 1) unknown (def never 2))") {
        Err(LispError { kind: LispErrorKind::Eval, error: ErrorCause::Eval(EvalError::UnknownSymbol(s)) }) => assert_eq!(s, "unknown"),
        other => panic!("expected UnknownSymbol: {:?}", other),
    }
    assert!(l.eval_symbol("side").is_ok());
    assert!(l.eval_symbol("never").is_err());
}
