use std::rc::Rc;

use rusp::compiler::compile;
use rusp::error::ErrorKind;
use rusp::insns::Insn::{Iadd, Iap, Icons, Ildc, Ildf, Ild, Ijoin, Imul, Inil, Irtn, Isel};
use rusp::object::Object::{Cons, Nil, Number, Symbol, T};
use rusp::reader::read_string;

fn compile_src(src: &str) -> Result<rusp::insns::Code, rusp::error::Error> {
    compile(&read_string(src).expect("readable source"))
}

#[test]
fn compile_test() {
    // (+ (* 3 3) (* 4 4))
    let code = compile(&Cons(
        Rc::new(Symbol("+".to_owned())),
        Rc::new(Cons(
            Rc::new(Cons(
                Rc::new(Symbol("*".to_owned())),
                Rc::new(Cons(
                    Rc::new(Number(3)),
                    Rc::new(Cons(Rc::new(Number(3)), Rc::new(Nil))),
                )),
            )),
            Rc::new(Cons(
                Rc::new(Cons(
                    Rc::new(Symbol("*".to_owned())),
                    Rc::new(Cons(
                        Rc::new(Number(4)),
                        Rc::new(Cons(Rc::new(Number(4)), Rc::new(Nil))),
                    )),
                )),
                Rc::new(Nil),
            )),
        )),
    ))
    .expect("compile fails");
    let expected = Rc::new(vec![
        Ildc(Rc::new(Number(3))),
        Ildc(Rc::new(Number(3))),
        Imul,
        Ildc(Rc::new(Number(4))),
        Ildc(Rc::new(Number(4))),
        Imul,
        Iadd,
    ]);
    assert_eq!(code, expected);
}

#[test]
fn compile_atoms() {
    assert_eq!(compile_src("nil").unwrap(), Rc::new(vec![Inil]));
    assert_eq!(compile_src("t").unwrap(), Rc::new(vec![Ildc(Rc::new(T))]));
    assert_eq!(compile_src("-5").unwrap(), Rc::new(vec![Ildc(Rc::new(Number(-5)))]));
}

#[test]
fn compile_cons_pushes_cdr_first() {
    let code = compile_src("(cons 1 2)").unwrap();
    let expected = Rc::new(vec![Ildc(Rc::new(Number(2))), Ildc(Rc::new(Number(1))), Icons]);
    assert_eq!(code, expected);
}

#[test]
fn compile_if_ends_branches_with_join() {
    let code = compile_src("(if t 1 2)").unwrap();
    let expected = Rc::new(vec![
        Ildc(Rc::new(T)),
        Isel(
            Rc::new(vec![Ildc(Rc::new(Number(1))), Ijoin]),
            Rc::new(vec![Ildc(Rc::new(Number(2))), Ijoin]),
        ),
    ]);
    assert_eq!(code, expected);
}

#[test]
fn compile_lambda_and_application() {
    let code = compile_src("((lambda (x y) y) 1 2)").unwrap();
    let expected = Rc::new(vec![
        Inil,
        Ildc(Rc::new(Number(2))),
        Icons,
        Ildc(Rc::new(Number(1))),
        Icons,
        Ildf(Rc::new(vec![Ild((0, 1)), Irtn])),
        Iap,
    ]);
    assert_eq!(code, expected);
}

#[test]
fn compile_resolves_outer_frames() {
    let code = compile_src("(lambda (x) (lambda (y) x))").unwrap();
    let expected = Rc::new(vec![Ildf(Rc::new(vec![
        Ildf(Rc::new(vec![Ild((1, 0)), Irtn])),
        Irtn,
    ]))]);
    assert_eq!(code, expected);
}

#[test]
fn compile_inner_binding_shadows_outer() {
    let code = compile_src("(lambda (x) (lambda (x) x))").unwrap();
    let expected = Rc::new(vec![Ildf(Rc::new(vec![
        Ildf(Rc::new(vec![Ild((0, 0)), Irtn])),
        Irtn,
    ]))]);
    assert_eq!(code, expected);
}

#[test]
fn compile_is_deterministic() {
    let a = compile_src("((lambda (f) (f 1 2)) (lambda (a b) (if (< a b) a b)))").unwrap();
    let b = compile_src("((lambda (f) (f 1 2)) (lambda (a b) (if (< a b) a b)))").unwrap();
    assert_eq!(a, b);
}

#[test]
fn arity_too_few() {
    let e = compile_src("(+ 1)").unwrap_err();
    assert_eq!(e.kind, ErrorKind::ArityError);
    assert_eq!(e.message, "too few arguments");
}

#[test]
fn arity_too_many() {
    let e = compile_src("(+ 1 2 3)").unwrap_err();
    assert_eq!(e.kind, ErrorKind::ArityError);
    assert_eq!(e.message, "too many arguments");
}

#[test]
fn arity_improper_list() {
    let improper = Cons(
        Rc::new(Symbol("car".to_owned())),
        Rc::new(Cons(Rc::new(Number(1)), Rc::new(Number(2)))),
    );
    let e = compile(&improper).unwrap_err();
    assert_eq!(e.kind, ErrorKind::ArityError);
    assert_eq!(e.message, "arglist must be proper list");
}

#[test]
fn unknown_variable_is_named() {
    let e = compile_src("foo").unwrap_err();
    assert_eq!(e.kind, ErrorKind::NameError);
    assert_eq!(e.message, "unknown variable: foo");
}

#[test]
fn literal_head_is_not_applicable() {
    let e = compile_src("(1 2)").unwrap_err();
    assert_eq!(e.kind, ErrorKind::TypeError);
    assert_eq!(e.message, "1 is not applicable");
    let e = compile_src("(nil)").unwrap_err();
    assert_eq!(e.message, "nil is not applicable");
}

#[test]
fn lambda_parameter_must_be_symbol() {
    let e = compile_src("(lambda (x 1) x)").unwrap_err();
    assert_eq!(e.kind, ErrorKind::SyntaxError);
}

#[test]
fn if_arity() {
    let e = compile_src("(if t 1)").unwrap_err();
    assert_eq!(e.kind, ErrorKind::ArityError);
}
