use std::rc::Rc;

use rusp::error::{Error, ErrorKind};
use rusp::interp::eval;
use rusp::object::Object;
use rusp::reader::read_string;

fn eval_src(src: &str) -> Result<Rc<Object>, Error> {
    eval(&read_string(src).expect("readable source"))
}

fn num(src: &str) -> i32 {
    match *eval_src(src).expect("evaluates") {
        Object::Number(n) => n,
        ref other => panic!("not a number: {:?}", other),
    }
}

#[test]
fn sum_of_squares() {
    assert_eq!(num("(+ (* 3 3) (* 4 4))"), 25);
}

#[test]
fn if_on_null_nil() {
    assert_eq!(num("(if (null nil) 1 2)"), 1);
}

#[test]
fn if_on_null_of_pair() {
    assert_eq!(num("(if (null (cons 1 nil)) 1 2)"), 2);
}

#[test]
fn lambda_doubles() {
    assert_eq!(num("((lambda (x) (* x 2)) 3)"), 6);
}

#[test]
fn curried_addition() {
    assert_eq!(num("(((lambda (x) (lambda (y) (+ x y))) 10) 20)"), 30);
}

#[test]
fn arithmetic_on_literals() {
    assert_eq!(num("(+ 40 2)"), 42);
    assert_eq!(num("(- -5 7)"), -12);
    assert_eq!(num("(* -6 7)"), -42);
    assert_eq!(num("(/ 7 -2)"), -3);
    assert_eq!(eval_src("(+ 2147483647 1)").unwrap_err().kind, ErrorKind::ArithmeticError);
    assert_eq!(eval_src("(/ 1 0)").unwrap_err().kind, ErrorKind::ArithmeticError);
}

#[test]
fn operand_order() {
    assert_eq!(num("(- 10 3)"), 7);
    assert_eq!(num("(/ 10 2)"), 5);
    assert_eq!(*eval_src("(< 1 2)").unwrap(), Object::T);
    assert_eq!(*eval_src("(> 1 2)").unwrap(), Object::Nil);
    assert_eq!(*eval_src("(<= 2 2)").unwrap(), Object::T);
    assert_eq!(*eval_src("(>= 1 2)").unwrap(), Object::Nil);
    assert_eq!(*eval_src("(= 3 3)").unwrap(), Object::T);
}

#[test]
fn car_of_nested_cons() {
    assert_eq!(num("(car (cons 7 (cons 8 nil)))"), 7);
}

#[test]
fn car_cdr_of_consed_value() {
    assert_eq!(num("(car (cons 7 8))"), 7);
    assert_eq!(num("(cdr (cons 7 8))"), 8);
    assert_eq!(eval_src("(cons 1 (cons 2 nil))").unwrap().to_string(), "(1 2)");
}

#[test]
fn argument_order() {
    assert_eq!(num("((lambda (a b c) a) 1 2 3)"), 1);
    assert_eq!(num("((lambda (a b c) b) 1 2 3)"), 2);
    assert_eq!(num("((lambda (a b c) c) 1 2 3)"), 3);
}

#[test]
fn lexical_capture() {
    assert_eq!(num("(((lambda (x) (lambda (y) x)) 10) 20)"), 10);
}

#[test]
fn branches_halt_with_one_value() {
    assert_eq!(num("(if t 1 2)"), 1);
    assert_eq!(num("(if nil 1 2)"), 2);
    assert_eq!(num("(+ (if t 1 2) (if nil 1 2))"), 3);
}

#[test]
fn closures_print_as_func() {
    assert_eq!(eval_src("(lambda (x) x)").unwrap().to_string(), "#<func>");
}

#[test]
fn atom_and_null() {
    assert_eq!(*eval_src("(atom 1)").unwrap(), Object::T);
    assert_eq!(*eval_src("(atom (cons 1 2))").unwrap(), Object::Nil);
    assert_eq!(*eval_src("(null 0)").unwrap(), Object::Nil);
}

#[test]
fn runtime_type_errors() {
    assert_eq!(eval_src("(car 1)").unwrap_err().kind, ErrorKind::TypeError);
    assert_eq!(eval_src("(+ t 1)").unwrap_err().kind, ErrorKind::TypeError);
    assert_eq!(eval_src("((lambda (f) (f 1)) 2)").unwrap_err().kind, ErrorKind::TypeError);
}

#[test]
fn compile_errors_surface() {
    assert_eq!(eval_src("(+ 1)").unwrap_err().kind, ErrorKind::ArityError);
    assert_eq!(eval_src("foo").unwrap_err().kind, ErrorKind::NameError);
}

#[test]
fn error_display() {
    let e = eval_src("foo").unwrap_err();
    assert_eq!(e.to_string(), "unknown variable: foo");
    assert_eq!(eval_src("(car 1)").unwrap_err().message, "not a pair");
    assert_eq!(eval_src("(+ t 1)").unwrap_err().message, "not a number");
    assert_eq!(eval_src("(/ 1 0)").unwrap_err().message, "division by zero");
}
