use std::rc::Rc;

use rusp::error::ErrorKind;
use rusp::object::{cons, from_bool, list_to_vec, number, symbol, Object};
use rusp::reader::read_string;

#[test]
fn list_to_vec_test() {
    assert_eq!(list_to_vec(&Object::Nil).expect("must not happen"), vec![]);
    assert_eq!(
        list_to_vec(&Object::Cons(
            Rc::new(Object::Number(1)),
            Rc::new(Object::Cons(
                Rc::new(Object::Number(2)),
                Rc::new(Object::Cons(Rc::new(Object::Number(3)), Rc::new(Object::Nil)))
            ))
        ))
        .expect("must not happpen"),
        vec![
            Rc::new(Object::Number(1)),
            Rc::new(Object::Number(2)),
            Rc::new(Object::Number(3))
        ]
    );
}

#[test]
fn list_to_vec_improper() {
    let improper = cons(Rc::new(number(1)), Rc::new(number(2)));
    let e = list_to_vec(&improper).unwrap_err();
    assert_eq!(e.kind, ErrorKind::TypeError);
    assert_eq!(e.message, "improper list");
}

#[test]
fn car_cdr_of_cons() {
    let p = cons(Rc::new(number(7)), Rc::new(symbol("x")));
    assert_eq!(p.car().unwrap(), Rc::new(Object::Number(7)));
    assert_eq!(p.cdr().unwrap(), Rc::new(Object::Symbol("x".to_string())));
}

#[test]
fn car_cdr_of_nil_is_nil() {
    assert_eq!(Object::Nil.car().unwrap(), Rc::new(Object::Nil));
    assert_eq!(Object::Nil.cdr().unwrap(), Rc::new(Object::Nil));
}

#[test]
fn car_of_atom_is_type_error() {
    let e = number(3).car().unwrap_err();
    assert_eq!(e.kind, ErrorKind::TypeError);
    assert_eq!(e.message, "not a pair");
    assert_eq!(Object::T.cdr().unwrap_err().kind, ErrorKind::TypeError);
}

#[test]
fn predicates() {
    assert!(Object::Nil.is_null());
    assert!(!Object::T.is_null());
    assert!(Object::Nil.is_atom());
    assert!(!cons(Rc::new(Object::Nil), Rc::new(Object::Nil)).is_atom());
    assert!(!Object::Nil.to_bool());
    assert!(number(0).to_bool());
    assert_eq!(from_bool(true), Object::T);
    assert_eq!(from_bool(false), Object::Nil);
}

#[test]
fn to_number() {
    assert_eq!(number(-4).to_number().unwrap(), -4);
    let e = symbol("a").to_number().unwrap_err();
    assert_eq!(e.kind, ErrorKind::TypeError);
    assert_eq!(e.message, "not a number");
}

#[test]
fn printing() {
    assert_eq!(Object::Nil.to_string(), "nil");
    assert_eq!(Object::T.to_string(), "t");
    assert_eq!(number(-2147483648).to_string(), "-2147483648");
    assert_eq!(number(1230).to_string(), "1230");
    assert_eq!(symbol("hello-world!").to_string(), "hello-world!");
    assert_eq!(read_string("(1 (2 3) nil t)").unwrap().to_string(), "(1 (2 3) nil t)");
    let dotted = cons(
        Rc::new(number(1)),
        Rc::new(cons(Rc::new(number(2)), Rc::new(number(3)))),
    );
    assert_eq!(dotted.to_string(), "(1 2 . 3)");
}
