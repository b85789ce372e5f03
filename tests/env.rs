use std::rc::Rc;

use rusp::env::{push, Env};
use rusp::error::ErrorKind;
use rusp::object::Object;

#[test]
fn locate_test() {
    let env = push(
        Rc::new(push(
            Rc::new(Env::new()),
            vec![Rc::new(Object::Number(1)), Rc::new(Object::Number(2))],
        )),
        vec![Rc::new(Object::Number(0))],
    );
    assert_eq!(
        env.locate((1, 1)).expect("env should be high enough"),
        Rc::new(Object::Number(2))
    );
}

#[test]
fn locate_out_of_range() {
    let env = push(Rc::new(Env::new()), vec![Rc::new(Object::Number(0))]);
    assert_eq!(env.locate((0, 1)).unwrap_err().kind, ErrorKind::InternalError);
    assert_eq!(env.locate((0, 1)).unwrap_err().message, "Illegal access to lexical environment");
    assert_eq!(env.locate((1, 0)).unwrap_err().kind, ErrorKind::InternalError);
    assert_eq!(env.locate((0, 0)).unwrap(), Rc::new(Object::Number(0)));
}

#[test]
fn pop_frames() {
    let inner = Rc::new(Env::new());
    let env = push(inner.clone(), vec![Rc::new(Object::T)]);
    assert_eq!(env.pop().unwrap(), inner);
    assert_eq!(Env::new().pop().unwrap_err().kind, ErrorKind::InternalError);
    assert_eq!(Env::new().pop().unwrap_err().message, "Env underflow");
}
