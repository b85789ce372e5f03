use std::rc::Rc;

use rusp::object::Object;
use rusp::reader::{read, read_string, CharClass, Reader};

#[test]
fn reader_reader_internal_test() {
    let mut r = Reader::new("123abc");
    let s = r.read_while(CharClass::Digit);
    assert_eq!(s, "123".to_string());
    assert_eq!(r.peeked(), Some('a'));

    let mut r = Reader::new("123abc");
    r.drop_while(CharClass::Digit);
    assert_eq!(r.rest(), "bc".to_string());
    assert_eq!(r.peeked(), Some('a'));
}

#[test]
fn reader_reader_test() {
    let read = |s| read_string(s).unwrap();

    assert_eq!(read("t"), Object::T);
    assert_eq!(read("nil"), Object::Nil);
    assert_eq!(read("-123"), Object::Number(-123));
    assert_eq!(read("hello-world!"), Object::Symbol("hello-world!".to_string()));
    assert_eq!(
        read("(1 2 3)"),
        Object::Cons(
            Rc::new(Object::Number(1)),
            Rc::new(Object::Cons(
                Rc::new(Object::Number(2)),
                Rc::new(Object::Cons(Rc::new(Object::Number(3)), Rc::new(Object::Nil)))
            ))
        )
    );
}

#[test]
fn read_empty_and_blank_lines() {
    assert_eq!(read_string(""), None);
    assert_eq!(read_string("   \t "), None);
}

#[test]
fn read_unparseable_lines() {
    assert_eq!(read_string("(1 2"), None);
    assert_eq!(read_string(")"), None);
    assert_eq!(read_string("'a"), None);
    assert_eq!(read_string("2147483648"), None);
}

#[test]
fn read_number_limits() {
    assert_eq!(read_string("2147483647"), Some(Object::Number(2147483647)));
    assert_eq!(read_string("-2147483648"), Some(Object::Number(-2147483648)));
}

#[test]
fn read_nested_lists_with_spaces() {
    let v = read_string("  ( ( a ) () b )  ").unwrap();
    assert_eq!(v.to_string(), "((a) nil b)");
}

#[test]
fn read_tokens_that_are_not_integers_as_symbols() {
    assert_eq!(read_string("123abc"), Some(Object::Symbol("123abc".to_string())));
    assert_eq!(read_string("-"), Some(Object::Symbol("-".to_string())));
    assert_eq!(read_string("-x"), Some(Object::Symbol("-x".to_string())));
    assert_eq!(read_string("--1"), Some(Object::Symbol("--1".to_string())));
}

#[test]
fn read_several_expressions() {
    let mut r = read("1 (a) t");
    assert_eq!(r.next(), Some(Object::Number(1)));
    assert_eq!(r.next().unwrap().to_string(), "(a)");
    assert_eq!(r.next(), Some(Object::T));
    assert_eq!(r.next(), None);
}
