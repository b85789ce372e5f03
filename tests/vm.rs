use std::rc::Rc;

use rusp::error::ErrorKind;
use rusp::insns::Insn::{
    Iadd, Iap, Icar, Icons, Idiv, Igte, Ijoin, Ild, Ildc, Ildf, Ilt, Imul, Inil, Irtn, Isel, Isub,
};
use rusp::object::Object;
use rusp::vm::Vm;

#[test]
fn vm_test() {
    let code = Rc::new(vec![
        Inil,
        Ildf(Rc::new(vec![
            Ildf(Rc::new(vec![
                Inil,
                Inil,
                Ild((0, 0)),
                Icons,
                Ild((1, 0)),
                Iap,
                Icons,
                Ild((1, 0)),
                Iap,
                Irtn,
            ])),
            Irtn,
        ])),
        Icons,
        Ildf(Rc::new(vec![
            Inil,
            Ildc(Rc::new(Object::Number(3))),
            Icons,
            Inil,
            Ildf(Rc::new(vec![
                Ild((0, 0)),
                Ildc(Rc::new(Object::Number(2))),
                Imul,
                Irtn,
            ])),
            Icons,
            Ild((0, 0)),
            Iap,
            Iap,
            Irtn,
        ])),
        Iap,
    ]);
    let mut vm = Vm::new(code);
    let v = vm.run().expect("VM never fails");
    assert_eq!(v, Rc::new(Object::Number(12)));
}

fn run(code: Vec<rusp::insns::Insn>) -> Result<Rc<Object>, rusp::error::Error> {
    Vm::new(Rc::new(code)).run()
}

#[test]
fn empty_program_gives_nil() {
    assert_eq!(run(vec![]).unwrap(), Rc::new(Object::Nil));
}

#[test]
fn operand_order_of_sub_and_div() {
    let c = |n| Ildc(Rc::new(Object::Number(n)));
    assert_eq!(run(vec![c(10), c(3), Isub]).unwrap(), Rc::new(Object::Number(7)));
    assert_eq!(run(vec![c(10), c(2), Idiv]).unwrap(), Rc::new(Object::Number(5)));
    assert_eq!(run(vec![c(-7), c(2), Idiv]).unwrap(), Rc::new(Object::Number(-3)));
    assert_eq!(run(vec![c(1), c(2), Ilt]).unwrap(), Rc::new(Object::T));
    assert_eq!(run(vec![c(1), c(2), Igte]).unwrap(), Rc::new(Object::Nil));
}

#[test]
fn cons_takes_top_as_car() {
    let v = run(vec![Inil, Ildc(Rc::new(Object::Number(1))), Icons]).unwrap();
    assert_eq!(v.to_string(), "(1)");
}

#[test]
fn division_by_zero() {
    let c = |n| Ildc(Rc::new(Object::Number(n)));
    let e = run(vec![c(1), c(0), Idiv]).unwrap_err();
    assert_eq!(e.kind, ErrorKind::ArithmeticError);
}

#[test]
fn overflow_is_an_arithmetic_error() {
    let c = |n| Ildc(Rc::new(Object::Number(n)));
    assert_eq!(run(vec![c(i32::MAX), c(1), Iadd]).unwrap_err().kind, ErrorKind::ArithmeticError);
    assert_eq!(run(vec![c(i32::MIN), c(-1), Idiv]).unwrap_err().kind, ErrorKind::ArithmeticError);
}

#[test]
fn arithmetic_on_non_number() {
    let e = run(vec![Ildc(Rc::new(Object::T)), Ildc(Rc::new(Object::Number(1))), Iadd]).unwrap_err();
    assert_eq!(e.kind, ErrorKind::TypeError);
}

#[test]
fn apply_non_closure() {
    let e = run(vec![Inil, Ildc(Rc::new(Object::Number(1))), Iap]).unwrap_err();
    assert_eq!(e.kind, ErrorKind::TypeError);
    assert_eq!(e.message, "not applicable");
}

#[test]
fn apply_to_improper_list() {
    let e = run(vec![
        Ildc(Rc::new(Object::Number(1))),
        Ildf(Rc::new(vec![Inil, Irtn])),
        Iap,
    ])
    .unwrap_err();
    assert_eq!(e.kind, ErrorKind::TypeError);
}

#[test]
fn dump_discipline_violations() {
    assert_eq!(run(vec![Ijoin]).unwrap_err().kind, ErrorKind::InternalError);
    assert_eq!(run(vec![Inil, Irtn]).unwrap_err().kind, ErrorKind::InternalError);
    assert_eq!(run(vec![Icar]).unwrap_err().kind, ErrorKind::InternalError);
    assert_eq!(run(vec![Ild((0, 0))]).unwrap_err().kind, ErrorKind::InternalError);
}

#[test]
fn branch_without_join_leaves_dump() {
    let code = vec![
        Ildc(Rc::new(Object::T)),
        Isel(Rc::new(vec![Inil]), Rc::new(vec![Inil])),
    ];
    assert_eq!(run(code).unwrap_err().kind, ErrorKind::InternalError);
}

#[test]
fn instructions_clone_structurally() {
    let i = Isel(Rc::new(vec![Ild((1, 2)), Ijoin]), Rc::new(vec![Inil, Ijoin]));
    assert_eq!(i.clone(), i);
}
