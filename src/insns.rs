use std::rc::Rc;
use vstd::prelude::*;
use crate::env::Location;
use crate::object::{Object, Val, view_obj};

verus! {

/// An instruction of the machine. `Isel` and `Ildf` carry their code inline.
#[derive(Debug, PartialEq)]
pub enum Insn {
    Inil,
    Ildc(Rc<Object>),
    Ild(Location),
    Iatom,
    Inull,
    Icar,
    Icdr,
    Icons,
    Iadd,
    Isub,
    Imul,
    Idiv,
    Ieq,
    Igt,
    Ilt,
    Igte,
    Ilte,
    Isel(Code, Code),
    Ijoin,
    Ildf(Code),
    Iap,
    Irtn,
}

/// A shared, immutable instruction sequence.
pub type Code = Rc<Vec<Insn>>;

/// The model of an instruction.
pub enum Op {
    PushNil,
    PushConst(Val),
    Load(nat, nat),
    IsAtom,
    IsNull,
    Car,
    Cdr,
    Cons,
    Add,
    Sub,
    Mul,
    Div,
    Eq,
    Gt,
    Lt,
    Gte,
    Lte,
    Select(Seq<Op>, Seq<Op>),
    Join,
    MakeClosure(Seq<Op>),
    Apply,
    Return,
}

/// The model of an instruction sequence.
pub open spec fn view_code(c: Vec<Insn>) -> Seq<Op>
    decreases c,
{
    Seq::new(c@.len(), |i: int| if 0 <= i < c@.len() { view_insn(c@[i]) } else { Op::Join })
}

/// The model of one instruction.
pub open spec fn view_insn(i: Insn) -> Op
    decreases i,
{
    match i {
        Insn::Inil => Op::PushNil,
        Insn::Ildc(o) => Op::PushConst(view_obj(*o)),
        Insn::Ild(loc) => Op::Load(loc.0 as nat, loc.1 as nat),
        Insn::Iatom => Op::IsAtom,
        Insn::Inull => Op::IsNull,
        Insn::Icar => Op::Car,
        Insn::Icdr => Op::Cdr,
        Insn::Icons => Op::Cons,
        Insn::Iadd => Op::Add,
        Insn::Isub => Op::Sub,
        Insn::Imul => Op::Mul,
        Insn::Idiv => Op::Div,
        Insn::Ieq => Op::Eq,
        Insn::Igt => Op::Gt,
        Insn::Ilt => Op::Lt,
        Insn::Igte => Op::Gte,
        Insn::Ilte => Op::Lte,
        Insn::Isel(a, b) => Op::Select(view_code(*a), view_code(*b)),
        Insn::Ijoin => Op::Join,
        Insn::Ildf(c) => Op::MakeClosure(view_code(*c)),
        Insn::Iap => Op::Apply,
        Insn::Irtn => Op::Return,
    }
}

impl Clone for Insn {
    fn clone(&self) -> Self {
        match self {
            Insn::Inil => Insn::Inil,
            Insn::Ildc(o) => Insn::Ildc(o.clone()),
            Insn::Ild(loc) => Insn::Ild(*loc),
            Insn::Iatom => Insn::Iatom,
            Insn::Inull => Insn::Inull,
            Insn::Icar => Insn::Icar,
            Insn::Icdr => Insn::Icdr,
            Insn::Icons => Insn::Icons,
            Insn::Iadd => Insn::Iadd,
            Insn::Isub => Insn::Isub,
            Insn::Imul => Insn::Imul,
            Insn::Idiv => Insn::Idiv,
            Insn::Ieq => Insn::Ieq,
            Insn::Igt => Insn::Igt,
            Insn::Ilt => Insn::Ilt,
            Insn::Igte => Insn::Igte,
            Insn::Ilte => Insn::Ilte,
            Insn::Isel(a, b) => Insn::Isel(a.clone(), b.clone()),
            Insn::Ijoin => Insn::Ijoin,
            Insn::Ildf(c) => Insn::Ildf(c.clone()),
            Insn::Iap => Insn::Iap,
            Insn::Irtn => Insn::Irtn,
        }
    }
}

impl View for Insn {
    type V = Op;

    open spec fn view(&self) -> Op {
        view_insn(*self)
    }
}

} // verus!
