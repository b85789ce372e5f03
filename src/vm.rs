use std::rc::Rc;
use vstd::prelude::*;
use crate::env::{self, Env, locate_val};
use crate::error::{Error, ErrorKind, Fault, error, fault};
use crate::insns::{Code, Insn, Op, view_code, view_insn};
use crate::object::{
    self,
    Object,
    Val,
    car_of,
    cdr_of,
    lemma_views_drop_last,
    lemma_views_push,
    list_elems,
    val_of_bool,
    views,
};

verus! {

/// A saved continuation: after a conditional, the code and counter to go
/// back to; after a call, also the operand stack and environment.
pub enum DumpEntry {
    Sel(Code, usize),
    Ap(Vec<Rc<Object>>, Rc<Env>, Code, usize),
}

/// The model of a saved continuation.
pub enum Dump {
    Sel(Seq<Op>, nat),
    Ap(Seq<Val>, Seq<Seq<Val>>, Seq<Op>, nat),
}

/// The model of a machine state: operand stack (top last), environment,
/// code, program counter and dump (top last).
pub struct State {
    pub stack: Seq<Val>,
    pub env: Seq<Seq<Val>>,
    pub code: Seq<Op>,
    pub pc: nat,
    pub dump: Seq<Dump>,
}

/// The number of steps after which `run` gives up on a program.
pub const STEP_LIMIT: u64 = 0xffff_ffff_ffff_ffff;

/// The state in which a program starts: nothing on the stack, no frames, an
/// empty dump.
pub open spec fn initial(code: Seq<Op>) -> State {
    State { stack: Seq::empty(), env: Seq::empty(), code, pc: 0, dump: Seq::empty() }
}

/// The state with a new stack and the counter moved to the next instruction.
pub open spec fn advance(s: State, stack: Seq<Val>) -> State {
    State { stack, env: s.env, code: s.code, pc: s.pc + 1, dump: s.dump }
}

/// An integer result, or an arithmetic error where it leaves the signed
/// 32-bit range.
pub open spec fn int_result(n: int) -> Result<Val, Fault> {
    if i32::MIN <= n <= i32::MAX {
        Ok(Val::Num(n as i32))
    } else {
        Err(fault(ErrorKind::ArithmeticError, "integer overflow"@))
    }
}

/// The absolute value of an integer.
pub open spec fn abs(x: int) -> nat {
    if x < 0 {
        (-x) as nat
    } else {
        x as nat
    }
}

/// Integer division rounding toward zero.
pub open spec fn trunc_div(x: int, d: int) -> int {
    if (x < 0) == (d < 0) {
        abs(x) as int / abs(d) as int
    } else {
        -(abs(x) as int / abs(d) as int)
    }
}

/// Whether an operation takes two integers from the stack.
pub open spec fn is_binary(op: Op) -> bool {
    op is Add || op is Sub || op is Mul || op is Div || op is Eq || op is Gt || op is Lt
        || op is Gte || op is Lte
}

/// The result of a binary operation on its left operand `x` and right operand `y`.
pub open spec fn apply_binary(op: Op, x: i32, y: i32) -> Result<Val, Fault> {
    match op {
        Op::Add => int_result(x + y),
        Op::Sub => int_result(x - y),
        Op::Mul => int_result(x * y),
        Op::Div => if y == 0 {
            Err(fault(ErrorKind::ArithmeticError, "division by zero"@))
        } else {
            int_result(trunc_div(x as int, y as int))
        },
        Op::Eq => Ok(val_of_bool(x == y)),
        Op::Gt => Ok(val_of_bool(x > y)),
        Op::Lt => Ok(val_of_bool(x < y)),
        Op::Gte => Ok(val_of_bool(x >= y)),
        Op::Lte => Ok(val_of_bool(x <= y)),
        _ => Err(fault(ErrorKind::InternalError, "not a binary operation"@)),
    }
}

/// The operands of a binary operation, left and right: the right one is on
/// top of the stack, the left one below it. Each is taken and checked to be
/// an integer in turn.
pub open spec fn binary_operands(st: Seq<Val>) -> Result<(i32, i32), Fault> {
    let n = st.len();
    if n == 0 {
        Err(fault(ErrorKind::InternalError, "Stack underflow"@))
    } else {
        match st.last() {
            Val::Num(y) => if n < 2 {
                Err(fault(ErrorKind::InternalError, "Stack underflow"@))
            } else {
                match st[n - 2] {
                    Val::Num(x) => Ok((x, y)),
                    _ => Err(fault(ErrorKind::TypeError, "not a number"@)),
                }
            },
            _ => Err(fault(ErrorKind::TypeError, "not a number"@)),
        }
    }
}

/// A binary operation: both operands are replaced by the result.
pub open spec fn binary_step(s: State, op: Op) -> Result<State, Fault> {
    match binary_operands(s.stack) {
        Ok((x, y)) => match apply_binary(op, x, y) {
            Ok(v) => Ok(advance(s, s.stack.drop_last().drop_last().push(v))),
            Err(k) => Err(k),
        },
        Err(k) => Err(k),
    }
}

/// One step of the machine on the instruction at the counter.
pub open spec fn next_state(s: State) -> Result<State, Fault> {
    let st = s.stack;
    let n = st.len();
    let op = s.code[s.pc as int];
    if is_binary(op) {
        binary_step(s, op)
    } else {
        match op {
            Op::PushNil => Ok(advance(s, st.push(Val::Nil))),
            Op::PushConst(v) => Ok(advance(s, st.push(v))),
            Op::Load(i, j) => match locate_val(s.env, i, j) {
                Some(v) => Ok(advance(s, st.push(v))),
                None => Err(fault(ErrorKind::InternalError, "Illegal access to lexical environment"@)),
            },
            Op::IsAtom => if n == 0 {
                Err(fault(ErrorKind::InternalError, "Stack underflow"@))
            } else {
                Ok(advance(s, st.drop_last().push(val_of_bool(!(st.last() is Pair)))))
            },
            Op::IsNull => if n == 0 {
                Err(fault(ErrorKind::InternalError, "Stack underflow"@))
            } else {
                Ok(advance(s, st.drop_last().push(val_of_bool(st.last() is Nil))))
            },
            Op::Car => if n == 0 {
                Err(fault(ErrorKind::InternalError, "Stack underflow"@))
            } else {
                match car_of(st.last()) {
                    Some(v) => Ok(advance(s, st.drop_last().push(v))),
                    None => Err(fault(ErrorKind::TypeError, "not a pair"@)),
                }
            },
            Op::Cdr => if n == 0 {
                Err(fault(ErrorKind::InternalError, "Stack underflow"@))
            } else {
                match cdr_of(st.last()) {
                    Some(v) => Ok(advance(s, st.drop_last().push(v))),
                    None => Err(fault(ErrorKind::TypeError, "not a pair"@)),
                }
            },
            Op::Cons => if n < 2 {
                Err(fault(ErrorKind::InternalError, "Stack underflow"@))
            } else {
                Ok(
                    advance(
                        s,
                        st.drop_last().drop_last().push(
                            Val::Pair(Box::new(st.last()), Box::new(st[n - 2])),
                        ),
                    ),
                )
            },
            Op::Select(ct, cf) => if n == 0 {
                Err(fault(ErrorKind::InternalError, "Stack underflow"@))
            } else {
                Ok(
                    State {
                        stack: st.drop_last(),
                        env: s.env,
                        code: if st.last() is Nil {
                            cf
                        } else {
                            ct
                        },
                        pc: 0,
                        dump: s.dump.push(Dump::Sel(s.code, s.pc + 1)),
                    },
                )
            },
            Op::Join => if s.dump.len() == 0 {
                Err(fault(ErrorKind::InternalError, "Dump stack underflow"@))
            } else {
                match s.dump.last() {
                    Dump::Sel(c, p) => Ok(
                        State { stack: st, env: s.env, code: c, pc: p, dump: s.dump.drop_last() },
                    ),
                    _ => Err(fault(ErrorKind::InternalError, "Run into incoherent dump entry (ap)"@)),
                }
            },
            Op::MakeClosure(c) => Ok(advance(s, st.push(Val::Closure(c, s.env)))),
            Op::Apply => if n == 0 {
                Err(fault(ErrorKind::InternalError, "Stack underflow"@))
            } else {
                match st.last() {
                    Val::Closure(c, fenv) => if n < 2 {
                        Err(fault(ErrorKind::InternalError, "Stack underflow"@))
                    } else {
                        match list_elems(st[n - 2]) {
                            Some(frame) => Ok(
                                State {
                                    stack: Seq::empty(),
                                    env: seq![frame] + fenv,
                                    code: c,
                                    pc: 0,
                                    dump: s.dump.push(
                                        Dump::Ap(st.drop_last().drop_last(), s.env, s.code, s.pc + 1),
                                    ),
                                },
                            ),
                            None => Err(fault(ErrorKind::TypeError, "improper list"@)),
                        }
                    },
                    _ => Err(fault(ErrorKind::TypeError, "not applicable"@)),
                }
            },
            Op::Return => if n == 0 {
                Err(fault(ErrorKind::InternalError, "Stack underflow"@))
            } else if s.dump.len() == 0 {
                Err(fault(ErrorKind::InternalError, "Dump stack underflow"@))
            } else {
                match s.dump.last() {
                    Dump::Ap(saved, e, c, p) => Ok(
                        State {
                            stack: saved.push(st.last()),
                            env: e,
                            code: c,
                            pc: p,
                            dump: s.dump.drop_last(),
                        },
                    ),
                    _ => Err(fault(ErrorKind::InternalError, "Run into incoherent dump entry (sel)"@)),
                }
            },
            _ => Err(fault(ErrorKind::InternalError, "not an instruction"@)),
        }
    }
}

/// Whether `t` and the result `r` are what one step from `s` gives. A step
/// that fails leaves the environment, code, counter and dump as they were.
pub open spec fn steps_to(s: State, t: State, r: Result<(), Error>) -> bool {
    match next_state(s) {
        Ok(u) => r is Ok && t == u,
        Err(k) => {
            &&& r is Err
            &&& r->Err_0@ == k
            &&& t.env == s.env
            &&& t.code == s.code
            &&& t.pc == s.pc
            &&& t.dump == s.dump
        },
    }
}

/// Whether the machine has stopped: the counter has run off its code.
pub open spec fn halted(s: State) -> bool {
    s.pc >= s.code.len()
}

/// What a halted machine returns: the value on top of the stack, or `Nil`
/// on an empty stack; an internal error if a continuation is left.
pub open spec fn final_result(s: State) -> Result<Val, Fault> {
    if s.dump.len() > 0 {
        Err(fault(ErrorKind::InternalError, "continuation left at halt"@))
    } else if s.stack.len() == 0 {
        Ok(Val::Nil)
    } else {
        Ok(s.stack.last())
    }
}

/// What the machine returns from state `s` within `fuel` steps; nothing if
/// it has not halted by then.
pub open spec fn outcome(s: State, fuel: nat) -> Option<Result<Val, Fault>>
    decreases fuel,
{
    if halted(s) {
        Some(final_result(s))
    } else if fuel == 0 {
        None
    } else {
        match next_state(s) {
            Ok(t) => outcome(t, (fuel - 1) as nat),
            Err(k) => Some(Err(k)),
        }
    }
}

/// The model of a saved continuation.
pub open spec fn view_dump(d: DumpEntry) -> Dump {
    match d {
        DumpEntry::Sel(c, p) => Dump::Sel(view_code(*c), p as nat),
        DumpEntry::Ap(s, e, c, p) => Dump::Ap(views(s@), e@, view_code(*c), p as nat),
    }
}

/// The SECD machine: operand stack, environment, code, dump, and the
/// counter into the code.
pub struct Vm {
    stack: Vec<Rc<Object>>,
    env: Rc<Env>,
    code: Code,
    dump: Vec<DumpEntry>,
    pc: usize,
}

impl View for Vm {
    type V = State;

    closed spec fn view(&self) -> State {
        State {
            stack: views(self.stack@),
            env: self.env@,
            code: view_code(*self.code),
            pc: self.pc as nat,
            dump: self.dump@.map_values(|d: DumpEntry| view_dump(d)),
        }
    }
}

/// The result of an arithmetic instruction on its left and right operands.
fn arith_op(insn: &Insn, x: i32, y: i32) -> (r: Result<i32, Error>)
    requires
        view_insn(*insn) is Add || view_insn(*insn) is Sub || view_insn(*insn) is Mul
            || view_insn(*insn) is Div,
    ensures
        match apply_binary(view_insn(*insn), x, y) {
            Ok(v) => r is Ok && v == Val::Num(r->Ok_0),
            Err(k) => r is Err && r->Err_0@ == k,
        },
{
    let n = match insn {
        Insn::Iadd => x.checked_add(y),
        Insn::Isub => x.checked_sub(y),
        Insn::Imul => x.checked_mul(y),
        _ => {
            if y == 0 {
                return Err(error(ErrorKind::ArithmeticError, "division by zero"));
            }
            x.checked_div(y)
        },
    };
    match n {
        Some(n) => Ok(n),
        None => Err(error(ErrorKind::ArithmeticError, "integer overflow")),
    }
}

/// The result of a comparison instruction on its left and right operands.
fn logical_op(insn: &Insn, x: i32, y: i32) -> (r: bool)
    requires
        view_insn(*insn) is Eq || view_insn(*insn) is Gt || view_insn(*insn) is Lt
            || view_insn(*insn) is Gte || view_insn(*insn) is Lte,
    ensures
        apply_binary(view_insn(*insn), x, y) == Ok::<Val, Fault>(val_of_bool(r)),
{
    match insn {
        Insn::Ieq => x == y,
        Insn::Igt => x > y,
        Insn::Ilt => x < y,
        Insn::Igte => x >= y,
        _ => x <= y,
    }
}

impl Vm {
    /// A machine ready to run `code`: empty stack, environment and dump.
    pub fn new(code: Code) -> (r: Self)
        ensures
            r@ == initial(view_code(*code)),
    {
        let r = Vm { stack: Vec::new(), env: Rc::new(Env::new()), code, dump: Vec::new(), pc: 0 };
        proof {
            assert(r@.stack =~= Seq::<Val>::empty());
            assert(r@.dump =~= Seq::<Dump>::empty());
        }
        r
    }

    fn push(&mut self, v: Rc<Object>)
        ensures
            final(self).stack@ == old(self).stack@.push(v),
            final(self).env == old(self).env,
            final(self).code == old(self).code,
            final(self).dump == old(self).dump,
            final(self).pc == old(self).pc,
    {
        self.stack.push(v);
    }

    fn pop(&mut self) -> (r: Result<Rc<Object>, Error>)
        ensures
            old(self).stack@.len() > 0 ==> r == Ok::<Rc<Object>, Error>(old(self).stack@.last())
                && final(self).stack@ == old(self).stack@.drop_last(),
            old(self).stack@.len() == 0 ==> r is Err && r->Err_0@ == fault(ErrorKind::InternalError, "Stack underflow"@),
            final(self).env == old(self).env,
            final(self).code == old(self).code,
            final(self).dump == old(self).dump,
            final(self).pc == old(self).pc,
    {
        match self.stack.pop() {
            Some(v) => Ok(v),
            None => Err(error(ErrorKind::InternalError, "Stack underflow")),
        }
    }

    fn dump_pop(&mut self) -> (r: Result<DumpEntry, Error>)
        ensures
            old(self).dump@.len() > 0 ==> r == Ok::<DumpEntry, Error>(old(self).dump@.last())
                && final(self).dump@ == old(self).dump@.drop_last(),
            old(self).dump@.len() == 0 ==> r is Err && r->Err_0@ == fault(
                ErrorKind::InternalError,
                "Dump stack underflow"@,
            ),
            final(self).env == old(self).env,
            final(self).code == old(self).code,
            final(self).stack == old(self).stack,
            final(self).pc == old(self).pc,
    {
        match self.dump.pop() {
            Some(d) => Ok(d),
            None => Err(error(ErrorKind::InternalError, "Dump stack underflow")),
        }
    }

    /// The binary instruction `insn`, which stands at the counter.
    fn binary_op(&mut self, insn: &Insn) -> (r: Result<(), Error>)
        requires
            old(self)@.pc < old(self)@.code.len(),
            old(self)@.code[old(self)@.pc as int] == view_insn(*insn),
            is_binary(view_insn(*insn)),
        ensures
            steps_to(old(self)@, final(self)@, r),
    {
        let ghost s0 = self@;
        let ghost st0 = self.stack@;
        proof {
            assert(self.code.len() == view_code(*self.code).len());
            if st0.len() > 0 {
                lemma_views_drop_last(st0);
            }
            if st0.len() > 1 {
                lemma_views_drop_last(st0.drop_last());
                assert(views(st0)[st0.len() - 2] == views(st0.drop_last()).last());
            }
        }
        let yv = match self.pop() {
            Ok(v) => v,
            Err(e) => return Err(e),
        };
        let y = match yv.to_number() {
            Ok(n) => n,
            Err(e) => return Err(e),
        };
        let xv = match self.pop() {
            Ok(v) => v,
            Err(e) => return Err(e),
        };
        let x = match xv.to_number() {
            Ok(n) => n,
            Err(e) => return Err(e),
        };
        let v = match insn {
            Insn::Iadd | Insn::Isub | Insn::Imul | Insn::Idiv => match arith_op(insn, x, y) {
                Ok(n) => Object::Number(n),
                Err(e) => return Err(e),
            },
            _ => object::from_bool(logical_op(insn, x, y)),
        };
        let ghost st1 = self.stack@;
        self.push(Rc::new(v));
        self.pc = self.pc + 1;
        proof {
            lemma_views_push(st1, Rc::new(v));
        }
        Ok(())
    }

    /// `atom`, `null`, `car` or `cdr`, which stands at the counter: replaces
    /// the top of the stack by its result.
    fn unary_op(&mut self, insn: &Insn) -> (r: Result<(), Error>)
        requires
            old(self)@.pc < old(self)@.code.len(),
            old(self)@.code[old(self)@.pc as int] == view_insn(*insn),
            view_insn(*insn) is IsAtom || view_insn(*insn) is IsNull || view_insn(*insn) is Car
                || view_insn(*insn) is Cdr,
        ensures
            steps_to(old(self)@, final(self)@, r),
    {
        proof {
            assert(self.code.len() == view_code(*self.code).len());
            if self.stack@.len() > 0 {
                lemma_views_drop_last(self.stack@);
            }
        }
        let v = match self.pop() {
            Ok(v) => v,
            Err(e) => return Err(e),
        };
        let res = match insn {
            Insn::Iatom => Rc::new(object::from_bool(v.is_atom())),
            Insn::Inull => Rc::new(object::from_bool(v.is_null())),
            Insn::Icar => match v.car() {
                Ok(a) => a,
                Err(e) => return Err(e),
            },
            _ => match v.cdr() {
                Ok(d) => d,
                Err(e) => return Err(e),
            },
        };
        let ghost st1 = self.stack@;
        self.push(res);
        self.pc = self.pc + 1;
        proof {
            lemma_views_push(st1, res);
        }
        Ok(())
    }

    /// `cons`, which stands at the counter: the value on top becomes the
    /// `car`, the one below it the `cdr`.
    fn cons_op(&mut self) -> (r: Result<(), Error>)
        requires
            old(self)@.pc < old(self)@.code.len(),
            old(self)@.code[old(self)@.pc as int] is Cons,
        ensures
            steps_to(old(self)@, final(self)@, r),
    {
        let ghost st0 = self.stack@;
        proof {
            assert(self.code.len() == view_code(*self.code).len());
            if st0.len() > 0 {
                lemma_views_drop_last(st0);
            }
            if st0.len() > 1 {
                lemma_views_drop_last(st0.drop_last());
                assert(views(st0)[st0.len() - 2] == views(st0.drop_last()).last());
            }
        }
        let x = match self.pop() {
            Ok(v) => v,
            Err(e) => return Err(e),
        };
        let y = match self.pop() {
            Ok(v) => v,
            Err(e) => return Err(e),
        };
        let ghost st1 = self.stack@;
        let p = Rc::new(object::cons(x, y));
        self.push(p);
        self.pc = self.pc + 1;
        proof {
            lemma_views_push(st1, p);
        }
        Ok(())
    }

    /// Pushes `v` and moves to the next instruction.
    fn push_next(&mut self, v: Rc<Object>)
        requires
            old(self)@.pc < old(self)@.code.len(),
        ensures
            final(self)@ == advance(old(self)@, old(self)@.stack.push(v@)),
    {
        proof {
            assert(self.code.len() == view_code(*self.code).len());
            lemma_views_push(self.stack@, v);
        }
        self.push(v);
        self.pc = self.pc + 1;
    }

    /// A conditional, which stands at the counter: saves where to come back
    /// to and enters the branch that the value on top selects.
    fn run_sel(&mut self, ct: Code, cf: Code) -> (r: Result<(), Error>)
        requires
            old(self)@.pc < old(self)@.code.len(),
            old(self)@.code[old(self)@.pc as int] == Op::Select(view_code(*ct), view_code(*cf)),
        ensures
            steps_to(old(self)@, final(self)@, r),
    {
        proof {
            assert(self.code.len() == view_code(*self.code).len());
            if self.stack@.len() > 0 {
                lemma_views_drop_last(self.stack@);
            }
        }
        let v = match self.pop() {
            Ok(v) => v,
            Err(e) => return Err(e),
        };
        let mut c = if v.to_bool() {
            ct
        } else {
            cf
        };
        std::mem::swap(&mut self.code, &mut c);
        let ghost d0 = self.dump@;
        let entry = DumpEntry::Sel(c, self.pc + 1);
        self.dump.push(entry);
        self.pc = 0;
        proof {
            assert(self.dump@.map_values(|d: DumpEntry| view_dump(d)) =~= d0.map_values(
                |d: DumpEntry| view_dump(d),
            ).push(view_dump(entry)));
        }
        Ok(())
    }

    /// The end of a branch: returns to the continuation that the conditional saved.
    fn run_join(&mut self) -> (r: Result<(), Error>)
        requires
            old(self)@.pc < old(self)@.code.len(),
            old(self)@.code[old(self)@.pc as int] is Join,
        ensures
            steps_to(old(self)@, final(self)@, r),
    {
        let ghost d0 = self.dump@;
        proof {
            if d0.len() > 0 {
                assert(d0.drop_last().map_values(|d: DumpEntry| view_dump(d)) =~= d0.map_values(
                    |d: DumpEntry| view_dump(d),
                ).drop_last());
            }
        }
        let n = self.dump.len();
        if n == 0 {
            return Err(error(ErrorKind::InternalError, "Dump stack underflow"));
        }
        match &self.dump[n - 1] {
            DumpEntry::Sel(..) => {},
            _ => return Err(error(ErrorKind::InternalError, "Run into incoherent dump entry (ap)")),
        }
        match self.dump_pop() {
            Ok(DumpEntry::Sel(code, pc)) => {
                self.code = code;
                self.pc = pc;
                Ok(())
            },
            _ => Err(error(ErrorKind::InternalError, "Run into incoherent dump entry (ap)")),
        }
    }

    /// A call, which stands at the counter: takes the closure and then the
    /// argument list from the stack, saves the caller's state on the dump and
    /// enters the closure's code in its captured environment, extended by a
    /// frame of the actuals.
    fn run_ap(&mut self) -> (r: Result<(), Error>)
        requires
            old(self)@.pc < old(self)@.code.len(),
            old(self)@.code[old(self)@.pc as int] is Apply,
        ensures
            steps_to(old(self)@, final(self)@, r),
    {
        let ghost st0 = self.stack@;
        proof {
            assert(self.code.len() == view_code(*self.code).len());
            if st0.len() > 0 {
                lemma_views_drop_last(st0);
            }
            if st0.len() > 1 {
                lemma_views_drop_last(st0.drop_last());
                assert(views(st0)[st0.len() - 2] == views(st0.drop_last()).last());
            }
        }
        let f = match self.pop() {
            Ok(v) => v,
            Err(e) => return Err(e),
        };
        match &*f {
            Object::Func(code, fenv) => {
                let args = match self.pop() {
                    Ok(v) => v,
                    Err(e) => return Err(e),
                };
                let frame = match object::list_to_vec(&*args) {
                    Ok(v) => v,
                    Err(e) => return Err(e),
                };
                proof {
                    env::lemma_view_frame(frame);
                }
                let mut stack: Vec<Rc<Object>> = Vec::new();
                std::mem::swap(&mut self.stack, &mut stack);
                let mut env = Rc::new(env::push(fenv.clone(), frame));
                std::mem::swap(&mut self.env, &mut env);
                let mut c = code.clone();
                std::mem::swap(&mut self.code, &mut c);
                let ghost d0 = self.dump@;
                let entry = DumpEntry::Ap(stack, env, c, self.pc + 1);
                self.dump.push(entry);
                self.pc = 0;
                proof {
                    assert(self.dump@.map_values(|d: DumpEntry| view_dump(d)) =~= d0.map_values(
                        |d: DumpEntry| view_dump(d),
                    ).push(view_dump(entry)));
                    assert(views(self.stack@) =~= Seq::<Val>::empty());
                }
                Ok(())
            },
            _ => Err(error(ErrorKind::TypeError, "not applicable")),
        }
    }

    /// A return, which stands at the counter: takes the result from the
    /// stack and restores the caller's state with the result pushed.
    fn run_rtn(&mut self) -> (r: Result<(), Error>)
        requires
            old(self)@.pc < old(self)@.code.len(),
            old(self)@.code[old(self)@.pc as int] is Return,
        ensures
            steps_to(old(self)@, final(self)@, r),
    {
        let ghost d0 = self.dump@;
        proof {
            if self.stack@.len() > 0 {
                lemma_views_drop_last(self.stack@);
            }
            if d0.len() > 0 {
                assert(d0.drop_last().map_values(|d: DumpEntry| view_dump(d)) =~= d0.map_values(
                    |d: DumpEntry| view_dump(d),
                ).drop_last());
            }
        }
        let v = match self.pop() {
            Ok(v) => v,
            Err(e) => return Err(e),
        };
        let n = self.dump.len();
        if n == 0 {
            return Err(error(ErrorKind::InternalError, "Dump stack underflow"));
        }
        match &self.dump[n - 1] {
            DumpEntry::Ap(..) => {},
            _ => return Err(error(ErrorKind::InternalError, "Run into incoherent dump entry (sel)")),
        }
        match self.dump_pop() {
            Ok(DumpEntry::Ap(stack, env, code, pc)) => {
                let mut stack = stack;
                let ghost saved = stack@;
                stack.push(v);
                proof {
                    lemma_views_push(saved, v);
                }
                self.stack = stack;
                self.env = env;
                self.code = code;
                self.pc = pc;
                Ok(())
            },
            _ => Err(error(ErrorKind::InternalError, "Run into incoherent dump entry (sel)")),
        }
    }

    /// Executes the instruction at the counter.
    fn step(&mut self) -> (r: Result<(), Error>)
        requires
            old(self)@.pc < old(self)@.code.len(),
        ensures
            steps_to(old(self)@, final(self)@, r),
    {
        let code = self.code.clone();
        let insns: &Vec<Insn> = &*code;
        let pc = self.pc;
        let insn = &insns[pc];
        assert(self@.code[pc as int] == view_insn(*insn));
        match insn {
            Insn::Inil => {
                self.push_next(Rc::new(Object::Nil));
                Ok(())
            },
            Insn::Ildc(obj) => {
                self.push_next(obj.clone());
                Ok(())
            },
            Insn::Ild(loc) => match self.env.locate(*loc) {
                Ok(v) => {
                    self.push_next(v);
                    Ok(())
                },
                Err(e) => Err(e),
            },
            Insn::Iatom | Insn::Inull | Insn::Icar | Insn::Icdr => self.unary_op(insn),
            Insn::Icons => self.cons_op(),
            Insn::Iadd | Insn::Isub | Insn::Imul | Insn::Idiv | Insn::Ieq | Insn::Igt | Insn::Ilt
            | Insn::Igte | Insn::Ilte => self.binary_op(insn),
            Insn::Isel(ct, cf) => self.run_sel(ct.clone(), cf.clone()),
            Insn::Ijoin => self.run_join(),
            Insn::Ildf(c) => {
                let f = Object::Func(c.clone(), self.env.clone());
                self.push_next(Rc::new(f));
                Ok(())
            },
            Insn::Iap => self.run_ap(),
            Insn::Irtn => self.run_rtn(),
        }
    }

    /// Runs the machine until its counter runs off its code, and returns the
    /// value on top of the stack (`Nil` for an empty stack). Gives up with an
    /// internal error after `STEP_LIMIT` steps.
    pub fn run(&mut self) -> (r: Result<Rc<Object>, Error>)
        ensures
            match outcome(old(self)@, STEP_LIMIT as nat) {
                Some(Ok(v)) => r is Ok && r->Ok_0@ == v,
                Some(Err(k)) => r is Err && r->Err_0@ == k,
                None => r is Err && r->Err_0@ == fault(
                    ErrorKind::InternalError,
                    "step limit exceeded"@,
                ),
            },
    {
        let ghost s0 = self@;
        let mut fuel: u64 = STEP_LIMIT;
        loop
            invariant
                s0 == old(self)@,
                outcome(s0, STEP_LIMIT as nat) == outcome(self@, fuel as nat),
            decreases fuel,
        {
            proof {
                assert(self.code.len() == view_code(*self.code).len());
            }
            if self.pc >= self.code.len() {
                assert(halted(self@));
                assert(outcome(self@, fuel as nat) == Some(final_result(self@)));
                assert(self@.dump.len() == self.dump@.len());
                if self.dump.len() > 0 {
                    return Err(error(ErrorKind::InternalError, "continuation left at halt"));
                }
                proof {
                    if self.stack@.len() > 0 {
                        lemma_views_drop_last(self.stack@);
                    }
                }
                return match self.stack.pop() {
                    Some(v) => Ok(v),
                    None => Ok(Rc::new(Object::Nil)),
                };
            }
            if fuel == 0 {
                return Err(error(ErrorKind::InternalError, "step limit exceeded"));
            }
            match self.step() {
                Ok(()) => {},
                Err(e) => return Err(e),
            }
            fuel = fuel - 1;
        }
    }
}

} // verus!
