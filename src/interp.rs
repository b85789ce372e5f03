use std::rc::Rc;
use vstd::prelude::*;
use crate::compiler::{
    self,
    Form,
    check_args,
    compile_args,
    compile_cons,
    compile_expr,
    compile_if,
    compile_program,
    form_of,
    lemma_primitive_names,
    primitive,
};
use crate::error::{Error, ErrorKind, Fault, fault};
use crate::insns::Op;
use crate::object::{Object, Val, car_of, cdr_of, list_elems, val_of_bool};
use crate::vm::{
    STEP_LIMIT,
    Dump,
    State,
    halted,
    Vm,
    advance,
    apply_binary,
    binary_operands,
    final_result,
    initial,
    int_result,
    is_binary,
    next_state,
    outcome,
    trunc_div,
};

verus! {

/// What evaluating a source tree gives: the compiler's error, or what the
/// machine returns from the compiled code within `STEP_LIMIT` steps; nothing
/// if it has not halted by then.
pub open spec fn eval_source(e: Val) -> Option<Result<Val, Fault>> {
    match compile_program(e) {
        Ok(c) => outcome(initial(c), STEP_LIMIT as nat),
        Err(k) => Some(Err(k)),
    }
}

/// Compiles a source tree and runs it on a fresh machine.
pub fn eval(expr: &Object) -> (r: Result<Rc<Object>, Error>)
    ensures
        match eval_source(expr@) {
            Some(Ok(v)) => r is Ok && r->Ok_0@ == v,
            Some(Err(k)) => r is Err && r->Err_0@ == k,
            None => r is Err && r->Err_0@ == fault(ErrorKind::InternalError, "step limit exceeded"@),
        },
{
    let code = match compiler::compile(expr) {
        Ok(c) => c,
        Err(e) => return Err(e),
    };
    let mut vm = Vm::new(code);
    vm.run()
}

/// The pair of two values.
pub open spec fn pair(a: Val, d: Val) -> Val {
    Val::Pair(Box::new(a), Box::new(d))
}

/// The source tree `(f a b)`.
pub open spec fn form2(f: Seq<char>, a: Val, b: Val) -> Val {
    pair(Val::Sym(f), pair(a, pair(b, Val::Nil)))
}

/// Arithmetic on two integer literals gives the integer result of the
/// operation, the left operand being the one written first; a result outside
/// the signed 32-bit range is an arithmetic error, and so is division by zero.
pub proof fn lemma_arithmetic(a: i32, b: i32)
    ensures
        eval_source(form2("+"@, Val::Num(a), Val::Num(b))) == Some(int_result(a + b)),
        eval_source(form2("-"@, Val::Num(a), Val::Num(b))) == Some(int_result(a - b)),
        eval_source(form2("*"@, Val::Num(a), Val::Num(b))) == Some(int_result(a * b)),
        b != 0 ==> eval_source(form2("/"@, Val::Num(a), Val::Num(b))) == Some(
            int_result(trunc_div(a as int, b as int)),
        ),
{
    lemma_primitive_names();
    lemma_binary_form("+"@, Op::Add, a, b);
    lemma_binary_form("-"@, Op::Sub, a, b);
    lemma_binary_form("*"@, Op::Mul, a, b);
    lemma_binary_form("/"@, Op::Div, a, b);
}

/// Comparisons of two integer literals give `t` or `nil` by the comparison of
/// the left operand, written first, with the right one.
pub proof fn lemma_comparison(a: i32, b: i32)
    ensures
        eval_source(form2("="@, Val::Num(a), Val::Num(b))) == Some(
            Ok::<Val, Fault>(val_of_bool(a == b)),
        ),
        eval_source(form2("<"@, Val::Num(a), Val::Num(b))) == Some(
            Ok::<Val, Fault>(val_of_bool(a < b)),
        ),
        eval_source(form2(">"@, Val::Num(a), Val::Num(b))) == Some(
            Ok::<Val, Fault>(val_of_bool(a > b)),
        ),
        eval_source(form2("<="@, Val::Num(a), Val::Num(b))) == Some(
            Ok::<Val, Fault>(val_of_bool(a <= b)),
        ),
        eval_source(form2(">="@, Val::Num(a), Val::Num(b))) == Some(
            Ok::<Val, Fault>(val_of_bool(a >= b)),
        ),
{
    lemma_primitive_names();
    lemma_binary_form("="@, Op::Eq, a, b);
    lemma_binary_form("<"@, Op::Lt, a, b);
    lemma_binary_form(">"@, Op::Gt, a, b);
    lemma_binary_form("<="@, Op::Lte, a, b);
    lemma_binary_form(">="@, Op::Gte, a, b);
}

/// `car` and `cdr` take a pair apart into the two values it was built from.
pub proof fn lemma_car_cdr_of_pair(x: Val, y: Val)
    ensures
        car_of(pair(x, y)) == Some(x),
        cdr_of(pair(x, y)) == Some(y),
{
}

/// At source level, `(car (cons x y))` evaluates to `x` and `(cdr (cons x y))`
/// to `y`, for integer literals `x` and `y`.
pub proof fn lemma_car_cdr_of_cons_source(a: i32, b: i32)
    ensures
        eval_source(pair(Val::Sym("car"@), pair(form2("cons"@, Val::Num(a), Val::Num(b)), Val::Nil)))
            == Some(Ok::<Val, Fault>(Val::Num(a))),
        eval_source(pair(Val::Sym("cdr"@), pair(form2("cons"@, Val::Num(a), Val::Num(b)), Val::Nil)))
            == Some(Ok::<Val, Fault>(Val::Num(b))),
{
    lemma_primitive_names();
    let inner = form2("cons"@, Val::Num(a), Val::Num(b));
    let args = pair(Val::Num(a), pair(Val::Num(b), Val::Nil));
    reveal_with_fuel(crate::object::list_elems, 4);
    reveal_with_fuel(crate::compiler::compile_args, 3);
    let ci = seq![Op::PushConst(Val::Num(b)), Op::PushConst(Val::Num(a)), Op::Cons];
    assert(check_args(2, args) is Ok);
    assert((seq![Op::PushConst(Val::Num(b))] + seq![Op::PushConst(Val::Num(a))]).push(Op::Cons)
        =~= ci);
    assert(compile_cons(Seq::empty(), 0, args) == Ok::<Seq<Op>, Fault>(ci));
    assert(compile_expr(Seq::empty(), 0, inner) == Ok::<Seq<Op>, Fault>(ci));
    assert(compile_args(Seq::empty(), 0, pair(inner, Val::Nil)) == Ok::<Seq<Op>, Fault>(
        ci + Seq::empty(),
    ));
    assert(ci + Seq::<Op>::empty() =~= ci);
    lemma_run_selector("car"@, Op::Car, a, b, ci, Val::Num(a));
    lemma_run_selector("cdr"@, Op::Cdr, a, b, ci, Val::Num(b));
}

/// Running the code `ci` of `(cons a b)` followed by `car` or `cdr`.
proof fn lemma_run_selector(name: Seq<char>, op: Op, a: i32, b: i32, ci: Seq<Op>, v: Val)
    requires
        primitive(name) == Some((1nat, op)),
        op is Car || op is Cdr,
        v == if op is Car {
            Val::Num(a)
        } else {
            Val::Num(b)
        },
        ci == seq![Op::PushConst(Val::Num(b)), Op::PushConst(Val::Num(a)), Op::Cons],
        compile_args(
            Seq::empty(),
            0,
            pair(form2("cons"@, Val::Num(a), Val::Num(b)), Val::Nil),
        ) == Ok::<Seq<Op>, Fault>(ci),
    ensures
        eval_source(pair(Val::Sym(name), pair(form2("cons"@, Val::Num(a), Val::Num(b)), Val::Nil)))
            == Some(Ok::<Val, Fault>(v)),
{
    lemma_primitive_names();
    reveal_with_fuel(crate::object::list_elems, 4);
    let inner = form2("cons"@, Val::Num(a), Val::Num(b));
    let e = pair(Val::Sym(name), pair(inner, Val::Nil));
    let code = ci.push(op);
    assert(check_args(1, pair(inner, Val::Nil)) is Ok);
    assert(compile_program(e) == Ok::<Seq<Op>, Fault>(code));
    let s0 = initial(code);
    let s1 = advance(s0, seq![Val::Num(b)]);
    let s2 = advance(s1, seq![Val::Num(b), Val::Num(a)]);
    let s3 = advance(s2, seq![pair(Val::Num(a), Val::Num(b))]);
    let s4 = advance(s3, seq![v]);
    assert(next_state(s0) == Ok::<State, Fault>(s1)) by {
        assert(Seq::<Val>::empty().push(Val::Num(b)) =~= seq![Val::Num(b)]);
    }
    assert(next_state(s1) == Ok::<State, Fault>(s2)) by {
        assert(seq![Val::Num(b)].push(Val::Num(a)) =~= seq![Val::Num(b), Val::Num(a)]);
    }
    assert(next_state(s2) == Ok::<State, Fault>(s3)) by {
        assert(s2.stack.drop_last().drop_last().push(pair(Val::Num(a), Val::Num(b))) =~= s3.stack);
    }
    assert(next_state(s3) == Ok::<State, Fault>(s4)) by {
        assert(s3.stack.drop_last().push(v) =~= s4.stack);
    }
    assert(outcome(s4, (STEP_LIMIT - 4) as nat) == Some(Ok::<Val, Fault>(v)));
    assert(outcome(s3, (STEP_LIMIT - 3) as nat) == Some(Ok::<Val, Fault>(v)));
    assert(outcome(s2, (STEP_LIMIT - 2) as nat) == Some(Ok::<Val, Fault>(v)));
    assert(outcome(s1, (STEP_LIMIT - 1) as nat) == Some(Ok::<Val, Fault>(v)));
}

/// The state after `n` steps from `s`, or after fewer where the machine
/// halts first; the error of a step that fails.
pub open spec fn steps(s: State, n: nat) -> Result<State, Fault>
    decreases n,
{
    if n == 0 || halted(s) {
        Ok(s)
    } else {
        match next_state(s) {
            Ok(t) => steps(t, (n - 1) as nat),
            Err(k) => Err(k),
        }
    }
}

/// The source tree `(if c a b)` with integer branches.
pub open spec fn if_form(c: Val, a: i32, b: i32) -> Val {
    pair(Val::Sym("if"@), pair(c, pair(Val::Num(a), pair(Val::Num(b), Val::Nil))))
}

/// A conditional on `t` or `nil` enters one branch and joins back: the
/// machine halts with the dump back at its starting depth (empty) and one
/// value on the stack, the chosen branch's.
pub proof fn lemma_branch_isolation(c: Val, a: i32, b: i32)
    requires
        c is T || c is Nil,
    ensures
        compile_program(if_form(c, a, b)) is Ok,
        steps(initial(compile_program(if_form(c, a, b))->Ok_0), 4) is Ok,
        ({
            let t = steps(initial(compile_program(if_form(c, a, b))->Ok_0), 4)->Ok_0;
            &&& halted(t)
            &&& t.dump.len() == 0
            &&& t.stack == seq![Val::Num(if c is Nil { b } else { a })]
        }),
        eval_source(if_form(c, a, b)) == Some(
            Ok::<Val, Fault>(Val::Num(if c is Nil { b } else { a })),
        ),
{
    lemma_primitive_names();
    reveal_with_fuel(crate::object::list_elems, 4);
    reveal_with_fuel(steps, 5);
    let e = if_form(c, a, b);
    let copy = if c is Nil { Op::PushNil } else { Op::PushConst(Val::T) };
    let ct = seq![Op::PushConst(Val::Num(a)), Op::Join];
    let cf = seq![Op::PushConst(Val::Num(b)), Op::Join];
    assert(seq![Op::PushConst(Val::Num(a))].push(Op::Join) =~= ct);
    assert(seq![Op::PushConst(Val::Num(b))].push(Op::Join) =~= cf);
    let code = seq![copy, Op::Select(ct, cf)];
    assert(compile_expr(Seq::empty(), 0, c) == Ok::<Seq<Op>, Fault>(seq![copy]));
    assert(seq![copy].push(Op::Select(ct, cf)) =~= code);
    let rest = pair(c, pair(Val::Num(a), pair(Val::Num(b), Val::Nil)));
    assert(check_args(3, rest) is Ok);
    assert(compile_if(Seq::empty(), 0, rest) == Ok::<Seq<Op>, Fault>(code));
    assert(form_of(Val::Sym("if"@)) == Form::If);
    assert(compile_program(e) == Ok::<Seq<Op>, Fault>(code));
    let v = if c is Nil { b } else { a };
    let s0 = initial(code);
    let s1 = advance(s0, seq![c]);
    let s2 = State {
        stack: Seq::empty(),
        env: Seq::empty(),
        code: if c is Nil { cf } else { ct },
        pc: 0,
        dump: seq![Dump::Sel(code, 2)],
    };
    let s3 = advance(s2, seq![Val::Num(v)]);
    let s4 = State {
        stack: seq![Val::Num(v)],
        env: Seq::empty(),
        code,
        pc: 2,
        dump: Seq::empty(),
    };
    assert(next_state(s0) == Ok::<State, Fault>(s1)) by {
        assert(Seq::<Val>::empty().push(c) =~= seq![c]);
    }
    assert(next_state(s1) == Ok::<State, Fault>(s2)) by {
        assert(seq![c].drop_last() =~= Seq::<Val>::empty());
        assert(Seq::<Dump>::empty().push(Dump::Sel(code, 2)) =~= seq![Dump::Sel(code, 2)]);
    }
    assert(next_state(s2) == Ok::<State, Fault>(s3)) by {
        assert(Seq::<Val>::empty().push(Val::Num(v)) =~= seq![Val::Num(v)]);
    }
    assert(next_state(s3) == Ok::<State, Fault>(s4)) by {
        assert(seq![Dump::Sel(code, 2)].drop_last() =~= Seq::<Dump>::empty());
    }
    assert(steps(s0, 4) == Ok::<State, Fault>(s4));
    assert(outcome(s4, (STEP_LIMIT - 4) as nat) == Some(Ok::<Val, Fault>(Val::Num(v))));
    assert(outcome(s3, (STEP_LIMIT - 3) as nat) == Some(Ok::<Val, Fault>(Val::Num(v))));
    assert(outcome(s2, (STEP_LIMIT - 2) as nat) == Some(Ok::<Val, Fault>(Val::Num(v))));
    assert(outcome(s1, (STEP_LIMIT - 1) as nat) == Some(Ok::<Val, Fault>(Val::Num(v))));
}

/// Compiling is a function of the source tree: equal trees give equal code.
pub proof fn lemma_compile_deterministic(e1: Val, e2: Val)
    requires
        e1 == e2,
    ensures
        compile_program(e1) == compile_program(e2),
{
}

/// A primitive applied to a list of actuals that is not proper, or not of
/// its arity, is an arity error that says which.
pub proof fn lemma_arity_enforced(name: Seq<char>, n: nat, op: Op, rest: Val)
    requires
        primitive(name) == Some((n, op)),
    ensures
        list_elems(rest) is None ==> compile_program(pair(Val::Sym(name), rest)) == Err::<
            Seq<Op>,
            Fault,
        >(fault(ErrorKind::ArityError, "arglist must be proper list"@)),
        list_elems(rest) is Some && list_elems(rest)->0.len() < n ==> compile_program(
            pair(Val::Sym(name), rest),
        ) == Err::<Seq<Op>, Fault>(fault(ErrorKind::ArityError, "too few arguments"@)),
        list_elems(rest) is Some && list_elems(rest)->0.len() > n ==> compile_program(
            pair(Val::Sym(name), rest),
        ) == Err::<Seq<Op>, Fault>(fault(ErrorKind::ArityError, "too many arguments"@)),
{
    assert(form_of(Val::Sym(name)) == Form::Primitive(n, op));
    let e = pair(Val::Sym(name), rest);
    if op is Cons {
        assert(n == 2);
        assert(compile_program(e) == compile_cons(Seq::empty(), 0, rest));
        if check_args(2, rest) is Err {
            assert(compile_cons(Seq::empty(), 0, rest) == Err::<Seq<Op>, Fault>(
                check_args(2, rest)->Err_0,
            ));
        }
    }
}

/// A symbol at top level, where nothing is bound, is a name error that
/// names it.
pub proof fn lemma_unknown_variable(name: Seq<char>)
    ensures
        compile_program(Val::Sym(name)) == Err::<Seq<Op>, Fault>(
            fault(ErrorKind::NameError, "unknown variable: "@ + name),
        ),
{
}

/// A primitive of two operands applied to two integer literals compiles to
/// the two constants, left first, and its instruction; running that gives
/// what the operation gives on them.
proof fn lemma_binary_form(name: Seq<char>, op: Op, a: i32, b: i32)
    requires
        primitive(name) == Some((2nat, op)),
        is_binary(op),
    ensures
        compile_program(form2(name, Val::Num(a), Val::Num(b))) == Ok::<Seq<Op>, Fault>(
            seq![Op::PushConst(Val::Num(a)), Op::PushConst(Val::Num(b)), op],
        ),
        eval_source(form2(name, Val::Num(a), Val::Num(b))) == Some(apply_binary(op, a, b)),
{
    let e = form2(name, Val::Num(a), Val::Num(b));
    let args = pair(Val::Num(a), pair(Val::Num(b), Val::Nil));
    reveal_with_fuel(crate::object::list_elems, 4);
    reveal_with_fuel(crate::compiler::compile_args, 3);
    assert(check_args(2, args) is Ok);
    assert(compile_args(Seq::empty(), 0, args) == Ok::<Seq<Op>, Fault>(
        seq![Op::PushConst(Val::Num(a))] + seq![Op::PushConst(Val::Num(b))],
    ));
    assert(seq![Op::PushConst(Val::Num(a))] + seq![Op::PushConst(Val::Num(b))] =~= seq![
        Op::PushConst(Val::Num(a)),
        Op::PushConst(Val::Num(b)),
    ]);
    let code = seq![Op::PushConst(Val::Num(a)), Op::PushConst(Val::Num(b)), op];
    assert(seq![Op::PushConst(Val::Num(a)), Op::PushConst(Val::Num(b))].push(op) =~= code);
    assert(compile_program(e) == Ok::<Seq<Op>, Fault>(code));
    let s0 = initial(code);
    let s1 = advance(s0, seq![Val::Num(a)]);
    let s2 = advance(s1, seq![Val::Num(a), Val::Num(b)]);
    assert(next_state(s0) == Ok::<State, Fault>(s1)) by {
        assert(Seq::<Val>::empty().push(Val::Num(a)) =~= seq![Val::Num(a)]);
    }
    assert(next_state(s1) == Ok::<State, Fault>(s2)) by {
        assert(seq![Val::Num(a)].push(Val::Num(b)) =~= seq![Val::Num(a), Val::Num(b)]);
    }
    assert(binary_operands(s2.stack) == Ok::<(i32, i32), Fault>((a, b)));
    match apply_binary(op, a, b) {
        Ok(v) => {
            let s3 = advance(s2, s2.stack.drop_last().drop_last().push(v));
            assert(next_state(s2) == Ok::<State, Fault>(s3));
            assert(outcome(s3, (STEP_LIMIT - 3) as nat) == Some(final_result(s3)));
            assert(final_result(s3) == Ok::<Val, Fault>(v));
        },
        Err(k) => {
            assert(next_state(s2) == Err::<State, Fault>(k));
        },
    }
    assert(outcome(s2, (STEP_LIMIT - 2) as nat) == Some(apply_binary(op, a, b)));
    assert(outcome(s1, (STEP_LIMIT - 1) as nat) == Some(apply_binary(op, a, b)));
}

} // verus!
