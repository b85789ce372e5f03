use std::rc::Rc;
use vstd::prelude::*;
use vstd::string::StrSliceExecFns;
use crate::error::{Error, ErrorKind, Fault, error, fault};
use crate::insns::{Code, Insn, Op, view_code, view_insn};
use crate::object::{self, Object, Val, list_elems, print_val, view_obj, views};

verus! {

/// The model of a compile-time environment: one binding per entry, each a
/// name, the absolute `lambda` depth that binds it and its slot there. A later
/// entry shadows an earlier one of the same name.
pub type CEnv = Seq<(Seq<char>, nat, nat)>;

/// The binding of `name` in force: the last entry with that name.
pub open spec fn lookup(cenv: CEnv, name: Seq<char>) -> Option<(nat, nat)>
    decreases cenv.len(),
{
    if cenv.len() == 0 {
        None
    } else if cenv.last().0 == name {
        Some((cenv.last().1, cenv.last().2))
    } else {
        lookup(cenv.drop_last(), name)
    }
}

/// The arity and opcode of a primitive, by name.
pub open spec fn primitive(name: Seq<char>) -> Option<(nat, Op)> {
    if name == "+"@ {
        Some((2, Op::Add))
    } else if name == "-"@ {
        Some((2, Op::Sub))
    } else if name == "*"@ {
        Some((2, Op::Mul))
    } else if name == "/"@ {
        Some((2, Op::Div))
    } else if name == "="@ {
        Some((2, Op::Eq))
    } else if name == "<"@ {
        Some((2, Op::Lt))
    } else if name == ">"@ {
        Some((2, Op::Gt))
    } else if name == "<="@ {
        Some((2, Op::Lte))
    } else if name == ">="@ {
        Some((2, Op::Gte))
    } else if name == "cons"@ {
        Some((2, Op::Cons))
    } else if name == "car"@ {
        Some((1, Op::Car))
    } else if name == "cdr"@ {
        Some((1, Op::Cdr))
    } else if name == "null"@ {
        Some((1, Op::IsNull))
    } else if name == "atom"@ {
        Some((1, Op::IsAtom))
    } else {
        None
    }
}

/// The primitives by name, and the two special forms, which are no primitives.
pub proof fn lemma_primitive_names()
    ensures
        primitive("+"@) == Some((2nat, Op::Add)),
        primitive("-"@) == Some((2nat, Op::Sub)),
        primitive("*"@) == Some((2nat, Op::Mul)),
        primitive("/"@) == Some((2nat, Op::Div)),
        primitive("="@) == Some((2nat, Op::Eq)),
        primitive("<"@) == Some((2nat, Op::Lt)),
        primitive(">"@) == Some((2nat, Op::Gt)),
        primitive("<="@) == Some((2nat, Op::Lte)),
        primitive(">="@) == Some((2nat, Op::Gte)),
        primitive("cons"@) == Some((2nat, Op::Cons)),
        primitive("car"@) == Some((1nat, Op::Car)),
        primitive("cdr"@) == Some((1nat, Op::Cdr)),
        primitive("null"@) == Some((1nat, Op::IsNull)),
        primitive("atom"@) == Some((1nat, Op::IsAtom)),
        primitive("if"@) is None,
        primitive("lambda"@) is None,
        "if"@ != "lambda"@,
{
    reveal_strlit("+");
    reveal_strlit("-");
    reveal_strlit("*");
    reveal_strlit("/");
    reveal_strlit("=");
    reveal_strlit("<");
    reveal_strlit(">");
    reveal_strlit("<=");
    reveal_strlit(">=");
    reveal_strlit("cons");
    reveal_strlit("car");
    reveal_strlit("cdr");
    reveal_strlit("null");
    reveal_strlit("atom");
    reveal_strlit("if");
    reveal_strlit("lambda");
    assert("-"@[0] != "+"@[0]);
    assert("*"@[0] != "+"@[0]);
    assert("*"@[0] != "-"@[0]);
    assert("/"@[0] != "+"@[0]);
    assert("/"@[0] != "-"@[0]);
    assert("/"@[0] != "*"@[0]);
    assert("="@[0] != "+"@[0]);
    assert("="@[0] != "-"@[0]);
    assert("="@[0] != "*"@[0]);
    assert("="@[0] != "/"@[0]);
    assert("<"@[0] != "+"@[0]);
    assert("<"@[0] != "-"@[0]);
    assert("<"@[0] != "*"@[0]);
    assert("<"@[0] != "/"@[0]);
    assert("<"@[0] != "="@[0]);
    assert(">"@[0] != "+"@[0]);
    assert(">"@[0] != "-"@[0]);
    assert(">"@[0] != "*"@[0]);
    assert(">"@[0] != "/"@[0]);
    assert(">"@[0] != "="@[0]);
    assert(">"@[0] != "<"@[0]);
    assert("<="@.len() != "+"@.len());
    assert("<="@.len() != "-"@.len());
    assert("<="@.len() != "*"@.len());
    assert("<="@.len() != "/"@.len());
    assert("<="@.len() != "="@.len());
    assert("<="@.len() != "<"@.len());
    assert("<="@.len() != ">"@.len());
    assert(">="@.len() != "+"@.len());
    assert(">="@.len() != "-"@.len());
    assert(">="@.len() != "*"@.len());
    assert(">="@.len() != "/"@.len());
    assert(">="@.len() != "="@.len());
    assert(">="@.len() != "<"@.len());
    assert(">="@.len() != ">"@.len());
    assert(">="@[0] != "<="@[0]);
    assert("cons"@.len() != "+"@.len());
    assert("cons"@.len() != "-"@.len());
    assert("cons"@.len() != "*"@.len());
    assert("cons"@.len() != "/"@.len());
    assert("cons"@.len() != "="@.len());
    assert("cons"@.len() != "<"@.len());
    assert("cons"@.len() != ">"@.len());
    assert("cons"@.len() != "<="@.len());
    assert("cons"@.len() != ">="@.len());
    assert("car"@.len() != "+"@.len());
    assert("car"@.len() != "-"@.len());
    assert("car"@.len() != "*"@.len());
    assert("car"@.len() != "/"@.len());
    assert("car"@.len() != "="@.len());
    assert("car"@.len() != "<"@.len());
    assert("car"@.len() != ">"@.len());
    assert("car"@.len() != "<="@.len());
    assert("car"@.len() != ">="@.len());
    assert("car"@.len() != "cons"@.len());
    assert("cdr"@.len() != "+"@.len());
    assert("cdr"@.len() != "-"@.len());
    assert("cdr"@.len() != "*"@.len());
    assert("cdr"@.len() != "/"@.len());
    assert("cdr"@.len() != "="@.len());
    assert("cdr"@.len() != "<"@.len());
    assert("cdr"@.len() != ">"@.len());
    assert("cdr"@.len() != "<="@.len());
    assert("cdr"@.len() != ">="@.len());
    assert("cdr"@.len() != "cons"@.len());
    assert("cdr"@[1] != "car"@[1]);
    assert("null"@.len() != "+"@.len());
    assert("null"@.len() != "-"@.len());
    assert("null"@.len() != "*"@.len());
    assert("null"@.len() != "/"@.len());
    assert("null"@.len() != "="@.len());
    assert("null"@.len() != "<"@.len());
    assert("null"@.len() != ">"@.len());
    assert("null"@.len() != "<="@.len());
    assert("null"@.len() != ">="@.len());
    assert("null"@[0] != "cons"@[0]);
    assert("null"@.len() != "car"@.len());
    assert("null"@.len() != "cdr"@.len());
    assert("atom"@.len() != "+"@.len());
    assert("atom"@.len() != "-"@.len());
    assert("atom"@.len() != "*"@.len());
    assert("atom"@.len() != "/"@.len());
    assert("atom"@.len() != "="@.len());
    assert("atom"@.len() != "<"@.len());
    assert("atom"@.len() != ">"@.len());
    assert("atom"@.len() != "<="@.len());
    assert("atom"@.len() != ">="@.len());
    assert("atom"@[0] != "cons"@[0]);
    assert("atom"@.len() != "car"@.len());
    assert("atom"@.len() != "cdr"@.len());
    assert("atom"@[0] != "null"@[0]);
    assert("if"@.len() != "+"@.len());
    assert("if"@.len() != "-"@.len());
    assert("if"@.len() != "*"@.len());
    assert("if"@.len() != "/"@.len());
    assert("if"@.len() != "="@.len());
    assert("if"@.len() != "<"@.len());
    assert("if"@.len() != ">"@.len());
    assert("if"@[0] != "<="@[0]);
    assert("if"@[0] != ">="@[0]);
    assert("if"@.len() != "cons"@.len());
    assert("if"@.len() != "car"@.len());
    assert("if"@.len() != "cdr"@.len());
    assert("if"@.len() != "null"@.len());
    assert("if"@.len() != "atom"@.len());
    assert("lambda"@.len() != "+"@.len());
    assert("lambda"@.len() != "-"@.len());
    assert("lambda"@.len() != "*"@.len());
    assert("lambda"@.len() != "/"@.len());
    assert("lambda"@.len() != "="@.len());
    assert("lambda"@.len() != "<"@.len());
    assert("lambda"@.len() != ">"@.len());
    assert("lambda"@.len() != "<="@.len());
    assert("lambda"@.len() != ">="@.len());
    assert("lambda"@.len() != "cons"@.len());
    assert("lambda"@.len() != "car"@.len());
    assert("lambda"@.len() != "cdr"@.len());
    assert("lambda"@.len() != "null"@.len());
    assert("lambda"@.len() != "atom"@.len());
    assert("lambda"@.len() != "if"@.len());
}

/// Whether `args` is a proper list of exactly `n` actuals; an arity error
/// that says what is wrong otherwise.
pub open spec fn check_args(n: nat, args: Val) -> Result<(), Fault> {
    match list_elems(args) {
        Some(s) => if s.len() < n {
            Err(fault(ErrorKind::ArityError, "too few arguments"@))
        } else if s.len() > n {
            Err(fault(ErrorKind::ArityError, "too many arguments"@))
        } else {
            Ok(())
        },
        None => Err(fault(ErrorKind::ArityError, "arglist must be proper list"@)),
    }
}

/// The name of a symbol.
pub open spec fn sym_name(v: Val) -> Seq<char> {
    match v {
        Val::Sym(s) => s,
        _ => Seq::empty(),
    }
}

/// The environment with each parameter bound at depth `level`, slot by slot.
pub open spec fn bind_params(cenv: CEnv, level: nat, params: Seq<Val>) -> CEnv {
    cenv + Seq::new(params.len(), |j: int| (sym_name(params[j]), level, j as nat))
}

/// What the head of a compound form makes of it.
pub enum Form {
    /// `nil`, `t` or an integer: nothing that can be applied.
    Literal,
    /// A primitive of the given arity and opcode.
    Primitive(nat, Op),
    If,
    Lambda,
    /// Anything else: a call of the head's value.
    Application,
}

/// The form that a compound expression with head `h` is.
pub open spec fn form_of(h: Val) -> Form {
    match h {
        Val::Nil => Form::Literal,
        Val::T => Form::Literal,
        Val::Num(_) => Form::Literal,
        Val::Sym(s) => match primitive(s) {
            Some((n, op)) => Form::Primitive(n, op),
            None => if s == "if"@ {
                Form::If
            } else if s == "lambda"@ {
                Form::Lambda
            } else {
                Form::Application
            },
        },
        _ => Form::Application,
    }
}

/// The code of an expression, or the error that compiling it meets first.
pub open spec fn compile_expr(cenv: CEnv, level: nat, e: Val) -> Result<Seq<Op>, Fault>
    decreases e,
{
    match e {
        Val::Nil => Ok(seq![Op::PushNil]),
        Val::T => Ok(seq![Op::PushConst(Val::T)]),
        Val::Num(n) => Ok(seq![Op::PushConst(Val::Num(n))]),
        Val::Sym(name) => match lookup(cenv, name) {
            Some((i, j)) => Ok(seq![Op::Load((level - i) as nat, j)]),
            None => Err(fault(ErrorKind::NameError, "unknown variable: "@ + name)),
        },
        Val::Pair(h, rest) => match form_of(*h) {
            Form::Literal => Err(fault(ErrorKind::TypeError, print_val(*h) + " is not applicable"@)),
            Form::Primitive(n, op) => if op is Cons {
                compile_cons(cenv, level, *rest)
            } else {
                match check_args(n, *rest) {
                    Ok(()) => match compile_args(cenv, level, *rest) {
                        Ok(c) => Ok(c.push(op)),
                        Err(k) => Err(k),
                    },
                    Err(k) => Err(k),
                }
            },
            Form::If => compile_if(cenv, level, *rest),
            Form::Lambda => compile_lambda(cenv, level, *rest),
            Form::Application => match list_elems(*rest) {
                None => Err(fault(ErrorKind::ArityError, "arglist must be proper list"@)),
                Some(_) => match compile_app_args(cenv, level, *rest) {
                    Ok(ca) => match compile_expr(cenv, level, *h) {
                        Ok(cf) => Ok(seq![Op::PushNil] + ca + cf + seq![Op::Apply]),
                        Err(k) => Err(k),
                    },
                    Err(k) => Err(k),
                },
            },
        },
        Val::Closure(..) => Err(fault(ErrorKind::SyntaxError, "a closure is not source code"@)),
    }
}

/// The code of the actuals of a list, in order, one after another.
pub open spec fn compile_args(cenv: CEnv, level: nat, l: Val) -> Result<Seq<Op>, Fault>
    decreases l,
{
    match l {
        Val::Pair(a, d) => match compile_expr(cenv, level, *a) {
            Ok(ca) => match compile_args(cenv, level, *d) {
                Ok(cd) => Ok(ca + cd),
                Err(k) => Err(k),
            },
            Err(k) => Err(k),
        },
        _ => Ok(Seq::empty()),
    }
}

/// The code that conses the actuals of a list onto the list on the stack,
/// last actual first, so that the list built has them in source order.
pub open spec fn compile_app_args(cenv: CEnv, level: nat, l: Val) -> Result<Seq<Op>, Fault>
    decreases l,
{
    match l {
        Val::Pair(a, d) => match compile_app_args(cenv, level, *d) {
            Ok(cd) => match compile_expr(cenv, level, *a) {
                Ok(ca) => Ok(cd + ca + seq![Op::Cons]),
                Err(k) => Err(k),
            },
            Err(k) => Err(k),
        },
        _ => Ok(Seq::empty()),
    }
}

/// `(if test then else)`: the test, then a selection between the two branches,
/// each ending in `Join`.
pub open spec fn compile_if(cenv: CEnv, level: nat, args: Val) -> Result<Seq<Op>, Fault>
    decreases args,
{
    match check_args(3, args) {
        Err(k) => Err(k),
        Ok(()) => match args {
            Val::Pair(a, d1) => match *d1 {
                Val::Pair(b, d2) => match *d2 {
                    Val::Pair(c, _) => match compile_expr(cenv, level, *a) {
                        Ok(ca) => match compile_expr(cenv, level, *b) {
                            Ok(cb) => match compile_expr(cenv, level, *c) {
                                Ok(cc) => Ok(
                                    ca.push(Op::Select(cb.push(Op::Join), cc.push(Op::Join))),
                                ),
                                Err(k) => Err(k),
                            },
                            Err(k) => Err(k),
                        },
                        Err(k) => Err(k),
                    },
                    _ => Err(fault(ErrorKind::ArityError, "too few arguments"@)),
                },
                _ => Err(fault(ErrorKind::ArityError, "too few arguments"@)),
            },
            _ => Err(fault(ErrorKind::ArityError, "too few arguments"@)),
        },
    }
}

/// `(cons x y)`: the code of `y`, then that of `x`, then `Cons`, which takes
/// the value on top (`x`) as the `car`.
pub open spec fn compile_cons(cenv: CEnv, level: nat, args: Val) -> Result<Seq<Op>, Fault>
    decreases args,
{
    match check_args(2, args) {
        Err(k) => Err(k),
        Ok(()) => match args {
            Val::Pair(a, d) => match *d {
                Val::Pair(b, _) => match compile_expr(cenv, level, *b) {
                    Ok(cb) => match compile_expr(cenv, level, *a) {
                        Ok(ca) => Ok((cb + ca).push(Op::Cons)),
                        Err(k) => Err(k),
                    },
                    Err(k) => Err(k),
                },
                _ => Err(fault(ErrorKind::ArityError, "too few arguments"@)),
            },
            _ => Err(fault(ErrorKind::ArityError, "too few arguments"@)),
        },
    }
}

/// `(lambda (params...) body)`: a closure over the body compiled one level
/// deeper, with the parameters bound there, ending in `Return`.
pub open spec fn compile_lambda(cenv: CEnv, level: nat, args: Val) -> Result<Seq<Op>, Fault>
    decreases args,
{
    match check_args(2, args) {
        Err(k) => Err(k),
        Ok(()) => match args {
            Val::Pair(ps, d) => match *d {
                Val::Pair(body, _) => match list_elems(*ps) {
                    Some(params) => if level >= usize::MAX {
                        Err(fault(ErrorKind::SyntaxError, "lambda nested too deeply"@))
                    } else if exists|j: int| 0 <= j < params.len() && !(params[j] is Sym) {
                        Err(fault(ErrorKind::SyntaxError, "fn argument must be symbol"@))
                    } else {
                        match compile_expr(
                            bind_params(cenv, level + 1, params),
                            level + 1,
                            *body,
                        ) {
                            Ok(cb) => Ok(seq![Op::MakeClosure(cb.push(Op::Return))]),
                            Err(k) => Err(k),
                        }
                    },
                    None => Err(fault(ErrorKind::SyntaxError, "parameters must be a proper list"@)),
                },
                _ => Err(fault(ErrorKind::ArityError, "too few arguments"@)),
            },
            _ => Err(fault(ErrorKind::ArityError, "too few arguments"@)),
        },
    }
}

/// The code of a whole program: compiled at top level, with nothing bound.
pub open spec fn compile_program(e: Val) -> Result<Seq<Op>, Fault> {
    compile_expr(Seq::empty(), 0, e)
}

/// Whether two strings hold the same characters.
pub(crate) fn str_eq(a: &str, b: &str) -> (r: bool)
    ensures
        r == (a@ == b@),
{
    let n = a.unicode_len();
    if n != b.unicode_len() {
        return false;
    }
    let mut i: usize = 0;
    while i < n
        invariant
            n == a@.len(),
            n == b@.len(),
            i <= n,
            forall|k: int| 0 <= k < i ==> a@[k] == b@[k],
        decreases n - i,
    {
        if a.get_char(i) != b.get_char(i) {
            return false;
        }
        i = i + 1;
    }
    proof {
        assert(a@ =~= b@);
    }
    true
}

/// The arity and instruction of a primitive, by name.
fn primitive_insn(name: &str) -> (r: Option<(usize, Insn)>)
    ensures
        match primitive(name@) {
            Some((n, op)) => match r {
                Some((m, insn)) => m as nat == n && view_insn(insn) == op,
                None => false,
            },
            None => r is None,
        },
{
    if str_eq(name, "+") {
        Some((2, Insn::Iadd))
    } else if str_eq(name, "-") {
        Some((2, Insn::Isub))
    } else if str_eq(name, "*") {
        Some((2, Insn::Imul))
    } else if str_eq(name, "/") {
        Some((2, Insn::Idiv))
    } else if str_eq(name, "=") {
        Some((2, Insn::Ieq))
    } else if str_eq(name, "<") {
        Some((2, Insn::Ilt))
    } else if str_eq(name, ">") {
        Some((2, Insn::Igt))
    } else if str_eq(name, "<=") {
        Some((2, Insn::Ilte))
    } else if str_eq(name, ">=") {
        Some((2, Insn::Igte))
    } else if str_eq(name, "cons") {
        Some((2, Insn::Icons))
    } else if str_eq(name, "car") {
        Some((1, Insn::Icar))
    } else if str_eq(name, "cdr") {
        Some((1, Insn::Icdr))
    } else if str_eq(name, "null") {
        Some((1, Insn::Inull))
    } else if str_eq(name, "atom") {
        Some((1, Insn::Iatom))
    } else {
        None
    }
}

/// A name bound by a `lambda`: its absolute depth and its slot there.
struct Binding {
    name: String,
    depth: usize,
    slot: usize,
}

/// The compiler's state: the code emitted so far, the bindings in scope and
/// the `lambda` depth.
struct Compiler {
    insns: Vec<Insn>,
    cenv: Vec<Binding>,
    level: usize,
}

impl Compiler {
    /// The model of the bindings in scope.
    spec fn cenv_view(&self) -> CEnv {
        self.cenv@.map_values(|b: Binding| (b.name@, b.depth as nat, b.slot as nat))
    }

    /// No binding is deeper than the current depth.
    spec fn wf(&self) -> bool {
        forall|k: int| 0 <= k < self.cenv@.len() ==> #[trigger] self.cenv@[k].depth <= self.level
    }

    /// The model of the code emitted so far.
    spec fn code(&self) -> Seq<Op> {
        view_code(self.insns)
    }

    fn new() -> (r: Self)
        ensures
            r.wf(),
            r.cenv_view() == Seq::<(Seq<char>, nat, nat)>::empty(),
            r.level == 0,
            r.code() == Seq::<Op>::empty(),
    {
        let r = Compiler { insns: Vec::new(), cenv: Vec::new(), level: 0 };
        proof {
            assert(r.cenv_view() =~= Seq::<(Seq<char>, nat, nat)>::empty());
            assert(r.code() =~= Seq::<Op>::empty());
        }
        r
    }

    /// A compiler for a nested code sequence: same bindings and depth, no code.
    fn renew(&self) -> (r: Self)
        requires
            self.wf(),
        ensures
            r.wf(),
            r.cenv_view() == self.cenv_view(),
            r.level == self.level,
            r.code() == Seq::<Op>::empty(),
    {
        let mut cenv: Vec<Binding> = Vec::new();
        let mut k: usize = 0;
        while k < self.cenv.len()
            invariant
                self.wf(),
                k <= self.cenv@.len(),
                cenv@.len() == k,
                forall|x: int|
                    0 <= x < k ==> (#[trigger] cenv@[x]).name@ == self.cenv@[x].name@ && cenv@[x].depth
                        == self.cenv@[x].depth && cenv@[x].slot == self.cenv@[x].slot,
            decreases self.cenv@.len() - k,
        {
            let b = &self.cenv[k];
            cenv.push(Binding { name: b.name.clone(), depth: b.depth, slot: b.slot });
            k = k + 1;
        }
        let r = Compiler { insns: Vec::new(), cenv, level: self.level };
        proof {
            assert forall|x: int| 0 <= x < r.cenv@.len() implies #[trigger] r.cenv@[x].depth
                <= r.level by {
                assert(self.cenv@[x].depth <= self.level);
            }
            assert(r.cenv_view() =~= self.cenv_view());
            assert(r.code() =~= Seq::<Op>::empty());
        }
        r
    }

    /// The depth and slot of the binding of `name` in force.
    fn lookup(&self, name: &String) -> (r: Option<(usize, usize)>)
        requires
            self.wf(),
        ensures
            match lookup(self.cenv_view(), name@) {
                Some((i, j)) => match r {
                    Some((d, k)) => d as nat == i && k as nat == j && d <= self.level,
                    None => false,
                },
                None => r is None,
            },
    {
        let mut k = self.cenv.len();
        proof {
            assert(self.cenv_view().take(k as int) =~= self.cenv_view());
        }
        while k > 0
            invariant
                self.wf(),
                k <= self.cenv@.len(),
                lookup(self.cenv_view(), name@) == lookup(self.cenv_view().take(k as int), name@),
            decreases k,
        {
            let b = &self.cenv[k - 1];
            proof {
                assert(self.cenv_view().take(k as int).drop_last() =~= self.cenv_view().take(
                    k - 1,
                ));
            }
            if b.name == *name {
                proof {
                    assert(self.cenv@[k - 1].depth <= self.level);
                    assert(self.cenv_view().take(k as int).last() == self.cenv_view()[k - 1]);
                }
                return Some((b.depth, b.slot));
            }
            k = k - 1;
        }
        None
    }

    /// Whether `new` is `old` with the code `res` appended and `r` is `Ok`,
    /// or `r` is the error that `res` names; the bindings and depth stay.
    spec fn compiled(old: Compiler, new: Compiler, res: Result<Seq<Op>, Fault>, r: Result<(), Error>) -> bool {
        &&& new.wf()
        &&& new.cenv == old.cenv
        &&& new.level == old.level
        &&& match res {
            Ok(c) => r is Ok && new.code() == old.code() + c,
            Err(k) => r is Err && r->Err_0@ == k && new.code() == old.code(),
        }
    }

    /// Drops the code emitted after the first `n` instructions and fails with `e`.
    fn fail(&mut self, n: usize, e: Error) -> (r: Result<(), Error>)
        requires
            n <= old(self).insns@.len(),
        ensures
            r == Err::<(), Error>(e),
            final(self).code() == old(self).code().subrange(0, n as int),
            final(self).cenv == old(self).cenv,
            final(self).level == old(self).level,
    {
        self.insns.truncate(n);
        proof {
            assert(final(self).code() =~= old(self).code().subrange(0, n as int));
        }
        Err(e)
    }

    /// Appends one instruction.
    fn emit(&mut self, insn: Insn)
        ensures
            final(self).code() == old(self).code().push(view_insn(insn)),
            final(self).cenv == old(self).cenv,
            final(self).level == old(self).level,
    {
        self.insns.push(insn);
        proof {
            assert(final(self).code() =~= old(self).code().push(view_insn(insn)));
        }
    }

    /// Appends the code of `expr`.
    fn compile(&mut self, expr: &Object) -> (r: Result<(), Error>)
        requires
            old(self).wf(),
        ensures
            Self::compiled(
                *old(self),
                *final(self),
                compile_expr(old(self).cenv_view(), old(self).level as nat, expr@),
                r,
            ),
        decreases *expr, 2nat,
    {
        match expr {
            Object::Nil => {
                self.emit(Insn::Inil);
                proof {
                    assert(self.code() =~= old(self).code() + seq![Op::PushNil]);
                }
                Ok(())
            },
            Object::T => {
                self.emit(Insn::Ildc(Rc::new(Object::T)));
                proof {
                    assert(self.code() =~= old(self).code() + seq![Op::PushConst(Val::T)]);
                }
                Ok(())
            },
            Object::Number(n) => {
                self.emit(Insn::Ildc(Rc::new(Object::Number(*n))));
                proof {
                    assert(self.code() =~= old(self).code() + seq![Op::PushConst(Val::Num(*n))]);
                }
                Ok(())
            },
            Object::Symbol(name) => match self.lookup(name) {
                Some((i, j)) => {
                    let loc = (self.level - i, j);
                    self.emit(Insn::Ild(loc));
                    proof {
                        assert(self.code() =~= old(self).code() + seq![
                            Op::Load((self.level - i) as nat, j as nat),
                        ]);
                    }
                    Ok(())
                },
                None => {
                    let mut message = String::from_str("unknown variable: ");
                    message.append(name.as_str());
                    Err(Error { kind: ErrorKind::NameError, message })
                },
            },
            Object::Cons(..) => self.compile_list(expr),
            Object::Func(..) => Err(error(ErrorKind::SyntaxError, "a closure is not source code")),
        }
    }

    /// Appends the code of a compound form, by what its head is.
    fn compile_list(&mut self, expr: &Object) -> (r: Result<(), Error>)
        requires
            old(self).wf(),
            *expr is Cons,
        ensures
            Self::compiled(
                *old(self),
                *final(self),
                compile_expr(old(self).cenv_view(), old(self).level as nat, expr@),
                r,
            ),
        decreases *expr, 1nat,
    {
        match expr {
            Object::Cons(car, cdr) => match &**car {
                Object::Nil | Object::T | Object::Number(_) => {
                    let mut message = car.to_string();
                    message.append(" is not applicable");
                    Err(Error { kind: ErrorKind::TypeError, message })
                },
                Object::Symbol(name) => match primitive_insn(name.as_str()) {
                    Some((n, insn)) => {
                        assert(expr@ == Val::Pair(Box::new(car@), Box::new(cdr@)));
                        assert(car@ == Val::Sym(name@));
                        match insn {
                            Insn::Icons => self.compile_cons(cdr),
                            _ => self.compile_op(n, cdr, insn),
                        }
                    },
                    None => {
                        assert(expr@ == Val::Pair(Box::new(car@), Box::new(cdr@)));
                        assert(car@ == Val::Sym(name@));
                        if str_eq(name.as_str(), "if") {
                            self.compile_if(cdr)
                        } else if str_eq(name.as_str(), "lambda") {
                            self.compile_lambda(cdr)
                        } else {
                            self.compile_application(expr)
                        }
                    },
                },
                _ => self.compile_application(expr),
            },
            _ => Err(error(ErrorKind::InternalError, "not a compound form")),
        }
    }

    /// Checks that `args` is a proper list of exactly `n` actuals.
    fn take_args(&self, n: usize, args: &Object) -> (r: Result<(), Error>)
        ensures
            match check_args(n as nat, args@) {
                Ok(()) => r is Ok,
                Err(k) => r is Err && r->Err_0@ == k,
            },
    {
        let args = match object::list_to_vec(args) {
            Ok(v) => v,
            Err(_) => return Err(error(ErrorKind::ArityError, "arglist must be proper list")),
        };
        let nargs = args.len();
        if nargs < n {
            Err(error(ErrorKind::ArityError, "too few arguments"))
        } else if nargs > n {
            Err(error(ErrorKind::ArityError, "too many arguments"))
        } else {
            Ok(())
        }
    }

    /// A primitive: the actuals in source order, then its instruction.
    fn compile_op(&mut self, n: usize, args: &Object, insn: Insn) -> (r: Result<(), Error>)
        requires
            old(self).wf(),
        ensures
            Self::compiled(
                *old(self),
                *final(self),
                match check_args(n as nat, args@) {
                    Ok(()) => match compile_args(
                        old(self).cenv_view(),
                        old(self).level as nat,
                        args@,
                    ) {
                        Ok(c) => Ok(c.push(view_insn(insn))),
                        Err(k) => Err(k),
                    },
                    Err(k) => Err(k),
                },
                r,
            ),
        decreases *args, 1nat,
    {
        match self.take_args(n, args) {
            Ok(()) => {},
            Err(e) => return Err(e),
        }
        match self.compile_args(args) {
            Ok(()) => {},
            Err(e) => return Err(e),
        }
        self.emit(insn);
        proof {
            let c = compile_args(old(self).cenv_view(), old(self).level as nat, args@)->Ok_0;
            assert(self.code() =~= old(self).code() + c.push(view_insn(insn)));
        }
        Ok(())
    }

    /// Appends the code of each actual of a list, in order.
    fn compile_args(&mut self, l: &Object) -> (r: Result<(), Error>)
        requires
            old(self).wf(),
        ensures
            Self::compiled(
                *old(self),
                *final(self),
                compile_args(old(self).cenv_view(), old(self).level as nat, l@),
                r,
            ),
        decreases *l, 0nat,
    {
        let n0 = self.insns.len();
        match l {
            Object::Cons(a, d) => {
                match self.compile(&**a) {
                    Ok(()) => {},
                    Err(e) => return Err(e),
                }
                match self.compile_args(&**d) {
                    Ok(()) => {},
                    Err(e) => {
                        proof {
                            assert(self.code().len() == self.insns@.len());
                            assert(self.code().subrange(0, n0 as int) =~= old(self).code());
                        }
                        return self.fail(n0, e);
                    },
                }
                proof {
                    let cv = old(self).cenv_view();
                    let lv = old(self).level as nat;
                    let ca = compile_expr(cv, lv, a@)->Ok_0;
                    let cd = compile_args(cv, lv, d@)->Ok_0;
                    assert(self.code() =~= old(self).code() + (ca + cd));
                }
                Ok(())
            },
            _ => {
                proof {
                    assert(self.code() =~= old(self).code() + Seq::<Op>::empty());
                }
                Ok(())
            },
        }
    }

    /// Appends, for each actual of a list from the last to the first, its
    /// code and a `Cons`.
    fn compile_app_args(&mut self, l: &Object) -> (r: Result<(), Error>)
        requires
            old(self).wf(),
        ensures
            Self::compiled(
                *old(self),
                *final(self),
                compile_app_args(old(self).cenv_view(), old(self).level as nat, l@),
                r,
            ),
        decreases *l, 0nat,
    {
        let n0 = self.insns.len();
        match l {
            Object::Cons(a, d) => {
                match self.compile_app_args(&**d) {
                    Ok(()) => {},
                    Err(e) => return Err(e),
                }
                match self.compile(&**a) {
                    Ok(()) => {},
                    Err(e) => {
                        proof {
                            assert(self.code().len() == self.insns@.len());
                            assert(self.code().subrange(0, n0 as int) =~= old(self).code());
                        }
                        return self.fail(n0, e);
                    },
                }
                self.emit(Insn::Icons);
                proof {
                    let cv = old(self).cenv_view();
                    let lv = old(self).level as nat;
                    let ca = compile_expr(cv, lv, a@)->Ok_0;
                    let cd = compile_app_args(cv, lv, d@)->Ok_0;
                    assert(self.code() =~= old(self).code() + (cd + ca + seq![Op::Cons]));
                }
                Ok(())
            },
            _ => {
                proof {
                    assert(self.code() =~= old(self).code() + Seq::<Op>::empty());
                }
                Ok(())
            },
        }
    }

    /// A call: the list of actuals, the function, then `Iap`.
    fn compile_application(&mut self, expr: &Object) -> (r: Result<(), Error>)
        requires
            old(self).wf(),
            *expr is Cons,
        ensures
            match expr@ {
                Val::Pair(f, args) => Self::compiled(
                    *old(self),
                    *final(self),
                    match list_elems(*args) {
                        None => Err(fault(ErrorKind::ArityError, "arglist must be proper list"@)),
                        Some(_) => match compile_app_args(
                            old(self).cenv_view(),
                            old(self).level as nat,
                            *args,
                        ) {
                            Ok(ca) => match compile_expr(
                                old(self).cenv_view(),
                                old(self).level as nat,
                                *f,
                            ) {
                                Ok(cf) => Ok(seq![Op::PushNil] + ca + cf + seq![Op::Apply]),
                                Err(k) => Err(k),
                            },
                            Err(k) => Err(k),
                        },
                    },
                    r,
                ),
                _ => false,
            },
        decreases *expr, 0nat,
    {
        let n0 = self.insns.len();
        match expr {
            Object::Cons(f, args) => {
                match object::list_to_vec(&**args) {
                    Ok(_) => {},
                    Err(_) => return Err(error(ErrorKind::ArityError, "arglist must be proper list")),
                }
                self.emit(Insn::Inil);
                match self.compile_app_args(&**args) {
                    Ok(()) => {},
                    Err(e) => {
                        proof {
                            assert(self.code().len() == self.insns@.len());
                            assert(self.code().subrange(0, n0 as int) =~= old(self).code());
                        }
                        return self.fail(n0, e);
                    },
                }
                match self.compile(&**f) {
                    Ok(()) => {},
                    Err(e) => {
                        proof {
                            assert(self.code().len() == self.insns@.len());
                            assert(self.code().subrange(0, n0 as int) =~= old(self).code());
                        }
                        return self.fail(n0, e);
                    },
                }
                self.emit(Insn::Iap);
                proof {
                    let cv = old(self).cenv_view();
                    let lv = old(self).level as nat;
                    let ca = compile_app_args(cv, lv, args@)->Ok_0;
                    let cf = compile_expr(cv, lv, f@)->Ok_0;
                    assert(self.code() =~= old(self).code() + (seq![Op::PushNil] + ca + cf + seq![
                        Op::Apply,
                    ]));
                }
                Ok(())
            },
            _ => Err(error(ErrorKind::InternalError, "not a compound form")),
        }
    }

    /// `(if test then else)`.
    fn compile_if(&mut self, args: &Object) -> (r: Result<(), Error>)
        requires
            old(self).wf(),
        ensures
            Self::compiled(
                *old(self),
                *final(self),
                compile_if(old(self).cenv_view(), old(self).level as nat, args@),
                r,
            ),
        decreases *args, 1nat,
    {
        let n0 = self.insns.len();
        match self.take_args(3, args) {
            Ok(()) => {},
            Err(e) => return Err(e),
        }
        match args {
            Object::Cons(a, d1) => match &**d1 {
                Object::Cons(b, d2) => match &**d2 {
                    Object::Cons(c, _) => {
                        match self.compile(&**a) {
                            Ok(()) => {},
                            Err(e) => {
                                proof {
                                    let cv = old(self).cenv_view();
                                    let lv = old(self).level as nat;
                                    assert(check_args(3, args@) is Ok);
                                    assert(compile_expr(cv, lv, a@) is Err);
                                    assert(args@ == Val::Pair(Box::new(a@), Box::new(d1@)));
                                    assert(d1@ == Val::Pair(Box::new(b@), Box::new(d2@)));
                                    assert(compile_if(cv, lv, args@) == Err::<Seq<Op>, Fault>(e@));
                                }
                                return Err(e);
                            },
                        }
                        let mut c1 = self.renew();
                        match c1.compile(&**b) {
                            Ok(()) => {},
                            Err(e) => {
                                proof {
                                    assert(self.code().len() == self.insns@.len());
                                    assert(self.code().subrange(0, n0 as int) =~= old(self).code());
                                }
                                return self.fail(n0, e);
                            },
                        }
                        c1.emit(Insn::Ijoin);
                        let mut c2 = self.renew();
                        match c2.compile(&**c) {
                            Ok(()) => {},
                            Err(e) => {
                                proof {
                                    assert(self.code().len() == self.insns@.len());
                                    assert(self.code().subrange(0, n0 as int) =~= old(self).code());
                                }
                                return self.fail(n0, e);
                            },
                        }
                        c2.emit(Insn::Ijoin);
                        let ghost cb = c1.code();
                        let ghost cc = c2.code();
                        self.emit(Insn::Isel(Rc::new(c1.insns), Rc::new(c2.insns)));
                        proof {
                            let ca = compile_expr(old(self).cenv_view(), old(self).level as nat, a@)->Ok_0;
                            assert(self.code() =~= old(self).code() + ca.push(Op::Select(cb, cc)));
                        }
                        Ok(())
                    },
                    _ => Err(error(ErrorKind::ArityError, "too few arguments")),
                },
                _ => Err(error(ErrorKind::ArityError, "too few arguments")),
            },
            _ => Err(error(ErrorKind::ArityError, "too few arguments")),
        }
    }

    /// `(cons x y)`: `y`, then `x`, then `Icons`.
    fn compile_cons(&mut self, args: &Object) -> (r: Result<(), Error>)
        requires
            old(self).wf(),
        ensures
            Self::compiled(
                *old(self),
                *final(self),
                compile_cons(old(self).cenv_view(), old(self).level as nat, args@),
                r,
            ),
        decreases *args, 1nat,
    {
        let n0 = self.insns.len();
        match self.take_args(2, args) {
            Ok(()) => {},
            Err(e) => return Err(e),
        }
        match args {
            Object::Cons(a, d1) => match &**d1 {
                Object::Cons(b, d2) => {
                    assert(args@ == Val::Pair(Box::new(a@), Box::new(d1@)));
                    assert(d1@ == Val::Pair(Box::new(b@), Box::new(d2@)));
                    match self.compile(&**b) {
                        Ok(()) => {},
                        Err(e) => return Err(e),
                    }
                    match self.compile(&**a) {
                        Ok(()) => {},
                        Err(e) => {
                            proof {
                                assert(self.code().len() == self.insns@.len());
                                assert(self.code().subrange(0, n0 as int) =~= old(self).code());
                            }
                            return self.fail(n0, e);
                        },
                    }
                    self.emit(Insn::Icons);
                    proof {
                        let cv = old(self).cenv_view();
                        let lv = old(self).level as nat;
                        let cb = compile_expr(cv, lv, b@)->Ok_0;
                        let ca = compile_expr(cv, lv, a@)->Ok_0;
                        assert(self.code() =~= old(self).code() + (cb + ca).push(Op::Cons));
                    }
                    Ok(())
                },
                _ => Err(error(ErrorKind::ArityError, "too few arguments")),
            },
            _ => Err(error(ErrorKind::ArityError, "too few arguments")),
        }
    }

    /// `(lambda (params...) body)`.
    fn compile_lambda(&mut self, args: &Object) -> (r: Result<(), Error>)
        requires
            old(self).wf(),
        ensures
            Self::compiled(
                *old(self),
                *final(self),
                compile_lambda(old(self).cenv_view(), old(self).level as nat, args@),
                r,
            ),
        decreases *args, 1nat,
    {
        match self.take_args(2, args) {
            Ok(()) => {},
            Err(e) => return Err(e),
        }
        match args {
            Object::Cons(ps, d) => match &**d {
                Object::Cons(body, d2) => {
                    assert(args@ == Val::Pair(Box::new(ps@), Box::new(d@)));
                    assert(d@ == Val::Pair(Box::new(body@), Box::new(d2@)));
                    let params = match object::list_to_vec(&**ps) {
                        Ok(v) => v,
                        Err(_) => return Err(
                            error(ErrorKind::SyntaxError, "parameters must be a proper list"),
                        ),
                    };
                    if self.level == usize::MAX {
                        return Err(error(ErrorKind::SyntaxError, "lambda nested too deeply"));
                    }
                    let mut c = self.renew();
                    c.level = self.level + 1;
                    let ghost cenv0 = c.cenv_view();
                    let ghost pv = views(params@);
                    let mut j: usize = 0;
                    while j < params.len()
                        invariant
                            self.wf(),
                            self.cenv == old(self).cenv,
                            self.level == old(self).level,
                            self.level < usize::MAX,
                            check_args(2, args@) is Ok,
                            args@ == Val::Pair(Box::new(ps@), Box::new(d@)),
                            d@ == Val::Pair(Box::new(body@), Box::new(d2@)),
                            list_elems(ps@) == Some(pv),
                            c.wf(),
                            c.level == self.level + 1,
                            j <= params@.len(),
                            pv == views(params@),
                            c.cenv_view() == cenv0 + Seq::new(
                                j as nat,
                                |x: int| (sym_name(pv[x]), c.level as nat, x as nat),
                            ),
                            forall|x: int| 0 <= x < j ==> (#[trigger] pv[x]) is Sym,
                            c.code() == Seq::<Op>::empty(),
                        decreases params@.len() - j,
                    {
                        match &*params[j] {
                            Object::Symbol(name) => {
                                let ghost before = c.cenv_view();
                                c.cenv.push(Binding { name: name.clone(), depth: c.level, slot: j });
                                proof {
                                    assert(c.cenv_view() =~= before.push((name@, c.level as nat, j as nat)));
                                    assert(c.cenv_view() =~= cenv0 + Seq::new(
                                        (j + 1) as nat,
                                        |x: int| (sym_name(pv[x]), c.level as nat, x as nat),
                                    ));
                                }
                            },
                            _ => {
                                proof {
                                    assert(pv[j as int] == view_obj(*params@[j as int]));
                                    assert(!(pv[j as int] is Sym));
                                }
                                return Err(error(ErrorKind::SyntaxError, "fn argument must be symbol"));
                            },
                        }
                        j = j + 1;
                    }
                    proof {
                        assert(c.cenv_view() =~= bind_params(cenv0, c.level as nat, pv));
                    }
                    match c.compile(&**body) {
                        Ok(()) => {},
                        Err(e) => return Err(e),
                    }
                    c.emit(Insn::Irtn);
                    let ghost cb = c.code();
                    self.emit(Insn::Ildf(Rc::new(c.insns)));
                    proof {
                        assert(self.code() =~= old(self).code() + seq![Op::MakeClosure(cb)]);
                    }
                    Ok(())
                },
                _ => Err(error(ErrorKind::ArityError, "too few arguments")),
            },
            _ => Err(error(ErrorKind::ArityError, "too few arguments")),
        }
    }
}

/// Compiles an expression at top level, where nothing is bound.
pub fn compile(expr: &Object) -> (r: Result<Code, Error>)
    ensures
        match compile_program(expr@) {
            Ok(c) => r is Ok && view_code(*r->Ok_0) == c,
            Err(k) => r is Err && r->Err_0@ == k,
        },
{
    let mut compiler = Compiler::new();
    match compiler.compile(expr) {
        Ok(()) => {},
        Err(e) => return Err(e),
    }
    proof {
        assert(compiler.code() =~= Seq::<Op>::empty() + compiler.code());
    }
    Ok(Rc::new(compiler.insns))
}

} // verus!
